//! Commands, their worked examples, and the registry that dispatches to them.
use clap::App;
use linked_hash_map::LinkedHashMap;
use vstd::prelude::*;

use crate::ordered_index::{
    entries_of, has_key, index_get, index_insert, index_keys, index_new, keys_distinct,
};
use crate::schema::{schema_clone, schema_name, schema_name_of};

verus! {

/// One worked example of a command: the arguments it is given and the lines
/// it prints.
#[derive(Clone, Debug, PartialEq, Eq)]
pub struct Case {
    pub desc: String,
    pub input: Vec<String>,
    pub output: Vec<String>,
    pub is_example: bool,
    pub is_test: bool,
    pub since: String,
}

/// The text of each line.
pub open spec fn lines_view(v: Seq<String>) -> Seq<Seq<char>> {
    v.map_values(|s: String| s@)
}

/// Whether a command's result is exactly the expected lines, in order.
pub open spec fn output_matches(expected: Seq<String>, actual: Result<Vec<String>, String>) -> bool {
    match actual {
        Ok(lines) => lines_view(lines@) == lines_view(expected),
        Err(_) => false,
    }
}

impl Case {
    /// Checks a command's result against the lines this case expects.
    pub fn passes(&self, actual: &Result<Vec<String>, String>) -> (r: bool)
        ensures
            r == output_matches(self.output@, *actual),
    {
        match actual {
            Ok(lines) => {
                if lines.len() != self.output.len() {
                    assert(lines_view(lines@).len() != lines_view(self.output@).len());
                    return false;
                }
                let mut i: usize = 0;
                while i < lines.len()
                    invariant
                        *actual == Ok::<Vec<String>, String>(*lines),
                        lines.len() == self.output.len(),
                        0 <= i <= lines.len(),
                        forall|j: int| 0 <= j < i ==> lines@[j]@ == self.output@[j]@,
                    decreases lines.len() - i,
                {
                    let got: &String = &lines[i];
                    let want: &String = &self.output[i];
                    let same = got.eq(want);
                    if !same {
                        assert(lines_view(lines@)[i as int] != lines_view(self.output@)[i as int]);
                        return false;
                    }
                    i = i + 1;
                }
                assert(lines_view(lines@) =~= lines_view(self.output@));
                true
            },
            Err(_) => false,
        }
    }
}

/// A subcommand: its argument schema, its transformation and its cases.
pub struct Command<'a, 'b, F> where 'a: 'b {
    pub app: App<'a, 'b>,
    pub f: F,
    pub cases: Vec<Case>,
}

/// A group of related commands sharing a description; `get_cases` yields
/// their cases keyed by command name, for grouped documentation.
pub struct Module<'a, 'b, F, G> where 'a: 'b {
    pub desc: String,
    pub commands: Vec<Command<'a, 'b, F>>,
    pub get_cases: G,
}

/// The schema names of `cmds`, in order.
pub open spec fn command_names<'a, 'b, F>(cmds: Seq<Command<'a, 'b, F>>) -> Seq<Seq<char>> {
    cmds.map_values(|c: Command<'a, 'b, F>| schema_name_of(c.app))
}

/// The name of the built-in command that prints the examples.
pub open spec fn usage_name() -> Seq<char> {
    seq!['u', 's', 'a', 'g', 'e']
}

/// The name of the built-in command that prints shell completion data.
pub open spec fn completion_name() -> Seq<char> {
    seq!['c', 'o', 'm', 'p', 'l', 'e', 't', 'i', 'o', 'n']
}

/// Whether a case is picked: the documented examples, or the regression tests.
pub open spec fn picked(c: Case, examples: bool) -> bool {
    if examples {
        c.is_example
    } else {
        c.is_test
    }
}

/// The picked cases among the first `upto` cases of command `cmd`, as
/// (command, case) positions in order.
pub open spec fn case_picks(cmd: int, cases: Seq<Case>, upto: int, examples: bool) -> Seq<
    (usize, usize),
>
    decreases upto,
{
    if upto <= 0 {
        Seq::empty()
    } else {
        let prev = case_picks(cmd, cases, upto - 1, examples);
        if picked(cases[upto - 1], examples) {
            prev.push((cmd as usize, (upto - 1) as usize))
        } else {
            prev
        }
    }
}

/// The picked cases of the first `upto` commands, command by command in
/// order of registration.
pub open spec fn command_picks<'a, 'b, F>(
    cmds: Seq<Command<'a, 'b, F>>,
    upto: int,
    examples: bool,
) -> Seq<(usize, usize)>
    decreases upto,
{
    if upto <= 0 {
        Seq::empty()
    } else {
        command_picks(cmds, upto - 1, examples) + case_picks(
            upto - 1,
            cmds[upto - 1].cases@,
            cmds[upto - 1].cases@.len() as int,
            examples,
        )
    }
}

/// Where a subcommand name leads.
#[derive(Clone, Copy, Debug, PartialEq, Eq, Structural)]
pub enum Dispatch {
    Usage,
    Completion,
    Command(usize),
}

/// Why a command could not be registered.
#[derive(Clone, Debug, PartialEq, Eq)]
pub enum RegisterError {
    /// The name is already taken, by a registered or a built-in command.
    Duplicate(String),
}

/// The registry: every command, keyed by its schema's name, in the order of
/// registration.
pub struct ModuleManager<'a, 'b, F> where 'a: 'b {
    index: LinkedHashMap<String, usize>,
    commands: Vec<Command<'a, 'b, F>>,
}

impl<'a, 'b, F> ModuleManager<'a, 'b, F> where 'a: 'b {
    /// The registered names, in the order of registration.
    pub closed spec fn names(&self) -> Seq<Seq<char>> {
        entries_of(self.index).map_values(|e: (Seq<char>, usize)| e.0)
    }

    /// The registered commands, in the order of registration.
    pub closed spec fn commands_view(&self) -> Seq<Command<'a, 'b, F>> {
        self.commands@
    }

    /// Every subcommand name: the registered ones, then the two built-ins.
    pub open spec fn schema_names_view(&self) -> Seq<Seq<char>> {
        self.names().push(usage_name()).push(completion_name())
    }

    /// Where `name` leads: a built-in, the position of the registered
    /// command of that name, or nothing.
    pub open spec fn dispatch_target(&self, name: Seq<char>) -> Option<Dispatch> {
        if name == usage_name() {
            Some(Dispatch::Usage)
        } else if name == completion_name() {
            Some(Dispatch::Completion)
        } else if self.names().contains(name) {
            Some(
                Dispatch::Command(
                    (choose|i: int| 0 <= i < self.names().len() && self.names()[i] == name) as usize,
                ),
            )
        } else {
            None
        }
    }

    /// The index and the commands agree position by position, and every
    /// subcommand name occurs once.
    pub closed spec fn wf(&self) -> bool {
        let e = entries_of(self.index);
        &&& e.len() == self.commands@.len()
        &&& forall|i: int|
            0 <= i < e.len() ==> (#[trigger] e[i]).1 == i && e[i].0 == schema_name_of(
                self.commands@[i].app,
            )
        &&& keys_distinct(e)
        &&& !has_key(e, usage_name())
        &&& !has_key(e, completion_name())
    }

    /// An empty registry.
    pub fn new() -> (r: Self)
        ensures
            r.wf(),
            r.names() == Seq::<Seq<char>>::empty(),
            r.commands_view() == Seq::<Command<'a, 'b, F>>::empty(),
    {
        let r = ModuleManager { index: index_new(), commands: Vec::new() };
        proof {
            assert(r.names() =~= Seq::<Seq<char>>::empty());
        }
        r
    }

    /// The registered command at position `i`.
    pub fn command(&self, i: usize) -> (r: &Command<'a, 'b, F>)
        requires
            i < self.commands_view().len(),
        ensures
            *r == self.commands_view()[i as int],
    {
        &self.commands[i]
    }

    /// Resolves a subcommand name: a built-in, the position of a registered
    /// command, or nothing for a name that was never registered.
    pub fn dispatch(&self, name: &str) -> (r: Option<Dispatch>)
        requires
            self.wf(),
        ensures
            r == self.dispatch_target(name@),
    {
        let n = name.to_owned();
        let usage = "usage".to_owned();
        let completion = "completion".to_owned();
        proof {
            reveal_strlit("usage");
            reveal_strlit("completion");
            assert("usage"@ =~= usage_name());
            assert("completion"@ =~= completion_name());
        }
        if n == usage {
            return Some(Dispatch::Usage);
        }
        if n == completion {
            return Some(Dispatch::Completion);
        }
        let found = index_get(&self.index, name);
        proof {
            let e = entries_of(self.index);
            if self.names().contains(name@) {
                let i = choose|i: int| 0 <= i < self.names().len() && self.names()[i] == name@;
                assert(e[i].0 == name@);
                assert(e[i].1 == i);
            }
            if has_key(e, name@) {
                let j = choose|j: int| 0 <= j < e.len() && (#[trigger] e[j]).0 == name@;
                assert(self.names()[j] == name@);
            }
        }
        match found {
            Some(i) => Some(Dispatch::Command(i)),
            None => None,
        }
    }

    /// Registers one command under `name`, its schema's name. A name that is already a
    /// subcommand name, registered or built-in, is refused and nothing changes.
    pub fn register_named(&mut self, name: String, command: Command<'a, 'b, F>) -> (r: Result<
        (),
        RegisterError,
    >)
        requires
            old(self).wf(),
            name@ == schema_name_of(command.app),
        ensures
            final(self).wf(),
            old(self).schema_names_view().contains(name@) ==> {
                &&& r == Err::<(), RegisterError>(RegisterError::Duplicate(name))
                &&& final(self).names() == old(self).names()
                &&& final(self).commands_view() == old(self).commands_view()
            },
            !old(self).schema_names_view().contains(name@) ==> {
                &&& r is Ok
                &&& final(self).names() == old(self).names().push(name@)
                &&& final(self).commands_view() == old(self).commands_view().push(command)
            },
    {
        let ghost old_names = self.schema_names_view();
        proof {
            assert(old_names.contains(name@) <==> (name@ == usage_name() || name@
                == completion_name() || self.names().contains(name@))) by {
                if self.names().contains(name@) {
                    let i = choose|i: int| 0 <= i < self.names().len() && self.names()[i] == name@;
                    assert(old_names[i] == name@);
                }
                if old_names.contains(name@) {
                    let i = choose|i: int| 0 <= i < old_names.len() && old_names[i] == name@;
                    if i < self.names().len() {
                        assert(self.names()[i] == name@);
                    }
                }
                if name@ == usage_name() {
                    assert(old_names[self.names().len() as int] == name@);
                }
                if name@ == completion_name() {
                    assert(old_names[self.names().len() + 1int] == name@);
                }
            }
        }
        if self.dispatch(name.as_str()).is_some() {
            return Err(RegisterError::Duplicate(name));
        }
        let ghost e0 = entries_of(self.index);
        let ghost name_view = name@;
        proof {
            if has_key(e0, name@) {
                let j = choose|j: int| 0 <= j < e0.len() && (#[trigger] e0[j]).0 == name@;
                assert(self.names()[j] == name@);
            }
        }
        let i = self.commands.len();
        let _ = index_insert(&mut self.index, name, i);
        self.commands.push(command);
        proof {
            let e = entries_of(self.index);
            assert(e == e0.push((name_view, i)));
            assert(self.names() =~= old(self).names().push(name_view));
            assert(!has_key(e, usage_name())) by {
                if has_key(e, usage_name()) {
                    let j = choose|j: int| 0 <= j < e.len() && (#[trigger] e[j]).0 == usage_name();
                    assert(e0[j].0 == usage_name());
                }
            }
            assert(!has_key(e, completion_name())) by {
                if has_key(e, completion_name()) {
                    let j = choose|j: int|
                        0 <= j < e.len() && (#[trigger] e[j]).0 == completion_name();
                    assert(e0[j].0 == completion_name());
                }
            }
            assert(keys_distinct(e)) by {
                assert forall|a: int, b: int|
                    0 <= a < e.len() && 0 <= b < e.len() && a != b implies (#[trigger] e[a]).0
                    != (#[trigger] e[b]).0 by {
                    if a == e0.len() {
                        assert(e0[b].0 != name_view);
                    } else if b == e0.len() {
                        assert(e0[a].0 != name_view);
                    }
                }
            }
        }
        Ok(())
    }

    /// Registers each command under its schema's name, in order. It stops at
    /// the first name that is already a subcommand name, registered before or
    /// earlier in `commands`, or built-in, and returns that name as the error;
    /// the commands before it stay registered.
    pub fn register(&mut self, commands: Vec<Command<'a, 'b, F>>) -> (r: Result<
        (),
        RegisterError,
    >)
        requires
            old(self).wf(),
        ensures
            final(self).wf(),
            exists|k: int|
                #![trigger commands@.take(k)]
                {
                    &&& 0 <= k <= commands@.len()
                    &&& r is Err <==> k < commands@.len()
                    &&& final(self).commands_view() == old(self).commands_view() + commands@.take(k)
                    &&& final(self).names() == old(self).names() + command_names(commands@.take(k))
                    &&& r is Err ==> final(self).schema_names_view().contains(
                        schema_name_of(commands@[k].app),
                    )
                    &&& r is Err ==> r == Err::<(), RegisterError>(
                        RegisterError::Duplicate(r->Err_0->Duplicate_0),
                    ) && (r->Err_0->Duplicate_0)@ == schema_name_of(commands@[k].app)
                },
    {
        let ghost all = commands@;
        let ghost start = *self;
        let n = commands.len();
        let mut rest = commands;
        let mut k: usize = 0;
        proof {
            assert(command_names(all.take(0)) =~= Seq::<Seq<char>>::empty());
            assert(start.names() + command_names(all.take(0)) =~= start.names());
        }
        while rest.len() > 0
            invariant
                self.wf(),
                start.wf(),
                0 <= k <= all.len(),
                rest@ == all.skip(k as int),
                k + rest@.len() == all.len(),
                n == all.len(),
                start == *old(self),
                all == commands@,
                self.commands_view() == start.commands_view() + all.take(k as int),
                self.names() == start.names() + command_names(all.take(k as int)),
            decreases rest.len(),
        {
            let c = rest.remove(0);
            let name = schema_name(&c.app);
            let ghost before = *self;
            match self.register_named(name, c) {
                Err(e) => {
                    assert(self.commands_view() == start.commands_view() + all.take(k as int));
                    assert(c == all[k as int]);
                    return Err(e);
                },
                Ok(()) => {},
            }
            proof {
                assert(all.take(k + 1) =~= all.take(k as int).push(c));
                assert(rest@ =~= all.skip(k + 1));
                assert(c == all[k as int]);
                assert(command_names(all.take(k + 1)) =~= command_names(all.take(k as int)).push(
                    schema_name_of(c.app),
                ));
                assert(self.names() =~= start.names() + command_names(all.take(k + 1)));
            }
            k = k + 1;
        }
        proof {
            assert(all.take(k as int) =~= all);
        }
        Ok(())
    }

    /// Every subcommand name: the registered ones in the order of
    /// registration, then `usage` and `completion`.
    pub fn schema_names(&self) -> (r: Vec<String>)
        requires
            self.wf(),
        ensures
            lines_view(r@) == self.schema_names_view(),
    {
        let mut r = index_keys(&self.index);
        r.push("usage".to_owned());
        r.push("completion".to_owned());
        proof {
            reveal_strlit("usage");
            reveal_strlit("completion");
            assert("usage"@ =~= usage_name());
            assert("completion"@ =~= completion_name());
            let e = entries_of(self.index);
            assert forall|j: int| 0 <= j < e.len() implies #[trigger] lines_view(r@)[j]
                == self.schema_names_view()[j] by {
                assert(r@[j]@ == e[j].0);
            }
            assert(lines_view(r@) =~= self.schema_names_view());
        }
        r
    }

    /// The argument schemas of every subcommand: a copy of each registered
    /// command's schema in the order of registration, then the two built-in
    /// schemas given. When those carry the built-in names, the schemas' names
    /// are exactly the subcommand names.
    pub fn apps(&self, usage: App<'a, 'b>, completion: App<'a, 'b>) -> (r: Vec<App<'a, 'b>>)
        requires
            self.wf(),
        ensures
            r@.len() == self.commands_view().len() + 2,
            forall|i: int|
                0 <= i < self.commands_view().len() ==> schema_name_of(#[trigger] r@[i])
                    == schema_name_of(self.commands_view()[i].app),
            r@[r@.len() - 2] == usage,
            r@[r@.len() - 1] == completion,
            schema_name_of(usage) == usage_name() && schema_name_of(completion)
                == completion_name() ==> r@.map_values(|a: App<'a, 'b>| schema_name_of(a))
                == self.schema_names_view(),
    {
        let mut r: Vec<App<'a, 'b>> = Vec::new();
        let mut i: usize = 0;
        while i < self.commands.len()
            invariant
                0 <= i <= self.commands@.len(),
                r@.len() == i,
                forall|j: int|
                    0 <= j < i ==> schema_name_of(#[trigger] r@[j]) == schema_name_of(
                        self.commands@[j].app,
                    ),
            decreases self.commands@.len() - i,
        {
            r.push(schema_clone(&self.commands[i].app));
            i = i + 1;
        }
        r.push(usage);
        r.push(completion);
        proof {
            let e = entries_of(self.index);
            let v = r@.map_values(|a: App<'a, 'b>| schema_name_of(a));
            if schema_name_of(usage) == usage_name() && schema_name_of(completion)
                == completion_name() {
                assert forall|j: int| 0 <= j < e.len() implies #[trigger] v[j]
                    == self.schema_names_view()[j] by {
                    assert(e[j].0 == schema_name_of(self.commands@[j].app));
                }
                assert(v =~= self.schema_names_view());
            }
        }
        r
    }

    fn picks(&self, examples: bool) -> (r: Vec<(usize, usize)>)
        ensures
            r@ == command_picks(self.commands@, self.commands@.len() as int, examples),
    {
        let mut r: Vec<(usize, usize)> = Vec::new();
        let mut i: usize = 0;
        while i < self.commands.len()
            invariant
                0 <= i <= self.commands@.len(),
                r@ == command_picks(self.commands@, i as int, examples),
            decreases self.commands@.len() - i,
        {
            let cases = &self.commands[i].cases;
            let ghost base = r@;
            let mut j: usize = 0;
            while j < cases.len()
                invariant
                    0 <= i < self.commands@.len(),
                    *cases == self.commands@[i as int].cases,
                    0 <= j <= cases@.len(),
                    base == command_picks(self.commands@, i as int, examples),
                    r@ == base + case_picks(i as int, cases@, j as int, examples),
                decreases cases@.len() - j,
            {
                let c = &cases[j];
                let take = if examples {
                    c.is_example
                } else {
                    c.is_test
                };
                if take {
                    r.push((i, j));
                }
                proof {
                    assert(r@ =~= base + case_picks(i as int, cases@, j + 1, examples));
                }
                j = j + 1;
            }
            i = i + 1;
        }
        r
    }

    /// The cases to show as documentation, as (command, case) positions:
    /// command by command in the order of registration, each command's cases
    /// in their own order.
    pub fn example_cases(&self) -> (r: Vec<(usize, usize)>)
        ensures
            r@ == command_picks(self.commands_view(), self.commands_view().len() as int, true),
    {
        self.picks(true)
    }

    /// The cases to replay as regression tests, as (command, case) positions,
    /// in the same order as the examples.
    pub fn test_cases(&self) -> (r: Vec<(usize, usize)>)
        ensures
            r@ == command_picks(self.commands_view(), self.commands_view().len() as int, false),
    {
        self.picks(false)
    }

    /// Every subcommand name occurs once: no two registered commands share a
    /// name, and none takes the name of a built-in.
    pub proof fn lemma_names_unique(&self)
        requires
            self.wf(),
        ensures
            forall|i: int, j: int|
                0 <= i < self.schema_names_view().len() && 0 <= j
                    < self.schema_names_view().len() && i != j ==> (#[trigger] self.schema_names_view()[i])
                    != (#[trigger] self.schema_names_view()[j]),
    {
        let e = entries_of(self.index);
        let s = self.schema_names_view();
        let n = self.names().len() as int;
        assert forall|i: int, j: int| 0 <= i < s.len() && 0 <= j < s.len() && i != j implies (
        #[trigger] s[i]) != (#[trigger] s[j]) by {
            if i < n && j < n {
                assert(e[i].0 != e[j].0);
            } else if i < n {
                assert(e[i].0 == s[i]);
                assert(s[j] == usage_name() || s[j] == completion_name());
                assert(usage_name() != completion_name()) by {
                    assert(usage_name().len() != completion_name().len());
                }
            } else if j < n {
                assert(e[j].0 == s[j]);
            } else {
                assert(usage_name().len() != completion_name().len());
            }
        }
    }

    /// The subcommand names list the registered commands in the order of
    /// registration, one name per command, followed by `usage` and then
    /// `completion`.
    pub proof fn lemma_builtins_last(&self)
        requires
            self.wf(),
        ensures
            self.names().len() == self.commands_view().len(),
            self.schema_names_view().len() == self.names().len() + 2,
            self.schema_names_view().take(self.names().len() as int) == self.names(),
            self.schema_names_view()[self.names().len() as int] == usage_name(),
            self.schema_names_view()[self.names().len() + 1int] == completion_name(),
    {
        assert(self.schema_names_view().take(self.names().len() as int) =~= self.names());
    }

    /// Dispatch is defined on exactly the subcommand names, and a registered
    /// name leads to the position of the command registered under it.
    pub proof fn lemma_dispatch_total(&self, name: Seq<char>)
        requires
            self.wf(),
        ensures
            self.dispatch_target(name).is_some() <==> self.schema_names_view().contains(name),
            forall|i: usize|
                self.dispatch_target(name) == Some(Dispatch::Command(i)) ==> i
                    < self.commands_view().len() && self.names()[i as int] == name,
    {
        let s = self.schema_names_view();
        let n = self.names().len() as int;
        if name == usage_name() {
            assert(s[n] == name);
        } else if name == completion_name() {
            assert(s[n + 1] == name);
        } else if self.names().contains(name) {
            let i = choose|i: int| 0 <= i < self.names().len() && self.names()[i] == name;
            assert(s[i] == name);
        } else if s.contains(name) {
            let i = choose|i: int| 0 <= i < s.len() && s[i] == name;
            assert(self.names()[i] == name);
        }
    }

    /// For schemas whose names are the subcommand names, as `apps` returns
    /// them when the built-in schemas carry the built-in names: no two
    /// schemas share a name, and a name belongs to a schema exactly when
    /// dispatch leads somewhere from it.
    pub proof fn lemma_schemas_match_dispatch(&self, schemas: Seq<App<'a, 'b>>, name: Seq<char>)
        requires
            self.wf(),
            schemas.map_values(|a: App<'a, 'b>| schema_name_of(a)) == self.schema_names_view(),
        ensures
            forall|i: int, j: int|
                0 <= i < schemas.len() && 0 <= j < schemas.len() && i != j ==> schema_name_of(
                    #[trigger] schemas[i],
                ) != schema_name_of(#[trigger] schemas[j]),
            (exists|i: int| 0 <= i < schemas.len() && schema_name_of(#[trigger] schemas[i]) == name)
                <==> self.dispatch_target(name).is_some(),
    {
        let v = schemas.map_values(|a: App<'a, 'b>| schema_name_of(a));
        self.lemma_names_unique();
        self.lemma_dispatch_total(name);
        assert forall|i: int, j: int|
            0 <= i < schemas.len() && 0 <= j < schemas.len() && i != j implies schema_name_of(
            #[trigger] schemas[i],
        ) != schema_name_of(#[trigger] schemas[j]) by {
            assert(v[i] == self.schema_names_view()[i]);
            assert(v[j] == self.schema_names_view()[j]);
        }
        if exists|i: int| 0 <= i < schemas.len() && schema_name_of(#[trigger] schemas[i]) == name {
            let i = choose|i: int|
                0 <= i < schemas.len() && schema_name_of(#[trigger] schemas[i]) == name;
            assert(self.schema_names_view()[i] == name);
        }
        if self.schema_names_view().contains(name) {
            let i = choose|i: int|
                0 <= i < self.schema_names_view().len() && self.schema_names_view()[i] == name;
            assert(v[i] == name);
            assert(schema_name_of(schemas[i]) == name);
        }
    }
}

} // verus!
