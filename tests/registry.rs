use clap::{App, Arg, ArgMatches};
use dtool_modules::modules::{Case, Command, Dispatch, ModuleManager, RegisterError};

type Transform = fn(&ArgMatches<'static>) -> Result<Vec<String>, String>;

fn hex_digit(c: u8) -> Result<u8, String> {
    match c {
        b'0'..=b'9' => Ok(c - b'0'),
        b'a'..=b'f' => Ok(c - b'a' + 10),
        b'A'..=b'F' => Ok(c - b'A' + 10),
        _ => Err("Invalid hex".to_string()),
    }
}

fn hex_to_string(matches: &ArgMatches<'static>) -> Result<Vec<String>, String> {
    let input = matches.value_of("INPUT").ok_or("Invalid input")?;
    let bytes = input.as_bytes();
    if bytes.len() % 2 != 0 {
        return Err("Invalid hex".to_string());
    }
    let mut out = Vec::new();
    for pair in bytes.chunks(2) {
        out.push(hex_digit(pair[0])? * 16 + hex_digit(pair[1])?);
    }
    let s = String::from_utf8(out).map_err(|_| "Invalid utf8".to_string())?;
    Ok(vec![s])
}

fn string_to_hex(matches: &ArgMatches<'static>) -> Result<Vec<String>, String> {
    let input = matches.value_of("INPUT").ok_or("Invalid input")?;
    let hex: String = input.bytes().map(|b| format!("{:02x}", b)).collect();
    Ok(vec![hex])
}

fn case(desc: &str, input: &[&str], output: &[&str], is_example: bool, is_test: bool) -> Case {
    Case {
        desc: desc.to_string(),
        input: input.iter().map(|s| s.to_string()).collect(),
        output: output.iter().map(|s| s.to_string()).collect(),
        is_example,
        is_test,
        since: "0.1.0".to_string(),
    }
}

fn command(name: &'static str, f: Transform, cases: Vec<Case>) -> Command<'static, 'static, Transform> {
    Command {
        app: App::new(name).arg(Arg::with_name("INPUT").required(false).index(1)),
        f,
        cases,
    }
}

fn hex_commands() -> Vec<Command<'static, 'static, Transform>> {
    vec![
        command(
            "h2s",
            hex_to_string,
            vec![
                case("Convert hex to string", &["68656c6c6f"], &["hello"], true, true),
                case("Odd length", &["686"], &["h"], false, false),
            ],
        ),
        command(
            "s2h",
            string_to_hex,
            vec![
                case("Hidden test", &["a"], &["61"], false, true),
                case("Convert string to hex", &["hello"], &["68656c6c6f"], true, true),
            ],
        ),
    ]
}

fn other_commands() -> Vec<Command<'static, 'static, Transform>> {
    vec![command("echo_hex", string_to_hex, vec![case("Echo", &["b"], &["62"], true, false)])]
}

fn registry() -> ModuleManager<'static, 'static, Transform> {
    let mut mm = ModuleManager::new();
    assert_eq!(mm.register(hex_commands()), Ok(()));
    assert_eq!(mm.register(other_commands()), Ok(()));
    mm
}

fn invoke(mm: &ModuleManager<'static, 'static, Transform>, args: &[&str]) -> Result<Vec<String>, String> {
    let top = App::new("dtool").subcommands(mm.apps(App::new("usage"), App::new("completion")));
    let mut argv = vec!["dtool"];
    argv.extend_from_slice(args);
    let matches = top.get_matches_from_safe(argv).map_err(|e| e.message)?;
    let (name, sub) = matches.subcommand();
    match mm.dispatch(name) {
        Some(Dispatch::Command(i)) => (mm.command(i).f)(sub.expect("subcommand matches")),
        other => Err(format!("not a registered command: {:?}", other)),
    }
}

#[test]
fn empty_registry_has_only_builtins() {
    let mm: ModuleManager<'static, 'static, Transform> = ModuleManager::new();
    assert_eq!(mm.schema_names(), vec!["usage".to_string(), "completion".to_string()]);
    assert_eq!(mm.apps(App::new("usage"), App::new("completion")).len(), 2);
    assert!(mm.example_cases().is_empty());
    assert!(mm.test_cases().is_empty());
}

#[test]
fn schema_names_keep_registration_order() {
    let mm = registry();
    assert_eq!(
        mm.schema_names(),
        vec!["h2s", "s2h", "echo_hex", "usage", "completion"]
            .into_iter()
            .map(|s| s.to_string())
            .collect::<Vec<_>>()
    );
}

#[test]
fn apps_follow_schema_names() {
    let mm = registry();
    let apps = mm.apps(App::new("usage"), App::new("completion"));
    let names: Vec<String> = apps.iter().map(|a| a.get_name().to_string()).collect();
    assert_eq!(names, mm.schema_names());
}

#[test]
fn duplicate_name_is_refused() {
    let mut mm = registry();
    let again = vec![command("s2h", string_to_hex, vec![])];
    assert_eq!(mm.register(again), Err(RegisterError::Duplicate("s2h".to_string())));
    assert_eq!(mm.schema_names().len(), 5);
    assert_eq!(mm.dispatch("s2h"), Some(Dispatch::Command(1)));
}

#[test]
fn builtin_names_are_refused() {
    let mut mm = registry();
    let usage = vec![command("usage", string_to_hex, vec![])];
    assert_eq!(mm.register(usage), Err(RegisterError::Duplicate("usage".to_string())));
    let completion = vec![command("completion", string_to_hex, vec![])];
    assert_eq!(mm.register(completion), Err(RegisterError::Duplicate("completion".to_string())));
    assert_eq!(mm.schema_names().len(), 5);
}

#[test]
fn register_stops_at_first_duplicate() {
    let mut mm = ModuleManager::new();
    let batch = vec![
        command("a", string_to_hex, vec![]),
        command("b", string_to_hex, vec![]),
        command("a", hex_to_string, vec![]),
        command("c", string_to_hex, vec![]),
    ];
    assert_eq!(mm.register(batch), Err(RegisterError::Duplicate("a".to_string())));
    assert_eq!(
        mm.schema_names(),
        vec!["a", "b", "usage", "completion"].into_iter().map(|s| s.to_string()).collect::<Vec<_>>()
    );
}

#[test]
fn register_named_appends() {
    let mut mm = ModuleManager::new();
    assert_eq!(mm.register_named("x".to_string(), command("x", string_to_hex, vec![])), Ok(()));
    assert_eq!(mm.dispatch("x"), Some(Dispatch::Command(0)));
    assert_eq!(
        mm.register_named("x".to_string(), command("x", string_to_hex, vec![])),
        Err(RegisterError::Duplicate("x".to_string()))
    );
}

#[test]
fn dispatch_resolves_every_schema_name() {
    let mm = registry();
    assert_eq!(mm.dispatch("usage"), Some(Dispatch::Usage));
    assert_eq!(mm.dispatch("completion"), Some(Dispatch::Completion));
    assert_eq!(mm.dispatch("h2s"), Some(Dispatch::Command(0)));
    assert_eq!(mm.dispatch("s2h"), Some(Dispatch::Command(1)));
    assert_eq!(mm.dispatch("echo_hex"), Some(Dispatch::Command(2)));
    assert_eq!(mm.dispatch("nope"), None);
    assert_eq!(mm.dispatch(""), None);
    for name in mm.schema_names() {
        assert!(mm.dispatch(&name).is_some());
    }
}

#[test]
fn command_by_position() {
    let mm = registry();
    assert_eq!(mm.command(2).app.get_name(), "echo_hex");
    assert_eq!(mm.command(1).cases.len(), 2);
}

#[test]
fn example_cases_in_registration_order() {
    let mm = registry();
    assert_eq!(mm.example_cases(), vec![(0, 0), (1, 1), (2, 0)]);
}

#[test]
fn test_cases_in_registration_order() {
    let mm = registry();
    assert_eq!(mm.test_cases(), vec![(0, 0), (1, 0), (1, 1)]);
}

#[test]
fn every_test_case_replays() {
    let mm = registry();
    let cases = mm.test_cases();
    assert_eq!(cases.len(), 3);
    for (i, j) in cases {
        let cmd = mm.command(i);
        let c = &cmd.cases[j];
        let mut args: Vec<&str> = vec![cmd.app.get_name()];
        args.extend(c.input.iter().map(|s| s.as_str()));
        let actual = invoke(&mm, &args);
        assert!(c.passes(&actual), "{} {:?}", c.desc, actual);
    }
}

#[test]
fn hex_decode_scenario() {
    let mm = registry();
    let actual = invoke(&mm, &["h2s", "68656c6c6f"]);
    assert_eq!(actual, Ok(vec!["hello".to_string()]));
    assert!(mm.command(0).cases[0].passes(&actual));
}

#[test]
fn transform_is_repeatable() {
    let mm = registry();
    let first = invoke(&mm, &["s2h", "hello"]);
    let second = invoke(&mm, &["s2h", "hello"]);
    assert_eq!(first, second);
    assert_eq!(first, Ok(vec!["68656c6c6f".to_string()]));
}

#[test]
fn domain_error_is_returned() {
    let mm = registry();
    assert_eq!(invoke(&mm, &["h2s", "zz"]), Err("Invalid hex".to_string()));
}

#[test]
fn passes_compares_lines_exactly() {
    let c = case("d", &["x"], &["a", "b"], true, true);
    assert!(c.passes(&Ok(vec!["a".to_string(), "b".to_string()])));
    assert!(!c.passes(&Ok(vec!["b".to_string(), "a".to_string()])));
    assert!(!c.passes(&Ok(vec!["a".to_string()])));
    assert!(!c.passes(&Ok(vec!["a".to_string(), "b".to_string(), "c".to_string()])));
    assert!(!c.passes(&Err("a".to_string())));
    let empty = case("e", &[], &[], false, true);
    assert!(empty.passes(&Ok(vec![])));
    assert!(!empty.passes(&Err(String::new())));
}
