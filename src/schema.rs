//! clap's argument schemas, carried through the registry as opaque values.
use clap::App;
use vstd::prelude::*;

verus! {

#[verifier::external_type_specification]
#[verifier::external_body]
pub struct ExApp<'a, 'b>(App<'a, 'b>) where 'a: 'b;

/// The name a schema was built with, which is the subcommand's name.
pub uninterp spec fn schema_name_of(app: App) -> Seq<char>;

/// Relies on `App::get_name`: the name the schema was built with.
#[verifier::external_body]
pub(crate) fn schema_name<'a, 'b>(app: &App<'a, 'b>) -> (r: String)
    ensures
        r@ == schema_name_of(*app),
{
    app.get_name().to_string()
}

/// Relies on `App`'s `Clone`: an independent copy of the schema, with the
/// same name.
#[verifier::external_body]
pub(crate) fn schema_clone<'a, 'b>(app: &App<'a, 'b>) -> (r: App<'a, 'b>)
    ensures
        schema_name_of(r) == schema_name_of(*app),
{
    app.clone()
}

} // verus!
