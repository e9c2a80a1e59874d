//! A registry of subcommands: each command carries an argument schema, a
//! transformation and the worked examples that document and test it.
pub mod modules;
pub mod ordered_index;
pub mod schema;
