//! A verified parser and resolver for systemd-style unit files.
//!
//! The crate turns `[Section]` / `Key=Value` text into section and entry
//! streams, substitutes `%x` specifier placeholders from a call-scoped
//! context, locates unit fragments across ordered search roots, merges
//! drop-in overrides with the documented precedence rules, and parses the
//! duration and datetime value languages.
//!
//! All file and directory reading is left to the embedding program: the
//! loading functions here consume an in-memory snapshot of the relevant
//! directories, so that every decision about which fragment wins and how
//! drop-ins are merged is made by verified code.

pub mod error;
pub mod text;
pub mod escape;
pub mod template;
pub mod parser;
pub mod specifiers;
pub mod duration;
pub mod datetime;
pub mod loader;
pub mod config;

pub use config::{
    bool_value_of, parse_bool, parse_bool_list, parse_unsigned, split_whitespace_values,
    value_of, values_of, CustomUnit, NestedConfig,
};
pub use datetime::{parse_datetime, parse_datetime_at, DatetimeError, Instant};
pub use duration::{parse_duration, Duration};
pub use error::{Error, Expected};
pub use escape::{escape, unescape_non_path, unescape_path};
pub use loader::{
    candidate_dirs, load_dir_from, load_named_from, DropinDir, MergedUnit, NamedUnit, SearchRoot,
    SubdirParser, UnitFile,
};
pub use parser::{parse, Entry, Section};
pub use specifiers::{resolve, resolve_value, SpecifierContext};
pub use template::{materialize_instance, unit_type, UnitType};
