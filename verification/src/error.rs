//! Error taxonomy of the library.

use vstd::prelude::*;

verus! {

/// What the grammar expected at the point where parsing failed.
#[derive(Clone, Copy, PartialEq, Eq, Structural, Debug)]
pub enum Expected {
    /// A `[Section]` header line (an entry appeared before any section).
    SectionHeader,
    /// The closing `]` of a section header, with a nonempty name before it.
    HeaderClose,
    /// A nonempty key before the `=` of an entry.
    Key,
    /// A `Key=Value` entry, a comment, a blank line or a section header.
    Entry,
}

/// Every failure the library reports.
///
/// Syntax and structural failures are fatal for the file at hand; the
/// loading functions downgrade them to a skip only for drop-in fragments.
#[derive(Clone, PartialEq, Eq, Debug)]
pub enum Error {
    /// The grammar rejected the input.  `line` is the one-based index of
    /// the offending logical line (after continuation joining).
    SyntaxError { line: usize, expect: Expected },
    /// The document holds no section and the caller required at least one.
    NoSectionError,
    /// A filename holds more than one `@`.
    InvalidFilenameError { filename: String },
    /// A template unit was asked to be loaded directly.
    LoadTemplateError { name: String },
    /// No search root holds the unit's base fragment.
    MissingUnitError { name: String },
    /// A required entry is missing from a typed binding.
    EntryMissingError { key: String },
    /// A required section is missing from a typed binding.
    SectionMissingError { key: String },
    /// A value does not parse as the type a typed binding asked for.
    ValueParsingError { key: String, value: String },
    /// A duration value does not parse.
    DurationError { value: String },
}

} // verus!
