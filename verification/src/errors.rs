use vstd::prelude::*;
use vstd::string::StringExecFns;

use crate::text::{chars_of, dec};

verus! {

/// Why an input value was rejected by the parser. Every error is final:
/// no recovery, no default substitution.
#[derive(Clone, Debug, PartialEq, Eq)]
pub enum ParseError {
    /// A numeric input below zero.
    Negative,
    /// A NaN or infinite floating input.
    NotFinite,
    /// The duration exceeds the representable range at some arithmetic step.
    Overflow,
    /// The string tokenizer found no digit at this byte offset.
    ExpectedNumber(usize),
    /// The string tokenizer found no unit letters at the byte offset
    /// right after this number's digits.
    ExpectedUnit(usize),
    /// The string tokenizer met a unit it does not know; the field holds
    /// the offending unit text, lower-cased.
    UnknownUnit(String),
    /// The string held no (number, unit) pair at all.
    EmptyInput,
}

/// Why a duration could not be rendered in a numeric output mode.
#[derive(Clone, Copy, Debug, PartialEq, Eq, Structural)]
pub enum FormatError {
    /// The value does not fit the target numeric width.
    TooLarge,
}

impl ParseError {
    /// The stable, greppable message text of this error.
    pub open spec fn msg_spec(&self) -> Seq<char> {
        match self {
            ParseError::Negative => "negative duration not allowed"@,
            ParseError::NotFinite => "non-finite float"@,
            ParseError::Overflow => "duration overflow"@,
            ParseError::ExpectedNumber(p) => "expected number at position "@ + chars_of(
                dec(*p as nat),
            ),
            ParseError::ExpectedUnit(p) => "expected unit after number at position "@ + chars_of(
                dec(*p as nat),
            ),
            ParseError::UnknownUnit(u) => "unknown unit '"@ + u@ + "' (use d, h, m, s, ms)"@,
            ParseError::EmptyInput => "empty duration string"@,
        }
    }

    /// Renders the message a host surfaces as its deserialization failure.
    pub fn message(&self) -> (m: String)
        ensures
            m@ == self.msg_spec(),
    {
        match self {
            ParseError::Negative => String::from_str("negative duration not allowed"),
            ParseError::NotFinite => String::from_str("non-finite float"),
            ParseError::Overflow => String::from_str("duration overflow"),
            ParseError::ExpectedNumber(p) => {
                let n = crate::text::u64_to_string(*p as u64);
                String::from_str("expected number at position ").concat(n.as_str())
            },
            ParseError::ExpectedUnit(p) => {
                let n = crate::text::u64_to_string(*p as u64);
                String::from_str("expected unit after number at position ").concat(n.as_str())
            },
            ParseError::UnknownUnit(u) => {
                String::from_str("unknown unit '").concat(u.as_str()).concat(
                    "' (use d, h, m, s, ms)",
                )
            },
            ParseError::EmptyInput => String::from_str("empty duration string"),
        }
    }
}

impl FormatError {
    /// The stable message text of this error.
    pub open spec fn msg_spec(&self) -> Seq<char> {
        "duration too large"@
    }

    /// Renders the message a host surfaces as its serialization failure.
    pub fn message(&self) -> (m: String)
        ensures
            m@ == self.msg_spec(),
    {
        String::from_str("duration too large")
    }
}

} // verus!
