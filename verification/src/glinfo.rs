//! Decisions taken from the OpenGL version string.

use vstd::prelude::*;

verus! {

/// Whether a context of version `major.minor` offers the synchronous debug
/// output introduced with OpenGL 4.3.
pub open spec fn spec_supports_debug_output(major: u32, minor: u32) -> bool {
    major > 4 || (major == 4 && minor >= 3)
}

/// Decides whether debug output can be enabled for a context of the given
/// version; older contexts (such as the 4.1 of macOS) fall back to polling
/// for errors.
pub fn supports_debug_output(major: u32, minor: u32) -> (b: bool)
    ensures
        b == spec_supports_debug_output(major, minor),
{
    (major > 4) || (major == 4 && minor >= 3)
}


/// The value of `c` read as a decimal digit, as `char::to_digit(10)` gives it.
pub open spec fn spec_decimal_digit(c: char) -> Option<u32> {
    if '0' <= c && c <= '9' {
        Some((c as u32 - '0' as u32) as u32)
    } else {
        None
    }
}

/// Reads one character as a decimal digit.
pub fn decimal_digit(c: char) -> (d: Option<u32>)
    ensures
        d == spec_decimal_digit(c),
{
    if '0' <= c && c <= '9' {
        Some(c as u32 - '0' as u32)
    } else {
        None
    }
}

/// The version that a GL version string such as `"4.6.0 NVIDIA 535"` names:
/// its first character is the major version and its third the minor one.
/// `None` where either is missing or is no decimal digit.
pub open spec fn spec_gl_version(version: Seq<char>) -> Option<(u32, u32)> {
    if version.len() >= 3 && spec_decimal_digit(version[0]) is Some
        && spec_decimal_digit(version[2]) is Some {
        Some((spec_decimal_digit(version[0])->0, spec_decimal_digit(version[2])->0))
    } else {
        None
    }
}

/// Parses the major and minor version out of a GL version string.
pub fn gl_version(version: &str) -> (res: Option<(u32, u32)>)
    ensures
        res == spec_gl_version(version@),
{
    broadcast use vstd::string::axiom_spec_iter, vstd::string::next_postcondition;

    let mut chars = version.chars();
    let first = chars.next();
    let second = chars.next();
    let third = chars.next();
    match (first, second, third) {
        (Some(c0), Some(_), Some(c2)) => {
            match (decimal_digit(c0), decimal_digit(c2)) {
                (Some(major), Some(minor)) => Some((major, minor)),
                _ => None,
            }
        },
        _ => None,
    }
}

/// How OpenGL errors are reported back.
#[derive(Clone, Copy, PartialEq, Eq, Structural, Debug)]
pub enum ErrorReporting {
    /// Synchronous debug output through a callback.
    DebugOutput,
    /// Polling the error flag once after setup.
    PollErrors,
}

/// How errors are reported for the context whose version string is
/// `version`; `None` where the string names no version.
pub open spec fn spec_error_reporting(version: Seq<char>) -> Option<ErrorReporting> {
    match spec_gl_version(version) {
        Some((major, minor)) => Some(
            if spec_supports_debug_output(major, minor) {
                ErrorReporting::DebugOutput
            } else {
                ErrorReporting::PollErrors
            },
        ),
        None => None,
    }
}

/// Chooses how errors are reported from the context's version string.
pub fn error_reporting(version: &str) -> (r: Option<ErrorReporting>)
    ensures
        r == spec_error_reporting(version@),
{
    match gl_version(version) {
        Some((major, minor)) => Some(
            if supports_debug_output(major, minor) {
                ErrorReporting::DebugOutput
            } else {
                ErrorReporting::PollErrors
            },
        ),
        None => None,
    }
}

/// `c` is one of the characters `'0'` to `'9'`.
pub open spec fn is_ascii_digit(c: char) -> bool {
    '0' <= c && c <= '9'
}

/// A version string names a version exactly when its first and third
/// characters are decimal digits; the major version is the first digit's
/// value and the minor version the third's.
pub proof fn lemma_gl_version_reads_digits(v: Seq<char>)
    ensures
        spec_gl_version(v) is Some <==> (v.len() >= 3 && is_ascii_digit(v[0]) && is_ascii_digit(v[2])),
        spec_gl_version(v) is Some ==> spec_gl_version(v)->0 == ((v[0] as u32 - '0' as u32) as u32, (v[2]
            as u32 - '0' as u32) as u32),
{
}

/// Errors are reported by debug output exactly for a version string whose
/// first and third characters are digits naming version 4.3 or later
/// (major above 4, or major 4 and minor at least 3); by polling for every
/// other version string that names a version; and not at all chosen for a
/// string that names none.
pub proof fn lemma_error_reporting_by_version(v: Seq<char>)
    ensures
        spec_error_reporting(v) == Some(ErrorReporting::DebugOutput) <==> {
            &&& v.len() >= 3
            &&& is_ascii_digit(v[0])
            &&& is_ascii_digit(v[2])
            &&& (v[0] > '4' || (v[0] == '4' && v[2] >= '3'))
        },
        spec_error_reporting(v) == Some(ErrorReporting::PollErrors) <==> {
            &&& v.len() >= 3
            &&& is_ascii_digit(v[0])
            &&& is_ascii_digit(v[2])
            &&& !(v[0] > '4' || (v[0] == '4' && v[2] >= '3'))
        },
        spec_error_reporting(v) is None <==> !(v.len() >= 3 && is_ascii_digit(v[0]) && is_ascii_digit(v[2])),
{
}

/// Debug output is offered from OpenGL 4.3 on: by every later version and
/// by no earlier one.
pub proof fn lemma_debug_output_monotone(major1: u32, minor1: u32, major2: u32, minor2: u32)
    requires
        spec_supports_debug_output(major1, minor1),
        major1 < major2 || (major1 == major2 && minor1 <= minor2),
    ensures
        spec_supports_debug_output(major2, minor2),
{
}

} // verus!
