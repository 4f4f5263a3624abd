//! The library's trusted boundary: the few calls into outside crates and
//! into parts of std that Verus gives no specification for. Each item's
//! contract states only what the callee's documentation promises.

use vstd::prelude::*;

verus! {

/// Relies on String::push: appends the given character to the end of the
/// string.
#[verifier::external_body]
pub(crate) fn push_char(s: &mut String, c: char)
    ensures
        final(s)@ == old(s)@.push(c),
{
    s.push(c);
}

/// Relies on uuid::Uuid::new_v4 and its Display form: a random version-4
/// UUID printed as 36 hyphenated lowercase hexadecimal characters. The
/// result is random; nothing relates it to earlier or later calls.
#[verifier::external_body]
pub(crate) fn fresh_id() -> (r: String)
    ensures
        r@.len() == 36,
{
    uuid::Uuid::new_v4().to_string()
}

/// Relies on chrono::Local::now and its Display form: the current local
/// date and time as text. The result depends on the clock, so nothing is
/// promised of it.
#[verifier::external_body]
pub(crate) fn now_string() -> String {
    chrono::Local::now().to_string()
}

} // verus!
