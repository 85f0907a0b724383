//! Small host-facing helpers: default file locations under the user's
//! configuration directory, and a short preview of clipboard text.

use vstd::prelude::*;

verus! {

/// The identity file location relative to the user's home directory.
pub fn default_identity_path() -> (r: String)
    ensures
        r@ == ".openclipboard/identity.json"@,
{
    <String as vstd::string::StringExecFns>::from_str(".openclipboard/identity.json")
}

/// The trust file location relative to the user's home directory.
pub fn default_trust_path() -> (r: String)
    ensures
        r@ == ".openclipboard/trust.json"@,
{
    <String as vstd::string::StringExecFns>::from_str(".openclipboard/trust.json")
}

/// A short preview of a text: unchanged up to eighty characters, else the
/// first eighty followed by an ellipsis. The cut counts characters rather
/// than bytes, deliberately: a byte cut can fall inside a multi-byte
/// character, and this library's functions never panic, so no input is
/// rejected; the two counts agree on ASCII text.
pub fn preview(s: &str) -> (r: String)
    ensures
        s@.len() <= 80 ==> r@ == s@,
        s@.len() > 80 ==> r@ == s@.subrange(0, 80) + "\u{2026}"@,
{
    let n = vstd::string::StrSliceExecFns::unicode_len(s);
    if n <= 80 {
        <String as vstd::string::StringExecFns>::from_str(s)
    } else {
        let head = vstd::string::StrSliceExecFns::substring_char(s, 0, 80);
        let mut out = <String as vstd::string::StringExecFns>::from_str(head);
        vstd::string::StringExecFns::append(&mut out, "\u{2026}");
        out
    }
}

} // verus!
