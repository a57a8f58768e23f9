use vstd::prelude::*;
use vstd::string::StringExecFns;

verus! {

/// The JSON string literal (quotes and escapes included) that encodes `s`.
pub uninterp spec fn json_string(s: Seq<char>) -> Seq<char>;

/// Relies on `serde_json::to_string` on a `str`: the JSON string literal of
/// `s`, which depends on the characters of `s` alone. Serializing a `str`
/// only escapes its characters into an in-memory buffer, so it never fails.
#[verifier::external_body]
fn quote_json(s: &str) -> (r: Option<String>)
    ensures
        r is Some,
        r matches Some(q) ==> q@ == json_string(s@),
{
    serde_json::to_string(s).ok()
}

/// Character-by-character equality of two strings.
pub fn str_eq(a: &str, b: &str) -> (r: bool)
    ensures
        r == (a@ == b@),
{
    let n = a.unicode_len();
    if n != b.unicode_len() {
        return false;
    }
    let mut i: usize = 0;
    while i < n
        invariant
            0 <= i <= n,
            n == a@.len(),
            n == b@.len(),
            forall|j: int| 0 <= j < i ==> a@[j] == b@[j],
        decreases n - i,
    {
        if a.get_char(i) != b.get_char(i) {
            return false;
        }
        i = i + 1;
    }
    assert(a@ =~= b@);
    true
}

pub open spec fn identity_prefix() -> Seq<char> {
    "{\"your_identifier\":"@
}

/// The one-time identity message, built around an already encoded JSON
/// string literal `quoted`.
pub fn identity_from_quoted(quoted: &str) -> (r: String)
    ensures
        r@ == identity_prefix() + quoted@ + "}"@,
{
    let head = "{\"your_identifier\":".to_owned();
    head.concat(quoted).concat("}")
}

/// The message `{"your_identifier":"<id>"}` that tells a client its
/// identifier.
pub fn identity_message(id: &str) -> (r: Option<String>)
    ensures
        r is Some,
        r matches Some(m) ==> m@ == identity_prefix() + json_string(id@) + "}"@,
{
    match quote_json(id) {
        Some(q) => Some(identity_from_quoted(q.as_str())),
        None => None,
    }
}

} // verus!
