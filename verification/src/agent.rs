//! The local agent's door: which requests may reach the runtime.
use crate::model::{id, uuid_text};
use crate::text::join2;
use vstd::prelude::*;
use vstd::utf8::encode_utf8_decode_utf8;

verus! {

/// The scheme in front of the agent token in the `Authorization` header.
pub const BEARER: &'static str = "Bearer ";

/// The message of a refused request.
pub const AUTH_REQUIRED: &'static str = "Local agent authentication required.";

/// The `Authorization` header that a client must send for `token`.
pub open spec fn bearer(token: Seq<char>) -> Seq<char> {
    BEARER@ + token
}

/// The text of the header as read: an absent or unreadable header counts as empty.
pub open spec fn supplied_text(header: Option<&str>) -> Seq<char> {
    match header {
        Some(h) => h@,
        None => Seq::empty(),
    }
}

proof fn lemma_or_xor(d: u8, x: u8, y: u8)
    ensures
        ((d | (x ^ y)) == 0) <==> (d == 0 && x == y),
{
    assert(((d | (x ^ y)) == 0) <==> (d == 0 && x == y)) by (bit_vector);
}

/// Compares two byte strings in time that depends on their length only.
fn same_bytes(a: &[u8], b: &[u8]) -> (r: bool)
    ensures
        r == (a@ == b@),
{
    if a.len() != b.len() {
        return false;
    }
    let mut diff: u8 = 0;
    let mut i: usize = 0;
    while i < a.len()
        invariant
            i <= a.len(),
            a.len() == b.len(),
            (diff == 0) <==> (forall|j: int| 0 <= j < i ==> a@[j] == b@[j]),
        decreases a.len() - i,
    {
        let x = a[i];
        let y = b[i];
        proof {
            lemma_or_xor(diff, x, y);
        }
        diff = diff | (x ^ y);
        i = i + 1;
    }
    if diff == 0 {
        assert(a@ =~= b@);
    }
    diff == 0
}

/// Whether a request reaches the runtime: its `Authorization` header is exactly
/// `Bearer <token>` and it carries no `Origin` header (no browser page may call the agent).
pub fn authorized(header: Option<&str>, token: &str, has_origin: bool) -> (r: bool)
    ensures
        r == (supplied_text(header) == bearer(token@) && !has_origin),
{
    let expected = join2(BEARER, token);
    let supplied: &str = match header {
        Some(h) => h,
        None => "",
    };
    proof {
        reveal_strlit("");
        assert(supplied@ == supplied_text(header));
    }
    let equal = same_bytes(supplied.as_bytes(), expected.as_str().as_bytes());
    proof {
        encode_utf8_decode_utf8(supplied@);
        encode_utf8_decode_utf8(expected@);
    }
    equal && !has_origin
}

/// A fresh agent token: two random UUIDs back to back.
pub fn agent_token() -> (r: String)
    ensures
        exists|a: Seq<char>, b: Seq<char>| uuid_text(a) && uuid_text(b) && r@ == a + b,
{
    let a = id();
    let b = id();
    let r = join2(a.as_str(), b.as_str());
    assert(uuid_text(a@) && uuid_text(b@) && r@ == a@ + b@);
    r
}

} // verus!
