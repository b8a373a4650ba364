//! Random identifiers.
use crate::text::views;
use vstd::prelude::*;

verus! {

/// Whether `c` is a lower-case hexadecimal digit.
pub open spec fn is_lower_hex(c: char) -> bool {
    ('0' <= c && c <= '9') || ('a' <= c && c <= 'f')
}

/// Whether `s` is written as a UUID without hyphens: 32 lower-case hexadecimal
/// digits.
pub open spec fn is_uuid(s: Seq<char>) -> bool {
    s.len() == 32 && forall|i: int| 0 <= i < s.len() ==> is_lower_hex(#[trigger] s[i])
}

/// Draws a version-4 UUID with `uuid::Uuid::new_v4` and prints its `simple`
/// form. Which UUID it is rests on chance; every one is written as 32
/// lower-case hexadecimal digits.
#[verifier::external_body]
pub(crate) fn new_uuid() -> (r: String)
    ensures
        is_uuid(r@),
{
    uuid::Uuid::new_v4().simple().to_string()
}

/// Whether `ids` are `n` UUIDs.
pub open spec fn are_uuids(ids: Seq<Seq<char>>, n: nat) -> bool {
    ids.len() == n && forall|i: int| 0 <= i < ids.len() ==> is_uuid(#[trigger] ids[i])
}

/// Draws `n` UUIDs.
pub(crate) fn fresh_ids(n: usize) -> (r: Vec<String>)
    ensures
        are_uuids(views(r@), n as nat),
{
    let mut out: Vec<String> = Vec::new();
    let mut i: usize = 0;
    while i < n
        invariant
            i <= n,
            out@.len() == i,
            forall|k: int| 0 <= k < out@.len() ==> is_uuid((#[trigger] out@[k])@),
        decreases n - i,
    {
        let id = new_uuid();
        out.push(id);
        i = i + 1;
    }
    out
}

} // verus!
