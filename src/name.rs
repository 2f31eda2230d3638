//! Names of files and directories: UTF-8 text of at most 255 bytes.

use vstd::prelude::*;
use vstd::utf8::{is_char_boundary, valid_utf8};

verus! {

/// The largest index at most `k` at which `b` may be cut without splitting
/// a character.
pub open spec fn boundary_at_or_below(b: Seq<u8>, k: nat) -> nat
    decreases k,
{
    if k == 0 || is_char_boundary(b, k as int) {
        k
    } else {
        boundary_at_or_below(b, (k - 1) as nat)
    }
}

/// The name that the UTF-8 bytes `b` become: all of them if they are at
/// most 255, else the longest prefix of at most 255 bytes that ends on a
/// character boundary.
pub open spec fn bounded_name(b: Seq<u8>) -> Seq<u8> {
    if b.len() <= 255nat {
        b
    } else {
        b.take(boundary_at_or_below(b, 255nat) as int)
    }
}

pub proof fn lemma_bounded_name_len(b: Seq<u8>)
    ensures
        bounded_name(b).len() <= 255nat,
{
    if b.len() > 255nat {
        lemma_boundary_below(b, 255nat);
    }
}

proof fn lemma_boundary_below(b: Seq<u8>, k: nat)
    ensures
        boundary_at_or_below(b, k) <= k,
    decreases k,
{
    if k > 0 && !is_char_boundary(b, k as int) {
        lemma_boundary_below(b, (k - 1) as nat);
    }
}

/// Relies on arraystring's `ArrayString::<U255>::from_utf8`: it refuses
/// bytes that are not UTF-8 and otherwise keeps them, cut at a character
/// boundary to at most 255 bytes (`from_str_truncate`, `truncate_str`).
#[verifier::external_body]
pub(crate) fn to_bounded_name(b: &[u8]) -> (r: Option<Vec<u8>>)
    ensures
        r is Some <==> valid_utf8(b@),
        r matches Some(n) ==> n@ == bounded_name(b@),
{
    match arraystring::MaxString::from_utf8(b) {
        Ok(s) => Some(s.as_bytes().to_vec()),
        Err(_) => None,
    }
}

} // verus!
