//! Rendering of an identifier set as the text of a membership predicate,
//! `(id1, id2, ..., idn)`, written digit by digit so that the produced text
//! is pinned down exactly.

use vstd::prelude::*;

use crate::backend::ascii_to_string;

verus! {

/// The decimal digits of `n`, most significant first, as ASCII bytes.
pub open spec fn spec_dec_bytes(n: nat) -> Seq<u8>
    decreases n,
{
    if n < 10 {
        seq![(48 + n) as u8]
    } else {
        spec_dec_bytes(n / 10).push((48 + n % 10) as u8)
    }
}

/// The members of a non-empty identifier list rendered as decimal numbers,
/// separated by `", "`, with the closing `')'` after the last one.
pub open spec fn spec_set_items(ids: Seq<u64>) -> Seq<u8>
    decreases ids.len(),
{
    if ids.len() == 0 {
        Seq::empty()
    } else if ids.len() == 1 {
        spec_dec_bytes(ids[0] as nat).push(41u8)
    } else {
        spec_dec_bytes(ids[0] as nat) + seq![44u8, 32u8] + spec_set_items(ids.drop_first())
    }
}

/// The full membership predicate text: `'('`, then the members. An empty
/// list yields the bare `"("`, as the store layer never renders one (it
/// answers an empty lookup as "match nothing" without touching the store).
pub open spec fn spec_set_bytes(ids: Seq<u64>) -> Seq<u8> {
    seq![40u8] + spec_set_items(ids)
}

/// The predicate text as characters, as a `String` view shows it.
pub open spec fn spec_set_str(ids: Seq<u64>) -> Seq<char> {
    spec_set_bytes(ids).map_values(|b: u8| b as char)
}

/// Every byte of a rendered decimal number is an ASCII digit.
proof fn lemma_dec_bytes_ascii(n: nat)
    ensures
        forall|i: int|
            0 <= i < spec_dec_bytes(n).len() ==> 48 <= #[trigger] spec_dec_bytes(n)[i] <= 57,
    decreases n,
{
    if n < 10 {
        assert(spec_dec_bytes(n)[0] == (48 + n) as u8);
    } else {
        lemma_dec_bytes_ascii(n / 10);
        let p = spec_dec_bytes(n / 10);
        assert forall|i: int| 0 <= i < spec_dec_bytes(n).len() implies 48
            <= #[trigger] spec_dec_bytes(n)[i] <= 57 by {
            if i < p.len() {
                assert(spec_dec_bytes(n)[i] == p[i]);
            } else {
                assert(spec_dec_bytes(n)[i] == (48 + n % 10) as u8);
            }
        }
    }
}

/// Every byte of the predicate text is ASCII.
proof fn lemma_set_bytes_ascii(ids: Seq<u64>)
    ensures
        forall|i: int|
            0 <= i < spec_set_bytes(ids).len() ==> #[trigger] spec_set_bytes(ids)[i] < 128,
    decreases ids.len(),
{
    if ids.len() > 0 {
        lemma_dec_bytes_ascii(ids[0] as nat);
        if ids.len() > 1 {
            lemma_set_bytes_ascii(ids.drop_first());
            assert(spec_set_bytes(ids.drop_first()) == seq![40u8] + spec_set_items(
                ids.drop_first(),
            ));
            assert forall|i: int| 0 <= i < spec_set_items(ids.drop_first()).len() implies
                #[trigger] spec_set_items(ids.drop_first())[i] < 128 by {
                assert(spec_set_bytes(ids.drop_first())[i + 1] == spec_set_items(
                    ids.drop_first(),
                )[i]);
            }
        }
    }
}

/// Appends the decimal digits of `n` to `out`.
fn push_dec(n: u64, out: &mut Vec<u8>)
    ensures
        final(out)@ == old(out)@ + spec_dec_bytes(n as nat),
    decreases n,
{
    if n < 10 {
        out.push(48 + (n as u8));
        assert(out@ =~= old(out)@ + spec_dec_bytes(n as nat));
    } else {
        assert(n / 10 < n && n % 10 < 10);
        push_dec(n / 10, out);
        out.push(48 + ((n % 10) as u8));
        assert(out@ =~= old(out)@ + spec_dec_bytes(n as nat));
    }
}

/// Appends the rendering of `v[k..]` (non-empty) to `out`.
fn push_items(v: &Vec<u64>, k: usize, out: &mut Vec<u8>)
    requires
        k < v@.len(),
    ensures
        final(out)@ == old(out)@ + spec_set_items(v@.skip(k as int)),
    decreases v@.len() - k,
{
    let len = v.len();
    push_dec(v[k], out);
    let ghost rest = v@.skip(k as int);
    proof {
        assert(rest[0] == v@[k as int]);
    }
    if k + 1 < len {
        out.push(44);
        out.push(32);
        push_items(v, k + 1, out);
        proof {
            assert(rest.drop_first() =~= v@.skip((k + 1) as int));
            assert(out@ =~= old(out)@ + spec_set_items(rest));
        }
    } else {
        out.push(41);
        proof {
            assert(rest.len() == 1);
            assert(out@ =~= old(out)@ + spec_set_items(rest));
        }
    }
}

/// Renders `adj_list` as the text of a membership predicate over row ids:
/// `"(3, 7, 12)"`. An empty list yields `"("`; callers that mean "match
/// nothing" must not render a predicate at all.
pub fn vec_u64_to_set_str(adj_list: &Vec<u64>) -> (s: String)
    ensures
        s@ == spec_set_str(adj_list@),
{
    let mut bytes: Vec<u8> = Vec::new();
    bytes.push(40);
    if adj_list.len() > 0 {
        push_items(adj_list, 0, &mut bytes);
        proof {
            assert(adj_list@.skip(0) =~= adj_list@);
        }
    }
    proof {
        assert(bytes@ =~= spec_set_bytes(adj_list@));
        lemma_set_bytes_ascii(adj_list@);
    }
    ascii_to_string(bytes)
}

} // verus!
