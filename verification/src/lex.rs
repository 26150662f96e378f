//! Whitespace tokenisation of decoded log lines.
//!
//! A token is a maximal run of non-whitespace bytes; runs of whitespace
//! separate tokens and never appear in them.

use vstd::prelude::*;

verus! {

/// ASCII whitespace as the log format uses it.
pub open spec fn is_ws(b: u8) -> bool {
    b == 0x20 || b == 0x09 || b == 0x0A || b == 0x0D
}

/// Length of the token starting at the head of `s`: the longest prefix
/// without whitespace.
pub open spec fn token_len(s: Seq<u8>) -> int
    decreases s.len(),
{
    if s.len() == 0 || is_ws(s[0]) {
        0
    } else {
        1 + token_len(s.drop_first())
    }
}

pub proof fn lemma_token_len_bounds(s: Seq<u8>)
    ensures
        0 <= token_len(s) <= s.len(),
    decreases s.len(),
{
    if s.len() > 0 && !is_ws(s[0]) {
        lemma_token_len_bounds(s.drop_first());
    }
}

/// `token_len` is the position of the first whitespace byte (or the length
/// of `s` when there is none).
pub proof fn lemma_token_len_char(s: Seq<u8>, k: int)
    requires
        0 <= k <= s.len(),
        forall|m: int| 0 <= m < k ==> !is_ws(#[trigger] s[m]),
        k < s.len() ==> is_ws(s[k]),
    ensures
        token_len(s) == k,
    decreases s.len(),
{
    if k == 0 {
    } else {
        assert(!is_ws(s[0]));
        let t = s.drop_first();
        assert forall|m: int| 0 <= m < k - 1 implies !is_ws(#[trigger] t[m]) by {
            assert(t[m] == s[m + 1]);
        }
        assert(k - 1 < t.len() ==> is_ws(t[k - 1]));
        lemma_token_len_char(t, k - 1);
    }
}

/// The tokens of `s`, in order.
pub open spec fn tokens_of(s: Seq<u8>) -> Seq<Seq<u8>>
    decreases s.len(),
    via tokens_of_decreases
{
    if s.len() == 0 {
        Seq::empty()
    } else if is_ws(s[0]) {
        tokens_of(s.drop_first())
    } else {
        seq![s.take(token_len(s))] + tokens_of(s.skip(token_len(s)))
    }
}

#[via_fn]
proof fn tokens_of_decreases(s: Seq<u8>) {
    if s.len() > 0 && !is_ws(s[0]) {
        lemma_token_len_bounds(s);
        lemma_token_len_bounds(s.drop_first());
        assert(token_len(s) >= 1);
    }
}

fn ws_byte(b: u8) -> (r: bool)
    ensures
        r == is_ws(b),
{
    b == 0x20 || b == 0x09 || b == 0x0A || b == 0x0D
}

/// Splits `s` into its whitespace-separated tokens.
pub fn tokenize(s: &[u8]) -> (r: Vec<Vec<u8>>)
    ensures
        r.deep_view() == tokens_of(s@),
{
    let mut r: Vec<Vec<u8>> = Vec::new();
    let mut i: usize = 0;
    proof {
        assert(r.deep_view() =~= Seq::<Seq<u8>>::empty());
        assert(s@.skip(0) =~= s@);
        assert(r.deep_view() + tokens_of(s@) =~= tokens_of(s@));
    }
    while i < s.len()
        invariant
            i <= s@.len(),
            tokens_of(s@) == r.deep_view() + tokens_of(s@.skip(i as int)),
        decreases s@.len() - i,
    {
        let b = s[i];
        if ws_byte(b) {
            proof {
                assert(s@.skip(i as int).drop_first() =~= s@.skip(i + 1));
            }
            i = i + 1;
        } else {
            let start = i;
            let mut j = i + 1;
            while j < s.len() && !ws_byte(s[j])
                invariant
                    start < j <= s@.len(),
                    forall|m: int| start <= m < j ==> !is_ws(#[trigger] s@[m]),
                decreases s@.len() - j,
            {
                j = j + 1;
            }
            let token: Vec<u8> = vstd::slice::slice_to_vec(
                vstd::slice::slice_subrange(s, start, j),
            );
            proof {
                let rest = s@.skip(start as int);
                assert forall|m: int| 0 <= m < j - start implies !is_ws(#[trigger] rest[m]) by {
                    assert(rest[m] == s@[start + m]);
                }
                assert(j - start < rest.len() ==> is_ws(rest[j - start]));
                lemma_token_len_char(rest, j - start);
                assert(rest.take(j - start) =~= s@.subrange(start as int, j as int));
                assert(rest.skip(j - start) =~= s@.skip(j as int));
                assert(tokens_of(rest) == seq![s@.subrange(start as int, j as int)] + tokens_of(
                    s@.skip(j as int),
                ));
            }
            let ghost prev_dv = r.deep_view();
            r.push(token);
            i = j;
            proof {
                assert(token.deep_view() =~= s@.subrange(start as int, j as int));
                assert(r.deep_view() =~= prev_dv.push(s@.subrange(start as int, j as int)));
                assert(tokens_of(s@) =~= r.deep_view() + tokens_of(s@.skip(i as int)));
            }
        }
    }
    proof {
        assert(s@.skip(i as int) =~= Seq::<u8>::empty());
        assert(tokens_of(s@) =~= r.deep_view());
    }
    r
}

} // verus!
