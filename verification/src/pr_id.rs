//! Recovers the originating pull-request number from a commit's one-line
//! summary.
//!
//! The summary is split into whitespace-delimited tokens, which are scanned
//! from the end of the string backward. The first token of the exact shape
//! `(#<digits>)`, or failing that of the shape `#<digits>`, yields the
//! number. A token whose numeric body is malformed (or does not fit in
//! `usize`) is passed over and the scan continues; a summary with no matching
//! token yields no number, which is not an error.

use vstd::prelude::*;

use crate::bytes::all_digits;
use crate::bytes::copy_range;
use crate::bytes::digits_val;
use crate::bytes::first_ws_from;
use crate::bytes::is_ws;
use crate::bytes::lemma_first_ws_from_bounds;
use crate::bytes::parse_digits;
use crate::bytes::ws_byte;

verus! {

/// The whitespace-delimited tokens of `s` from index `i` on: maximal runs of
/// non-whitespace bytes, in order.
pub open spec fn tokens_from(s: Seq<u8>, i: int) -> Seq<Seq<u8>>
    decreases s.len() - i,
    via tokens_from_dec
{
    if i < 0 || i >= s.len() {
        Seq::empty()
    } else if is_ws(s[i]) {
        tokens_from(s, i + 1)
    } else {
        seq![s.subrange(i, first_ws_from(s, i))] + tokens_from(s, first_ws_from(s, i))
    }
}

#[via_fn]
proof fn tokens_from_dec(s: Seq<u8>, i: int) {
    if 0 <= i < s.len() && !is_ws(s[i]) {
        lemma_first_ws_from_bounds(s, i);
    }
}

pub open spec fn tokens(s: Seq<u8>) -> Seq<Seq<u8>> {
    tokens_from(s, 0)
}

/// The pull-request number that a single token yields: first the exact shape
/// `(#<digits>)`, then the shape `#<digits>`; otherwise nothing. The digits
/// must denote a value that fits in `usize`.
pub open spec fn token_pr_id(t: Seq<u8>) -> Option<nat> {
    if t.len() >= 4 && t[0] == 40 && t[1] == 35 && t[t.len() - 1] == 41 && all_digits(
        t.subrange(2, t.len() - 1),
    ) && digits_val(t.subrange(2, t.len() - 1)) <= usize::MAX {
        Some(digits_val(t.subrange(2, t.len() - 1)))
    } else if t.len() >= 2 && t[0] == 35 && all_digits(t.skip(1)) && digits_val(t.skip(1))
        <= usize::MAX {
        Some(digits_val(t.skip(1)))
    } else {
        None
    }
}

/// Scans tokens from the last one backward; the first token that yields a
/// number wins.
pub open spec fn scan_tokens(ts: Seq<Seq<u8>>) -> Option<nat>
    decreases ts.len(),
{
    if ts.len() == 0 {
        None
    } else {
        match token_pr_id(ts.last()) {
            Some(n) => Some(n),
            None => scan_tokens(ts.drop_last()),
        }
    }
}

/// What `extract_pr_id` returns, as a function of the summary text.
pub open spec fn extract_pr_id_spec(s: Seq<u8>) -> Option<nat> {
    scan_tokens(tokens(s))
}

/// Splits `s` into its whitespace-delimited tokens.
pub fn tokenize(s: &Vec<u8>) -> (r: Vec<Vec<u8>>)
    ensures
        r.deep_view() == tokens(s@),
{
    let mut r: Vec<Vec<u8>> = Vec::new();
    let mut i: usize = 0;
    while i < s.len()
        invariant
            i <= s@.len(),
            r.deep_view() + tokens_from(s@, i as int) == tokens(s@),
        decreases s@.len() - i,
    {
        if ws_byte(s[i]) {
            i += 1;
        } else {
            let mut j: usize = i;
            while j < s.len() && !ws_byte(s[j])
                invariant
                    i <= j <= s@.len(),
                    forall|k: int| i <= k < j ==> !is_ws(s@[k]),
                decreases s@.len() - j,
            {
                j += 1;
            }
            proof {
                lemma_first_ws_char(s@, i as int, j as int);
            }
            let tok = copy_range(s, i, j);
            let ghost prev = r.deep_view();
            r.push(tok);
            proof {
                assert(r.deep_view() =~= prev.push(s@.subrange(i as int, j as int))) by {
                    assert forall|k: int| 0 <= k < r.deep_view().len() implies r.deep_view()[k]
                        == prev.push(s@.subrange(i as int, j as int))[k] by {
                        if k == prev.len() {
                            assert(r@[k].deep_view() =~= r@[k]@);
                        }
                    }
                }
                assert(tokens_from(s@, i as int) == seq![s@.subrange(i as int, j as int)]
                    + tokens_from(s@, j as int));
                assert(r.deep_view() + tokens_from(s@, j as int) =~= prev + tokens_from(
                    s@,
                    i as int,
                ));
            }
            i = j;
        }
    }
    proof {
        assert(r.deep_view() + tokens_from(s@, i as int) =~= r.deep_view());
    }
    r
}

/// A scan that stopped at the first whitespace byte found the first one.
proof fn lemma_first_ws_char(s: Seq<u8>, i: int, j: int)
    requires
        0 <= i <= j <= s.len(),
        forall|k: int| i <= k < j ==> !is_ws(s[k]),
        j < s.len() ==> is_ws(s[j]),
    ensures
        first_ws_from(s, i) == j,
    decreases j - i,
{
    if i < j {
        lemma_first_ws_char(s, i + 1, j);
    }
}

/// Tries one token against the two accepted shapes.
fn try_token(t: &Vec<u8>) -> (r: Option<usize>)
    ensures
        r is Some <==> token_pr_id(t@) is Some,
        r matches Some(v) ==> token_pr_id(t@) == Some(v as nat),
{
    if t.len() >= 4 && t[0] == 40 && t[1] == 35 && t[t.len() - 1] == 41 {
        let inner = copy_range(t, 2, t.len() - 1);
        let r = parse_digits(&inner);
        return r;
    }
    if t.len() >= 2 && t[0] == 35 {
        let inner = copy_range(t, 1, t.len());
        proof {
            assert(inner@ =~= t@.skip(1));
        }
        let r = parse_digits(&inner);
        return r;
    }
    None
}

/// Extracts the originating pull-request number from a commit summary, if a
/// token of the accepted shapes occurs; the scan runs from the end of the
/// summary backward and the first match wins.
pub fn extract_pr_id(summary: &Vec<u8>) -> (r: Option<usize>)
    ensures
        r is Some <==> extract_pr_id_spec(summary@) is Some,
        r matches Some(v) ==> extract_pr_id_spec(summary@) == Some(v as nat),
{
    let toks = tokenize(summary);
    let mut k: usize = toks.len();
    proof {
        assert(toks.deep_view().take(k as int) =~= toks.deep_view());
    }
    while k > 0
        invariant
            k <= toks@.len(),
            toks.deep_view() == tokens(summary@),
            scan_tokens(toks.deep_view().take(k as int)) == extract_pr_id_spec(summary@),
        decreases k,
    {
        k -= 1;
        proof {
            assert(toks.deep_view().take(k + 1).drop_last() =~= toks.deep_view().take(k as int));
            assert(toks.deep_view().take(k + 1).last() == toks.deep_view()[k as int]);
            crate::bytes::lemma_deep_view_elem(toks, k as int);
        }
        let id = try_token(&toks[k]);
        if let Some(v) = id {
            return Some(v);
        }
    }
    proof {
        assert(toks.deep_view().take(0) =~= Seq::<Seq<u8>>::empty());
    }
    None
}

} // verus!
