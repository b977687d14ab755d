//! Whitespace-separated tokens of a line, as `str::split_whitespace` cuts
//! them (Unicode `White_Space` separates).
use vstd::prelude::*;
use vstd::string::StrSliceExecFns;
use crate::lite_config::{is_ws, is_ws_char, lemma_ws_from_bounds, ws_from};

verus! {

/// Where the token starting at `i` ends: the first whitespace at or after
/// `i`, or the end.
pub open spec fn token_end(s: Seq<char>, i: int) -> int
    decreases s.len() - i,
{
    if i < 0 || i >= s.len() || is_ws_char(s[i]) {
        i
    } else {
        token_end(s, i + 1)
    }
}

pub proof fn lemma_token_end_bounds(s: Seq<char>, i: int)
    requires
        0 <= i <= s.len(),
    ensures
        i <= token_end(s, i) <= s.len(),
        i < s.len() && !is_ws_char(s[i]) ==> i < token_end(s, i),
    decreases s.len() - i,
{
    if i < s.len() && !is_ws_char(s[i]) {
        lemma_token_end_bounds(s, i + 1);
    }
}

pub proof fn lemma_ws_from_stops(s: Seq<char>, i: int)
    requires
        0 <= i <= s.len(),
    ensures
        ws_from(s, i) < s.len() ==> !is_ws_char(s[ws_from(s, i)]),
    decreases s.len() - i,
{
    if i < s.len() && is_ws_char(s[i]) {
        lemma_ws_from_stops(s, i + 1);
    }
}

/// The tokens of `s` from index `i` on.
pub open spec fn tokens_from(s: Seq<char>, i: int) -> Seq<Seq<char>>
    decreases s.len() - i,
{
    if i < 0 || i > s.len() {
        seq![]
    } else {
        let a = ws_from(s, i);
        proof {
            lemma_ws_from_bounds(s, i);
            lemma_ws_from_stops(s, i);
        }
        if a >= s.len() {
            seq![]
        } else {
            let b = token_end(s, a);
            proof {
                lemma_token_end_bounds(s, a);
            }
            seq![s.subrange(a, b)] + tokens_from(s, b)
        }
    }
}

/// The whitespace-separated tokens of `s`.
pub open spec fn split_tokens(s: Seq<char>) -> Seq<Seq<char>> {
    tokens_from(s, 0)
}

/// The tokens of a line, in order.
pub fn split_whitespace_tokens(s: &str) -> (r: Vec<String>)
    ensures
        r@.len() == split_tokens(s@).len(),
        forall|k: int| 0 <= k < r@.len() ==> #[trigger] r@[k]@ == split_tokens(s@)[k],
{
    let n = s.unicode_len();
    let mut out: Vec<String> = Vec::new();
    let mut i: usize = 0;
    let ghost mut done: Seq<Seq<char>> = seq![];
    while i < n
        invariant
            i <= n == s@.len(),
            out@.len() == done.len(),
            forall|k: int| 0 <= k < out@.len() ==> #[trigger] out@[k]@ == done[k],
            done + tokens_from(s@, i as int) == split_tokens(s@),
        decreases n - i,
    {
        let mut a = i;
        while a < n && is_ws(s.get_char(a))
            invariant
                i <= a <= n == s@.len(),
                ws_from(s@, i as int) == ws_from(s@, a as int),
            decreases n - a,
        {
            a = a + 1;
        }
        proof {
            lemma_ws_from_bounds(s@, i as int);
        }
        if a == n {
            proof {
                assert(tokens_from(s@, i as int) =~= seq![]);
                assert(tokens_from(s@, n as int) =~= seq![]);
            }
            i = n;
        } else {
            let mut b = a;
            while b < n && !is_ws(s.get_char(b))
                invariant
                    a <= b <= n == s@.len(),
                    token_end(s@, a as int) == token_end(s@, b as int),
                decreases n - b,
            {
                b = b + 1;
            }
            proof {
                lemma_token_end_bounds(s@, a as int);
            }
            let token = String::from_str(s.substring_char(a, b));
            out.push(token);
            proof {
                let t = s@.subrange(a as int, b as int);
                assert(tokens_from(s@, i as int) == seq![t] + tokens_from(s@, b as int));
                assert(done.push(t) + tokens_from(s@, b as int) =~= done + tokens_from(s@, i as int));
                done = done.push(t);
            }
            i = b;
        }
    }
    proof {
        assert(tokens_from(s@, n as int) =~= seq![]);
        assert(done =~= split_tokens(s@));
    }
    out
}

} // verus!
