//! Fitting a narrative into a token budget of the cl100k_base encoding.
use vstd::prelude::*;
use crate::text::{chars_of, is_whitespace_char, is_ws};

verus! {

/// The cl100k_base token ids of `s`, as ordinary text (special tokens not recognised).
pub uninterp spec fn token_ids(s: Seq<char>) -> Seq<u32>;

/// The text that the cl100k_base token ids `t` decode to, if their bytes are UTF-8.
pub uninterp spec fn decoded_text(t: Seq<u32>) -> Option<Seq<char>>;

/// Longest run of whitespace characters that the encoder is handed.
pub const ENCODE_MAX_WS_RUN: usize = 100000;

/// The run of whitespace characters at the end of `s`.
pub open spec fn trailing_ws(s: Seq<char>) -> nat
    decreases s.len(),
{
    if s.len() > 0 && is_ws(s.last()) {
        trailing_ws(s.drop_last()) + 1
    } else {
        0
    }
}

/// No run of whitespace characters in `s` is longer than `limit`.
pub open spec fn ws_runs_within(s: Seq<char>, limit: nat) -> bool
    decreases s.len(),
{
    s.len() == 0 || (trailing_ws(s) <= limit && ws_runs_within(s.drop_last(), limit))
}

/// Whether no run of whitespace characters in `s` is longer than `ENCODE_MAX_WS_RUN`.
pub fn encodable(s: &str) -> (r: bool)
    ensures
        r == ws_runs_within(s@, ENCODE_MAX_WS_RUN as nat),
{
    let cs = chars_of(s);
    let mut run: usize = 0;
    let mut i: usize = 0;
    proof {
        assert(cs@.take(0) =~= Seq::<char>::empty());
    }
    while i < cs.len()
        invariant
            i <= cs.len(),
            cs@ == s@,
            run <= ENCODE_MAX_WS_RUN,
            run == trailing_ws(cs@.take(i as int)),
            ws_runs_within(cs@.take(i as int), ENCODE_MAX_WS_RUN as nat),
        decreases cs.len() - i,
    {
        let ghost t = cs@.take(i + 1);
        assert(t.drop_last() =~= cs@.take(i as int));
        assert(t.last() == cs@[i as int]);
        if is_whitespace_char(cs[i]) {
            if run == ENCODE_MAX_WS_RUN {
                assert(trailing_ws(t) == run + 1);
                assert(!ws_runs_within(t, ENCODE_MAX_WS_RUN as nat));
                assert(cs@.take(i + 1) == t);
                proof {
                    lemma_runs_within_prefix(cs@, i + 1);
                }
                return false;
            }
            run += 1;
        } else {
            run = 0;
        }
        i += 1;
    }
    assert(cs@.take(cs.len() as int) =~= cs@);
    true
}

proof fn lemma_runs_within_prefix(s: Seq<char>, k: int)
    requires
        0 <= k <= s.len(),
        !ws_runs_within(s.take(k), ENCODE_MAX_WS_RUN as nat),
    ensures
        !ws_runs_within(s, ENCODE_MAX_WS_RUN as nat),
    decreases s.len() - k,
{
    if k == s.len() {
        assert(s.take(k) =~= s);
    } else {
        assert(s.take(k + 1).drop_last() =~= s.take(k));
        lemma_runs_within_prefix(s, k + 1);
    }
}

/// Relies on `tiktoken_rs::cl100k_base_singleton` and `CoreBPE::encode_ordinary`: the token
/// ids of `s`. `encode_ordinary` unwraps each match of its pattern, found by fancy-regex. The
/// pattern's easy branches go to the delegated engine; only `\s+(?!\S)` runs in the
/// backtracking VM, which pushes one branch per whitespace character and backtracks a few
/// times before the lookahead succeeds. A whitespace run of at most `ENCODE_MAX_WS_RUN`
/// characters keeps each match far below the VM's stack bound and backtrack limit (both
/// 1,000,000), so no match fails.
#[verifier::external_body]
fn encode_text(s: &str) -> (r: Vec<u32>)
    requires
        ws_runs_within(s@, ENCODE_MAX_WS_RUN as nat),
    ensures
        r@ == token_ids(s@),
{
    tiktoken_rs::cl100k_base_singleton().encode_ordinary(s)
}

/// Relies on `tiktoken_rs::cl100k_base_singleton` and `CoreBPE::decode`: the text of the
/// token ids `t`, or `None` where an id is unknown or the bytes are not UTF-8.
#[verifier::external_body]
fn decode_tokens(t: &Vec<u32>) -> (r: Option<String>)
    ensures
        match r {
            Some(s) => decoded_text(t@) == Some(s@),
            None => decoded_text(t@) is None,
        },
{
    tiktoken_rs::cl100k_base_singleton().decode(t.as_slice()).ok()
}

/// How many of `n` tokens the head keeps: `split_percent` percent of `n`, rounded up, and
/// never more than the budget.
pub open spec fn token_head(n: nat, max_len: nat, split_percent: nat) -> nat {
    let h = (n * split_percent + 99) / 100;
    if h <= max_len {
        h
    } else {
        max_len
    }
}

/// The tokens that a budget of `max_len` keeps of `t`, or `None` if `t` is under it.
pub open spec fn budget_tokens(t: Seq<u32>, max_len: nat, split_percent: nat) -> Option<Seq<u32>> {
    let n = t.len();
    if n < max_len {
        None
    } else {
        let head = token_head(n, max_len, split_percent) as int;
        let tail = max_len - head;
        Some(t.take(head) + t.subrange(n - tail, n as int))
    }
}

/// The text that is returned when the kept tokens do not decode.
pub open spec fn decode_failure_text() -> Seq<char> {
    "failed to decode tokens"@
}

/// What `squeeze_fit_post_texts` returns for `s`.
pub open spec fn squeezed_tokens(s: Seq<char>, max_len: nat, split_percent: nat) -> Seq<char> {
    if !ws_runs_within(s, ENCODE_MAX_WS_RUN as nat) {
        decode_failure_text()
    } else {
        match budget_tokens(token_ids(s), max_len, split_percent) {
        None => s,
        Some(kept) => match decoded_text(kept) {
            Some(text) => text,
            None => decode_failure_text(),
        },
        }
    }
}

/// The tokens kept of `tokens` under a budget of `max_len`: `None` when there are fewer
/// than `max_len` of them; otherwise the first `split_percent` percent of them (rounded up,
/// at most `max_len`) followed by the last ones, `max_len` tokens in all.
pub fn fit_token_budget(tokens: &Vec<u32>, max_len: u16, split_percent: u32) -> (r: Option<Vec<u32>>)
    requires
        split_percent <= 100,
    ensures
        match r {
            Some(v) => budget_tokens(tokens@, max_len as nat, split_percent as nat) == Some(v@),
            None => budget_tokens(tokens@, max_len as nat, split_percent as nat) is None,
        },
        r is None <==> tokens@.len() < max_len,
        r matches Some(v) ==> v@.len() == max_len,
{
    let n = tokens.len();
    let max = max_len as usize;
    if n < max {
        return None;
    }
    assert((n as int) * (split_percent as int) <= (n as int) * 100) by (nonlinear_arith)
        requires
            split_percent <= 100,
    ;
    let h = (((n as u128) * (split_percent as u128) + 99) / 100) as usize;
    let head = if h <= max {
        h
    } else {
        max
    };
    let tail = max - head;
    let mut kept: Vec<u32> = Vec::new();
    let mut i: usize = 0;
    while i < head
        invariant
            i <= head <= max <= n == tokens.len(),
            kept@ == tokens@.take(i as int),
        decreases head - i,
    {
        kept.push(tokens[i]);
        i += 1;
        assert(kept@ =~= tokens@.take(i as int));
    }
    let mut j: usize = n - tail;
    while j < n
        invariant
            head + tail == max <= n == tokens.len(),
            n - tail <= j <= n,
            kept@ == tokens@.take(head as int) + tokens@.subrange(n - tail, j as int),
        decreases n - j,
    {
        kept.push(tokens[j]);
        j += 1;
        assert(kept@ =~= tokens@.take(head as int) + tokens@.subrange(n - tail, j as int));
    }
    Some(kept)
}

/// Fits a narrative into `max_len` cl100k_base tokens. Under the budget it is returned
/// unchanged; otherwise the tokens that `fit_token_budget` keeps are decoded. A fixed
/// notice stands in for text that does not decode, and for text with a whitespace run
/// longer than `ENCODE_MAX_WS_RUN` characters, which the encoder is not handed.
pub fn squeeze_fit_post_texts(inp_str: &str, max_len: u16, split_percent: u32) -> (r: String)
    requires
        split_percent <= 100,
    ensures
        r@ == squeezed_tokens(inp_str@, max_len as nat, split_percent as nat),
        ws_runs_within(inp_str@, ENCODE_MAX_WS_RUN as nat) && token_ids(inp_str@).len() < max_len
            ==> r@ == inp_str@,
{
    if !encodable(inp_str) {
        return String::from_str("failed to decode tokens");
    }
    let tokens = encode_text(inp_str);
    match fit_token_budget(&tokens, max_len, split_percent) {
        None => String::from_str(inp_str),
        Some(kept) => match decode_tokens(&kept) {
            Some(text) => text,
            None => String::from_str("failed to decode tokens"),
        },
    }
}

} // verus!
