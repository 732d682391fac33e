//! Fitting long posts into a word budget, with fenced blocks and over-long words removed.
use vstd::prelude::*;
use crate::text::{
    is_word, is_ws, words_acc,
    chars_of, contains_triple, has_triple, join_spaced, join_with_spaces, lines_of, push_all,
    split_lines, split_words, string_of, views, words_of,
};

verus! {

/// Words of this many characters or more are dropped from posts.
pub const LONG_WORD: usize = 150;

/// The words of `ws` shorter than `LONG_WORD`, in order.
pub open spec fn keep_short(ws: Seq<Seq<char>>) -> Seq<Seq<char>>
    decreases ws.len(),
{
    if ws.len() == 0 {
        Seq::empty()
    } else {
        let p = keep_short(ws.drop_last());
        if ws.last().len() < LONG_WORD {
            p.push(ws.last())
        } else {
            p
        }
    }
}

/// A line outside any fence, reduced to its short words joined by single spaces.
pub open spec fn clean_line(l: Seq<char>) -> Seq<char> {
    join_spaced(keep_short(words_of(l)))
}

/// A line that opens or closes a fenced block: it holds three backticks or three double quotes.
pub open spec fn is_fence(l: Seq<char>) -> bool {
    has_triple(l, '`') || has_triple(l, '"')
}

/// The text kept from `ls`, and whether the last line leaves a fenced block open.
pub open spec fn strip_fenced(ls: Seq<Seq<char>>) -> (Seq<char>, bool)
    decreases ls.len(),
{
    if ls.len() == 0 {
        (Seq::empty(), false)
    } else {
        let (body, inside) = strip_fenced(ls.drop_last());
        let l = ls.last();
        if is_fence(l) {
            (body, !inside)
        } else if inside {
            (body, inside)
        } else {
            (body + clean_line(l) + seq!['\n'], inside)
        }
    }
}

/// A post with fenced blocks and long words removed, one line per kept line.
pub open spec fn cleaned(s: Seq<char>) -> Seq<char> {
    strip_fenced(lines_of(s)).0
}

/// How many words the head keeps of a budget of `max_len` words, at `split_percent` percent.
pub open spec fn keep_head(max_len: nat, split_percent: nat) -> nat {
    max_len * split_percent / 100
}

/// The first `keep_head` words of `ws` and its last `max_len - keep_head` words, joined by
/// single spaces; the words between them are dropped.
pub open spec fn head_and_tail(ws: Seq<Seq<char>>, max_len: nat, split_percent: nat) -> Seq<char> {
    let n = ws.len();
    let head = keep_head(max_len, split_percent) as int;
    let tail = max_len - head;
    join_spaced(ws.take(head) + ws.subrange(n - tail, n as int))
}

/// What `squeeze_fit_remove_quoted` returns.
pub open spec fn squeezed(s: Seq<char>, max_len: nat, split_percent: nat) -> Seq<char> {
    let body = cleaned(s);
    let ws = words_of(body);
    if ws.len() <= max_len {
        body
    } else {
        head_and_tail(ws, max_len, split_percent)
    }
}

/// The short words of `ws`.
fn drop_long_words(ws: Vec<Vec<char>>) -> (r: Vec<Vec<char>>)
    ensures
        views(r@) == keep_short(views(ws@)),
{
    let mut out: Vec<Vec<char>> = Vec::new();
    let mut i: usize = 0;
    let ghost all = views(ws@);
    while i < ws.len()
        invariant
            i <= ws.len(),
            all == views(ws@),
            views(out@) == keep_short(all.take(i as int)),
        decreases ws.len() - i,
    {
        let ghost before = views(out@);
        assert(all.take(i + 1).drop_last() =~= all.take(i as int));
        if ws[i].len() < LONG_WORD {
            out.push(ws[i].clone());
            assert(views(out@) =~= before.push(all[i as int]));
        }
        i += 1;
    }
    assert(all.take(ws.len() as int) =~= all);
    out
}

/// The kept text of a post: fenced blocks and their marker lines dropped, every other line
/// reduced to its words under `LONG_WORD` characters, joined by single spaces, and ended
/// with a newline.
pub fn remove_quoted(s: &Vec<char>) -> (r: Vec<char>)
    ensures
        r@ == cleaned(s@),
{
    let lines = split_lines(s);
    let ghost ls = views(lines@);
    let mut body: Vec<char> = Vec::new();
    let mut inside = false;
    let mut i: usize = 0;
    while i < lines.len()
        invariant
            i <= lines.len(),
            ls == views(lines@),
            ls == lines_of(s@),
            (body@, inside) == strip_fenced(ls.take(i as int)),
        decreases lines.len() - i,
    {
        let line = &lines[i];
        assert(ls.take(i + 1).drop_last() =~= ls.take(i as int));
        assert(ls.take(i + 1).last() == line@);
        if contains_triple(line, '`') || contains_triple(line, '"') {
            inside = !inside;
        } else if !inside {
            let words = drop_long_words(split_words(line));
            let joined = join_with_spaces(&words);
            push_all(&mut body, &joined);
            body.push('\n');
        }
        i += 1;
    }
    assert(ls.take(lines.len() as int) =~= ls);
    body
}

/// Fits a post into `max_len` words. Fenced blocks and words of `LONG_WORD` characters or
/// more are removed first; if what is left has at most `max_len` words it is returned as is.
/// Otherwise the first `split_percent` percent of `max_len` (rounded down) of its words and
/// enough of its last words to make `max_len` in all are kept, joined by single spaces, and
/// the words between them are dropped.
pub fn squeeze_fit_remove_quoted(inp_str: &str, max_len: u16, split_percent: u32) -> (r: String)
    requires
        split_percent <= 100,
    ensures
        r@ == squeezed(inp_str@, max_len as nat, split_percent as nat),
        words_of(cleaned(inp_str@)).len() <= max_len ==> r@ == cleaned(inp_str@),
        words_of(cleaned(inp_str@)).len() > max_len ==> words_of(r@).len() == max_len,
{
    let chars = chars_of(inp_str);
    let body = remove_quoted(&chars);
    let words = split_words(&body);
    let n = words.len();
    if n <= max_len as usize {
        return string_of(&body);
    }
    let m = max_len as usize;
    assert((m as int) * (split_percent as int) <= (m as int) * 100) by (nonlinear_arith)
        requires
            split_percent <= 100,
    ;
    let head = ((max_len as u32) * split_percent / 100) as usize;
    assert(head <= m) by (nonlinear_arith)
        requires
            head == (m as int) * (split_percent as int) / 100,
            (m as int) * (split_percent as int) <= (m as int) * 100,
    ;
    let tail = m - head;
    let mut kept: Vec<Vec<char>> = Vec::new();
    let ghost ws = views(words@);
    let mut i: usize = 0;
    while i < head
        invariant
            i <= head <= m < n == words.len(),
            ws == views(words@),
            views(kept@) == ws.take(i as int),
        decreases head - i,
    {
        let ghost before = views(kept@);
        let w = words[i].clone();
        assert(w@ == ws[i as int]);
        kept.push(w);
        assert(views(kept@) =~= before.push(ws[i as int]));
        i += 1;
        assert(views(kept@) =~= ws.take(i as int));
    }
    let mut j: usize = n - tail;
    while j < n
        invariant
            head + tail == m < n,
            n - tail <= j <= n == words.len(),
            ws == views(words@),
            views(kept@) == ws.take(head as int) + ws.subrange(n - tail, j as int),
        decreases n - j,
    {
        let ghost before = views(kept@);
        let w = words[j].clone();
        assert(w@ == ws[j as int]);
        kept.push(w);
        assert(views(kept@) =~= before.push(ws[j as int]));
        j += 1;
        assert(views(kept@) =~= ws.take(head as int) + ws.subrange(n - tail, j as int));
    }
    proof {
        lemma_over_budget_head_and_tail(inp_str@, max_len as nat, split_percent as nat);
    }
    string_of(&join_with_spaces(&kept))
}

} // verus!

verus! {

proof fn lemma_words_acc_append(s: Seq<char>, t: Seq<char>)
    requires
        forall|j: int| 0 <= j < t.len() ==> !is_ws(#[trigger] t[j]),
    ensures
        words_acc(s + t) == (words_acc(s).0, words_acc(s).1 + t),
    decreases t.len(),
{
    if t.len() == 0 {
        assert(s + t =~= s);
        assert(words_acc(s).1 + t =~= words_acc(s).1);
    } else {
        assert((s + t).drop_last() =~= s + t.drop_last());
        lemma_words_acc_append(s, t.drop_last());
        assert(words_acc(s).1 + t.drop_last() + seq![t.last()] =~= words_acc(s).1 + t);
    }
}

proof fn lemma_words_acc_are_words(s: Seq<char>)
    ensures
        forall|i: int| 0 <= i < words_acc(s).0.len() ==> is_word(#[trigger] words_acc(s).0[i]),
        forall|j: int| 0 <= j < words_acc(s).1.len() ==> !is_ws(#[trigger] words_acc(s).1[j]),
    decreases s.len(),
{
    if s.len() > 0 {
        lemma_words_acc_are_words(s.drop_last());
        let (w, c) = words_acc(s.drop_last());
        let x = s.last();
        if is_ws(x) {
            if c.len() > 0 {
                assert forall|i: int| 0 <= i < w.push(c).len() implies is_word(#[trigger] w.push(c)[i]) by {
                    if i < w.len() {
                        assert(w.push(c)[i] == w[i]);
                    }
                }
            }
        } else {
            assert forall|j: int| 0 <= j < c.push(x).len() implies !is_ws(#[trigger] c.push(x)[j]) by {
                if j < c.len() {
                    assert(c.push(x)[j] == c[j]);
                }
            }
        }
    }
}

/// Every word of `words_of(s)` is a word: not empty and free of whitespace.
pub proof fn lemma_words_are_words(s: Seq<char>)
    ensures
        forall|i: int| 0 <= i < words_of(s).len() ==> is_word(#[trigger] words_of(s)[i]),
{
    lemma_words_acc_are_words(s);
}

proof fn lemma_words_acc_join(ws: Seq<Seq<char>>)
    requires
        ws.len() >= 1,
        forall|i: int| 0 <= i < ws.len() ==> is_word(#[trigger] ws[i]),
    ensures
        words_acc(join_spaced(ws)) == (ws.drop_last(), ws.last()),
    decreases ws.len(),
{
    let w = ws.last();
    assert(is_word(ws[ws.len() - 1]));
    if ws.len() == 1 {
        lemma_words_acc_append(Seq::empty(), w);
        assert(Seq::<char>::empty() + w =~= w);
        assert(Seq::<Seq<char>>::empty() =~= ws.drop_last());
        assert(Seq::<char>::empty() + w =~= w);
    } else {
        let p = ws.drop_last();
        assert forall|i: int| 0 <= i < p.len() implies is_word(#[trigger] p[i]) by {
            assert(is_word(ws[i]));
        }
        lemma_words_acc_join(p);
        let j = join_spaced(p) + seq![' '];
        assert(j.drop_last() =~= join_spaced(p));
        assert(is_word(p[p.len() - 1]));
        assert(p.drop_last().push(p.last()) =~= p);
        assert(words_acc(j) == (p, Seq::<char>::empty()));
        lemma_words_acc_append(j, w);
        assert(Seq::<char>::empty() + w =~= w);
    }
}

/// Joining words with single spaces and splitting the result again gives the same words.
pub proof fn lemma_words_of_join(ws: Seq<Seq<char>>)
    requires
        forall|i: int| 0 <= i < ws.len() ==> is_word(#[trigger] ws[i]),
    ensures
        words_of(join_spaced(ws)) == ws,
{
    if ws.len() == 0 {
        assert(words_of(Seq::empty()) =~= ws);
    } else {
        lemma_words_acc_join(ws);
        assert(is_word(ws[ws.len() - 1]));
        assert(ws.drop_last().push(ws.last()) =~= ws);
    }
}

/// When the kept text of a post has more than `max_len` words, the output's words are the
/// first `keep_head` words of that text followed by its last `max_len - keep_head` words:
/// `max_len` words in all, fewer than the kept text has, with the middle dropped.
pub proof fn lemma_over_budget_head_and_tail(s: Seq<char>, max_len: nat, split_percent: nat)
    requires
        split_percent <= 100,
        words_of(cleaned(s)).len() > max_len,
    ensures
        ({
            let ws = words_of(cleaned(s));
            let n = ws.len();
            let head = keep_head(max_len, split_percent);
            let tail = max_len - head;
            let out = words_of(squeezed(s, max_len, split_percent));
            &&& head <= max_len
            &&& out == ws.take(head as int) + ws.subrange(n - tail, n as int)
            &&& out.len() == max_len
            &&& out.len() < n
            &&& out.take(head as int) == ws.take(head as int)
            &&& out.skip(head as int) == ws.skip(n - tail)
        }),
{
    let ws = words_of(cleaned(s));
    let n = ws.len();
    let head = keep_head(max_len, split_percent);
    assert(max_len * split_percent <= max_len * 100) by (nonlinear_arith)
        requires
            split_percent <= 100,
    ;
    let tail = max_len - head;
    let kept = ws.take(head as int) + ws.subrange(n - tail, n as int);
    lemma_words_are_words(cleaned(s));
    assert forall|i: int| 0 <= i < kept.len() implies is_word(#[trigger] kept[i]) by {
        if i < head {
            assert(kept[i] == ws[i]);
        } else {
            assert(kept[i] == ws[n - tail + i - head]);
        }
    }
    lemma_words_of_join(kept);
    assert(kept.take(head as int) =~= ws.take(head as int));
    assert(kept.skip(head as int) =~= ws.skip(n - tail));
}

proof fn lemma_strip_fenced_same_start(x: Seq<Seq<char>>, y: Seq<Seq<char>>, b: Seq<Seq<char>>)
    requires
        strip_fenced(x) == strip_fenced(y),
    ensures
        strip_fenced(x + b) == strip_fenced(y + b),
    decreases b.len(),
{
    if b.len() == 0 {
        assert(x + b =~= x);
        assert(y + b =~= y);
    } else {
        lemma_strip_fenced_same_start(x, y, b.drop_last());
        assert((x + b).drop_last() =~= x + b.drop_last());
        assert((y + b).drop_last() =~= y + b.drop_last());
    }
}

proof fn lemma_strip_fenced_inside(a: Seq<Seq<char>>, f: Seq<char>, mid: Seq<Seq<char>>, j: int)
    requires
        !strip_fenced(a).1,
        is_fence(f),
        0 <= j <= mid.len(),
        forall|i: int| 0 <= i < mid.len() ==> !is_fence(#[trigger] mid[i]),
    ensures
        strip_fenced(a + seq![f] + mid.take(j)) == (strip_fenced(a).0, true),
    decreases j,
{
    if j == 0 {
        assert(a + seq![f] + mid.take(0) =~= a.push(f));
        assert(a.push(f).drop_last() =~= a);
    } else {
        lemma_strip_fenced_inside(a, f, mid, j - 1);
        assert((a + seq![f] + mid.take(j)).drop_last() =~= a + seq![f] + mid.take(j - 1));
        assert(!is_fence(mid[j - 1]));
    }
}

/// A fenced block that opens and closes within a post leaves no trace in the kept text:
/// the lines `a`, an opening fence line, lines without fences, a closing fence line and
/// then `b` keep exactly what `a` followed by `b` keeps, when `a` leaves no block open.
pub proof fn lemma_fenced_block_dropped(
    a: Seq<Seq<char>>,
    open: Seq<char>,
    mid: Seq<Seq<char>>,
    close: Seq<char>,
    b: Seq<Seq<char>>,
)
    requires
        !strip_fenced(a).1,
        is_fence(open),
        is_fence(close),
        forall|i: int| 0 <= i < mid.len() ==> !is_fence(#[trigger] mid[i]),
    ensures
        strip_fenced(a + seq![open] + mid + seq![close] + b) == strip_fenced(a + b),
{
    lemma_strip_fenced_inside(a, open, mid, mid.len() as int);
    assert(mid.take(mid.len() as int) =~= mid);
    let x = a + seq![open] + mid + seq![close];
    assert(x.drop_last() =~= a + seq![open] + mid);
    assert(strip_fenced(x) == strip_fenced(a));
    lemma_strip_fenced_same_start(x, a, b);
}

/// The lines `a` and `b` agree outside fenced blocks: they have the same fence lines at the
/// same places, and where a line differs it lies inside a fenced block of `a` and is no
/// fence line.
pub open spec fn same_outside_fences(a: Seq<Seq<char>>, b: Seq<Seq<char>>) -> bool {
    &&& a.len() == b.len()
    &&& forall|k: int| 0 <= k < a.len() ==> is_fence(#[trigger] a[k]) == is_fence(b[k])
    &&& forall|k: int|
        0 <= k < a.len() && #[trigger] a[k] != b[k] ==> strip_fenced(a.take(k)).1 && !is_fence(a[k])
}

proof fn lemma_same_outside_prefix(a: Seq<Seq<char>>, b: Seq<Seq<char>>, k: int)
    requires
        same_outside_fences(a, b),
        0 <= k <= a.len(),
    ensures
        strip_fenced(a.take(k)) == strip_fenced(b.take(k)),
    decreases k,
{
    if k == 0 {
        assert(a.take(0) =~= b.take(0));
    } else {
        lemma_same_outside_prefix(a, b, k - 1);
        assert(a.take(k).drop_last() =~= a.take(k - 1));
        assert(b.take(k).drop_last() =~= b.take(k - 1));
        assert(a.take(k).last() == a[k - 1]);
        assert(b.take(k).last() == b[k - 1]);
        assert(is_fence(a[k - 1]) == is_fence(b[k - 1]));
    }
}

/// What lies inside fenced blocks never reaches the output: two posts whose lines agree
/// outside fenced blocks (`same_outside_fences`) keep the same text and give the same
/// result, whatever their fenced lines hold.
pub proof fn lemma_fenced_content_ignored(
    s1: Seq<char>,
    s2: Seq<char>,
    max_len: nat,
    split_percent: nat,
)
    requires
        same_outside_fences(lines_of(s1), lines_of(s2)),
    ensures
        cleaned(s1) == cleaned(s2),
        squeezed(s1, max_len, split_percent) == squeezed(s2, max_len, split_percent),
{
    let a = lines_of(s1);
    let b = lines_of(s2);
    lemma_same_outside_prefix(a, b, a.len() as int);
    assert(a.take(a.len() as int) =~= a);
    assert(b.take(b.len() as int) =~= b);
}

} // verus!
