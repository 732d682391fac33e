//! The chat command that starts a batch, and the decisions taken over one batch.
use vstd::prelude::*;
use crate::text::{chars_of, is_whitespace_char, is_ws, same_chars, string_of};

verus! {

/// The classes of characters that the command grammar distinguishes. Words and numbers are
/// ASCII only: a letter or digit outside ASCII ends a word, and a non-ASCII digit is no
/// number.
pub enum CharClass {
    /// ASCII letters, digits and `_`.
    Word,
    /// Unicode whitespace.
    Space,
    /// ASCII digits.
    Digit,
}

pub open spec fn in_class(c: char, k: CharClass) -> bool {
    match k {
        CharClass::Word => (0x61 <= c as u32 && c as u32 <= 0x7a) || (0x41 <= c as u32 && c as u32
            <= 0x5a) || (0x30 <= c as u32 && c as u32 <= 0x39) || c == '_',
        CharClass::Space => is_ws(c),
        CharClass::Digit => 0x30 <= c as u32 && c as u32 <= 0x39,
    }
}

fn char_in_class(c: char, k: &CharClass) -> (r: bool)
    ensures
        r == in_class(c, *k),
{
    match k {
        CharClass::Word => (0x61 <= c as u32 && c as u32 <= 0x7a) || (0x41 <= c as u32 && c as u32
            <= 0x5a) || (0x30 <= c as u32 && c as u32 <= 0x39) || c == '_',
        CharClass::Space => is_whitespace_char(c),
        CharClass::Digit => 0x30 <= c as u32 && c as u32 <= 0x39,
    }
}

/// The end of the run of class `k` that starts at `i`.
pub open spec fn run_end(s: Seq<char>, i: int, k: CharClass) -> int
    decreases s.len() - i,
{
    if 0 <= i < s.len() && in_class(s[i], k) {
        run_end(s, i + 1, k)
    } else {
        i
    }
}

/// The start of the run of class `k` that ends at `j`.
pub open spec fn run_start(s: Seq<char>, j: int, k: CharClass) -> int
    decreases j,
{
    if 0 < j <= s.len() && in_class(s[j - 1], k) {
        run_start(s, j - 1, k)
    } else {
        j
    }
}

/// The first position at or after `i` that holds `c`, or the length of `s`.
pub open spec fn find_from(s: Seq<char>, i: int, c: char) -> int
    decreases s.len() - i,
{
    if 0 <= i < s.len() && s[i] != c {
        find_from(s, i + 1, c)
    } else {
        i
    }
}

fn scan_run(s: &Vec<char>, i: usize, k: &CharClass) -> (r: usize)
    requires
        i <= s.len(),
    ensures
        r as int == run_end(s@, i as int, *k),
        i <= r <= s.len(),
{
    let mut j = i;
    while j < s.len() && char_in_class(s[j], k)
        invariant
            i <= j <= s.len(),
            run_end(s@, i as int, *k) == run_end(s@, j as int, *k),
        decreases s.len() - j,
    {
        j += 1;
    }
    j
}

fn scan_run_back(s: &Vec<char>, j: usize, k: &CharClass) -> (r: usize)
    requires
        j <= s.len(),
    ensures
        r as int == run_start(s@, j as int, *k),
        r <= j,
{
    let mut i = j;
    while i > 0 && char_in_class(s[i - 1], k)
        invariant
            i <= j <= s.len(),
            run_start(s@, j as int, *k) == run_start(s@, i as int, *k),
        decreases i,
    {
        i -= 1;
    }
    i
}

fn scan_to(s: &Vec<char>, i: usize, c: char) -> (r: usize)
    requires
        i <= s.len(),
    ensures
        r as int == find_from(s@, i as int, c),
        i <= r <= s.len(),
{
    let mut j = i;
    while j < s.len() && s[j] != c
        invariant
            i <= j <= s.len(),
            find_from(s@, i as int, c) == find_from(s@, j as int, c),
        decreases s.len() - j,
    {
        j += 1;
    }
    j
}

/// The three parts of a command: the leading words, the middle and the trailing number.
pub struct CommandParts {
    pub lead: Seq<char>,
    pub middle: Seq<char>,
    pub digits: Seq<char>,
}

/// A command is leading whitespace, one word or two words with one space between them,
/// a middle without newlines, and a space and a number at the very end. The leading words
/// are taken as long as they can be; the number is the whole run of digits at the end.
pub open spec fn command_parts(s: Seq<char>) -> Option<CommandParts> {
    let d = run_start(s, s.len() as int, CharClass::Digit);
    let p = d - 1;
    if d == s.len() || p < 0 || s[p] != ' ' {
        None
    } else {
        let pre = s.take(p);
        let a = run_end(pre, 0, CharClass::Space);
        let b = run_end(pre, a, CharClass::Word);
        let e = if b + 1 < p && pre[b] == ' ' && in_class(pre[b + 1], CharClass::Word) {
            run_end(pre, b + 1, CharClass::Word)
        } else {
            b
        };
        let middle = pre.subrange(e, p);
        if b == a || find_from(middle, 0, '\n') < middle.len() {
            None
        } else {
            Some(CommandParts { lead: pre.take(e), middle, digits: s.skip(d) })
        }
    }
}

/// `s` without whitespace at either end.
pub open spec fn trim_ws(s: Seq<char>) -> Seq<char> {
    let a = run_end(s, 0, CharClass::Space);
    if a == s.len() {
        Seq::empty()
    } else {
        s.subrange(a, run_start(s, s.len() as int, CharClass::Space))
    }
}

/// Whether `needle` occurs in `hay`.
pub open spec fn occurs_in(needle: Seq<char>, hay: Seq<char>) -> bool {
    exists|i: int| 0 <= i && i + needle.len() <= hay.len() && #[trigger] hay.subrange(i, i + needle.len()) == needle
}

/// The number that a run of ASCII digits denotes.
pub open spec fn digits_value(ds: Seq<char>) -> nat
    decreases ds.len(),
{
    if ds.len() == 0 {
        0
    } else {
        digits_value(ds.drop_last()) * 10 + ((ds.last() as u32) - 0x30) as nat
    }
}

/// The look-back window when the number does not fit an `i64`.
pub const DEFAULT_DAYS: i64 = 7;

pub open spec fn default_owner() -> Seq<char> {
    "WasmEdge"@
}

pub open spec fn default_repo() -> Seq<char> {
    "Wasmdge"@
}

/// A request to summarize the recent issues of a repository.
pub struct TriggerRequest {
    pub owner: String,
    pub repo: String,
    pub n_days: i64,
}

/// The owner named in the middle part: what precedes the first slash, or the default when
/// the middle is blank.
pub open spec fn owner_of(middle: Seq<char>) -> Seq<char> {
    let t = trim_ws(middle);
    if t.len() == 0 {
        default_owner()
    } else {
        t.take(find_from(t, 0, '/'))
    }
}

/// The repository named in the middle part: what stands between the first and second
/// slash, or the default when there is no slash.
pub open spec fn repo_of(middle: Seq<char>) -> Seq<char> {
    let t = trim_ws(middle);
    let i = find_from(t, 0, '/');
    if i == t.len() {
        default_repo()
    } else {
        t.subrange(i + 1, find_from(t, i + 1, '/'))
    }
}

pub open spec fn days_of(digits: Seq<char>) -> i64 {
    if digits_value(digits) <= i64::MAX {
        digits_value(digits) as i64
    } else {
        DEFAULT_DAYS
    }
}

/// Characters `s[a..b]` as a vector.
fn slice_chars(s: &Vec<char>, a: usize, b: usize) -> (r: Vec<char>)
    requires
        a <= b <= s.len(),
    ensures
        r@ == s@.subrange(a as int, b as int),
{
    let mut out: Vec<char> = Vec::new();
    let mut i = a;
    while i < b
        invariant
            a <= i <= b <= s.len(),
            out@ == s@.subrange(a as int, i as int),
        decreases b - i,
    {
        out.push(s[i]);
        i += 1;
        assert(out@ =~= s@.subrange(a as int, i as int));
    }
    out
}

/// Splits a chat message into its command parts (see `command_parts`).
pub fn split_command(s: &Vec<char>) -> (r: Option<(Vec<char>, Vec<char>, Vec<char>)>)
    ensures
        match r {
            Some((l, m, d)) => command_parts(s@) == Some(
                CommandParts { lead: l@, middle: m@, digits: d@ },
            ),
            None => command_parts(s@) is None,
        },
{
    let n = s.len();
    let d = scan_run_back(s, n, &CharClass::Digit);
    if d == n || d == 0 || s[d - 1] != ' ' {
        return None;
    }
    let p = d - 1;
    let pre = slice_chars(s, 0, p);
    assert(pre@ =~= s@.take(p as int));
    let a = scan_run(&pre, 0, &CharClass::Space);
    let b = scan_run(&pre, a, &CharClass::Word);
    let e = if b + 1 < p && pre[b] == ' ' && char_in_class(pre[b + 1], &CharClass::Word) {
        scan_run(&pre, b + 1, &CharClass::Word)
    } else {
        b
    };
    let middle = slice_chars(&pre, e, p);
    if b == a || scan_to(&middle, 0, '\n') < middle.len() {
        return None;
    }
    let lead = slice_chars(&pre, 0, e);
    assert(lead@ =~= pre@.take(e as int));
    let digits = slice_chars(s, d, n);
    assert(digits@ =~= s@.skip(d as int));
    Some((lead, middle, digits))
}

/// `s` without whitespace at either end.
pub fn trim_chars(s: &Vec<char>) -> (r: Vec<char>)
    ensures
        r@ == trim_ws(s@),
{
    let a = scan_run(s, 0, &CharClass::Space);
    if a == s.len() {
        return Vec::new();
    }
    let b = scan_run_back(s, s.len(), &CharClass::Space);
    if b < a {
        // the run at the end cannot reach past a character that is not whitespace
        assert(false) by {
            lemma_run_end_stops(s@, 0, CharClass::Space);
            lemma_run_start_stops(s@, s.len() as int, a as int);
        }
        return Vec::new();
    }
    slice_chars(s, a, b)
}

proof fn lemma_run_end_stops(s: Seq<char>, i: int, k: CharClass)
    requires
        0 <= i <= s.len(),
    ensures
        i <= run_end(s, i, k) <= s.len(),
        run_end(s, i, k) < s.len() ==> !in_class(s[run_end(s, i, k)], k),
    decreases s.len() - i,
{
    if i < s.len() && in_class(s[i], k) {
        lemma_run_end_stops(s, i + 1, k);
    }
}

proof fn lemma_run_start_stops(s: Seq<char>, j: int, a: int)
    requires
        0 <= a < j <= s.len(),
        !in_class(s[a], CharClass::Space),
    ensures
        run_start(s, j, CharClass::Space) > a,
    decreases j,
{
    if j - 1 > a && in_class(s[j - 1], CharClass::Space) {
        lemma_run_start_stops(s, j - 1, a);
    }
}

/// Whether `needle` occurs in `hay`.
pub fn occurs(needle: &Vec<char>, hay: &Vec<char>) -> (r: bool)
    ensures
        r == occurs_in(needle@, hay@),
{
    if needle.len() > hay.len() {
        return false;
    }
    if needle.len() == 0 {
        assert(hay@.subrange(0int, 0int + needle@.len()) =~= needle@);
        return true;
    }
    let mut i: usize = 0;
    while i <= hay.len() - needle.len()
        invariant
            0 < needle.len() <= hay.len(),
            i <= hay.len() - needle.len() + 1,
            forall|j: int|
                0 <= j < i && j + needle@.len() <= hay@.len() ==> #[trigger] hay@.subrange(
                    j,
                    j + needle@.len(),
                ) != needle@,
        decreases hay.len() + 1 - i,
    {
        let piece = slice_chars(hay, i, i + needle.len());
        if same_chars(&piece, needle) {
            return true;
        }
        assert(hay@.subrange(i as int, i + needle@.len()) != needle@);
        i += 1;
    }
    assert forall|j: int| 0 <= j && j + needle@.len() <= hay@.len() implies #[trigger] hay@.subrange(
        j,
        j + needle@.len(),
    ) != needle@ by {}
    false
}

/// The number that a run of ASCII digits denotes, or `DEFAULT_DAYS` if it exceeds `i64`.
fn days_from_digits(ds: &Vec<char>) -> (r: i64)
    requires
        forall|i: int| 0 <= i < ds.len() ==> in_class(#[trigger] ds@[i], CharClass::Digit),
    ensures
        r == days_of(ds@),
{
    let mut v: u64 = 0;
    let mut i: usize = 0;
    while i < ds.len()
        invariant
            i <= ds.len(),
            forall|j: int| 0 <= j < ds.len() ==> in_class(#[trigger] ds@[j], CharClass::Digit),
            v as nat == digits_value(ds@.take(i as int)),
            v <= i64::MAX,
        decreases ds.len() - i,
    {
        assert(ds@.take(i + 1).drop_last() =~= ds@.take(i as int));
        let digit = ((ds[i] as u32) - 0x30) as u64;
        if v > (i64::MAX as u64 - digit) / 10 {
            // every further digit keeps the value above the limit
            proof {
                lemma_digits_grow(ds@, i as int + 1);
            }
            return DEFAULT_DAYS;
        }
        v = v * 10 + digit;
        i += 1;
    }
    assert(ds@.take(ds.len() as int) =~= ds@);
    v as i64
}

proof fn lemma_digits_grow(ds: Seq<char>, i: int)
    requires
        0 < i <= ds.len(),
        digits_value(ds.take(i)) > i64::MAX,
        forall|j: int| 0 <= j < ds.len() ==> in_class(#[trigger] ds[j], CharClass::Digit),
    ensures
        digits_value(ds) > i64::MAX,
    decreases ds.len() - i,
{
    if i == ds.len() {
        assert(ds.take(i) =~= ds);
    } else {
        assert(ds.take(i + 1).drop_last() =~= ds.take(i));
        lemma_digits_grow(ds, i + 1);
    }
}

/// What `parse_trigger` returns for `text` and `trigger_word`.
pub open spec fn trigger_of(text: Seq<char>, trigger_word: Seq<char>) -> Option<(Seq<char>, Seq<char>, i64)> {
    match command_parts(text) {
        None => None,
        Some(parts) => if occurs_in(trigger_word, trim_ws(parts.lead)) {
            Some((owner_of(parts.middle), repo_of(parts.middle), days_of(parts.digits)))
        } else {
            None
        },
    }
}

/// Reads a chat message as a command. It is one when it has the shape of `command_parts`
/// and its leading words, trimmed, hold `trigger_word`; the request then names the owner
/// and repository of the middle part (see `owner_of`, `repo_of`) and the trailing number
/// of days. Any other message gives `None`.
pub fn parse_trigger(text: &str, trigger_word: &str) -> (r: Option<TriggerRequest>)
    ensures
        match r {
            Some(t) => trigger_of(text@, trigger_word@) == Some((t.owner@, t.repo@, t.n_days)),
            None => trigger_of(text@, trigger_word@) is None,
        },
{
    let chars = chars_of(text);
    let (lead, middle, digits) = match split_command(&chars) {
        Some(parts) => parts,
        None => return None,
    };
    let word = chars_of(trigger_word);
    if !occurs(&word, &trim_chars(&lead)) {
        return None;
    }
    proof {
        let d = run_start(chars@, chars@.len() as int, CharClass::Digit);
        lemma_run_start_class(chars@, chars@.len() as int, CharClass::Digit);
        assert forall|i: int| 0 <= i < digits@.len() implies in_class(#[trigger] digits@[i], CharClass::Digit) by {
            assert(digits@[i] == chars@[d + i]);
        }
    }
    let n_days = days_from_digits(&digits);
    let t = trim_chars(&middle);
    let (owner, repo) = if t.len() == 0 {
        (String::from_str("WasmEdge"), String::from_str("Wasmdge"))
    } else {
        let i = scan_to(&t, 0, '/');
        let owner = string_of(&slice_chars(&t, 0, i));
        assert(t@.subrange(0, i as int) =~= t@.take(i as int));
        if i == t.len() {
            (owner, String::from_str("Wasmdge"))
        } else {
            let j = scan_to(&t, i + 1, '/');
            (owner, string_of(&slice_chars(&t, i + 1, j)))
        }
    };
    Some(TriggerRequest { owner, repo, n_days })
}

proof fn lemma_run_start_class(s: Seq<char>, j: int, k: CharClass)
    requires
        0 <= j <= s.len(),
    ensures
        0 <= run_start(s, j, k) <= j,
        forall|i: int| run_start(s, j, k) <= i < j ==> in_class(#[trigger] s[i], k),
    decreases j,
{
    if 0 < j && in_class(s[j - 1], k) {
        lemma_run_start_class(s, j - 1, k);
    }
}

/// Issues summarized per command at most.
pub const ISSUE_LIMIT: usize = 10;

/// How a batch of `n_issues` found issues is handled: how many are summarized, in the order
/// found, and whether the notice of the limit follows them. The notice stands in for the
/// first issue over the limit, so it comes only when more than `ISSUE_LIMIT` were found.
pub fn batch_plan(n_issues: usize) -> (r: (usize, bool))
    ensures
        r.0 == if n_issues < ISSUE_LIMIT {
            n_issues
        } else {
            ISSUE_LIMIT
        },
        r.1 == (n_issues > ISSUE_LIMIT),
{
    if n_issues <= ISSUE_LIMIT {
        (n_issues, false)
    } else {
        (ISSUE_LIMIT, true)
    }
}

} // verus!
