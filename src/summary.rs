//! Lenient recovery of a five-field summary from a model's JSON-like reply.
use vstd::prelude::*;
use crate::text::{chars_of, is_whitespace_char, is_ws, lines_of, split_lines, string_of, views};

verus! {

/// Whether `s` is one well-formed JSON document.
pub uninterp spec fn is_json(s: Seq<char>) -> bool;

/// The list of strings that the JSON text `s` denotes, if it denotes one.
pub uninterp spec fn json_string_list(s: Seq<char>) -> Option<Seq<Seq<char>>>;

/// The string that the JSON text `s` denotes, if it denotes one.
pub uninterp spec fn json_string(s: Seq<char>) -> Option<Seq<char>>;

pub open spec fn str_views(v: Seq<String>) -> Seq<Seq<char>> {
    v.map_values(|x: String| x@)
}

pub open spec fn list_view(o: Option<Vec<String>>) -> Option<Seq<Seq<char>>> {
    match o {
        Some(v) => Some(str_views(v@)),
        None => None,
    }
}

pub open spec fn text_view(o: Option<String>) -> Option<Seq<char>> {
    match o {
        Some(s) => Some(s@),
        None => None,
    }
}

/// Relies on `serde_json::from_str::<serde_json::Value>`: whether `s` parses as JSON.
#[verifier::external_body]
fn parses_as_json(s: &str) -> (r: bool)
    ensures
        r == is_json(s@),
{
    serde_json::from_str::<serde_json::Value>(s).is_ok()
}

/// Relies on `serde_json::from_str::<Vec<String>>`: the list of strings that `s` denotes.
#[verifier::external_body]
fn parse_string_list(s: &str) -> (r: Option<Vec<String>>)
    ensures
        list_view(r) == json_string_list(s@),
{
    serde_json::from_str::<Vec<String>>(s).ok()
}

/// Relies on `serde_json::from_str::<String>`: the string that `s` denotes.
#[verifier::external_body]
fn parse_string(s: &str) -> (r: Option<String>)
    ensures
        text_view(r) == json_string(s@),
{
    serde_json::from_str::<String>(s).ok()
}

/// Values shorter than this many characters are taken for placeholders and ignored.
pub const MIN_VALUE_LEN: usize = 15;

/// A summary of an issue; each field is present or absent on its own.
pub struct IssueSummary {
    pub principal_arguments: Option<Vec<String>>,
    pub suggested_solutions: Option<Vec<String>>,
    pub areas_of_consensus: Option<Vec<String>>,
    pub areas_of_disagreement: Option<Vec<String>>,
    pub concise_summary: Option<String>,
}

pub open spec fn key_principal_arguments() -> Seq<char> {
    "PrincipalArguments"@
}

pub open spec fn key_suggested_solutions() -> Seq<char> {
    "SuggestedSolutions"@
}

pub open spec fn key_areas_of_consensus() -> Seq<char> {
    "AreasOfConsensus"@
}

pub open spec fn key_areas_of_disagreement() -> Seq<char> {
    "AreasOfDisagreement"@
}

pub open spec fn key_concise_summary() -> Seq<char> {
    "ConciseSummary"@
}

/// The five keys are pairwise different.
pub proof fn lemma_keys_distinct()
    ensures
        key_principal_arguments() != key_suggested_solutions(),
        key_principal_arguments() != key_areas_of_consensus(),
        key_principal_arguments() != key_areas_of_disagreement(),
        key_principal_arguments() != key_concise_summary(),
        key_suggested_solutions() != key_areas_of_consensus(),
        key_suggested_solutions() != key_areas_of_disagreement(),
        key_suggested_solutions() != key_concise_summary(),
        key_areas_of_consensus() != key_areas_of_disagreement(),
        key_areas_of_consensus() != key_concise_summary(),
        key_areas_of_disagreement() != key_concise_summary(),
{
    reveal_strlit("PrincipalArguments");
    reveal_strlit("SuggestedSolutions");
    reveal_strlit("AreasOfConsensus");
    reveal_strlit("AreasOfDisagreement");
    reveal_strlit("ConciseSummary");
    assert(key_principal_arguments()[0] != key_suggested_solutions()[0]);
    assert(key_principal_arguments()[0] != key_areas_of_consensus()[0]);
    assert(key_principal_arguments()[0] != key_areas_of_disagreement()[0]);
    assert(key_principal_arguments()[0] != key_concise_summary()[0]);
    assert(key_suggested_solutions()[0] != key_areas_of_consensus()[0]);
    assert(key_suggested_solutions()[0] != key_areas_of_disagreement()[0]);
    assert(key_suggested_solutions()[0] != key_concise_summary()[0]);
    assert(key_areas_of_consensus()[7] != key_areas_of_disagreement()[7]);
    assert(key_areas_of_consensus()[0] != key_concise_summary()[0]);
    assert(key_areas_of_disagreement()[0] != key_concise_summary()[0]);
}

/// The first character of `l` that is not whitespace is a double quote.
pub open spec fn starts_quoted(l: Seq<char>) -> bool {
    exists|i: int|
        0 <= i < l.len() && #[trigger] l[i] == '"' && forall|j: int| 0 <= j < i ==> is_ws(#[trigger] l[j])
}

/// `i` is the position of the first colon of `l`.
pub open spec fn first_colon(l: Seq<char>, i: int) -> bool {
    0 <= i < l.len() && l[i] == ':' && forall|j: int| 0 <= j < i ==> #[trigger] l[j] != ':'
}

pub open spec fn is_quote_or_space(c: char) -> bool {
    c == '"' || c == ' '
}

pub open spec fn trim_front(s: Seq<char>) -> Seq<char>
    decreases s.len(),
{
    if s.len() > 0 && is_quote_or_space(s[0]) {
        trim_front(s.drop_first())
    } else {
        s
    }
}

pub open spec fn trim_back(s: Seq<char>) -> Seq<char>
    decreases s.len(),
{
    if s.len() > 0 && is_quote_or_space(s.last()) {
        trim_back(s.drop_last())
    } else {
        s
    }
}

/// A key with the double quotes and spaces around it removed.
pub open spec fn trim_key(s: Seq<char>) -> Seq<char> {
    trim_back(trim_front(s))
}

/// The key and raw value that line `l` contributes, if any: the line starts with a double
/// quote once leading whitespace is skipped, the key is what stands before its first colon
/// and the value what follows it, and the value is JSON of at least `MIN_VALUE_LEN`
/// characters.
pub open spec fn line_entry(l: Seq<char>) -> Option<(Seq<char>, Seq<char>)> {
    if starts_quoted(l) && exists|i: int| first_colon(l, i) {
        let i = choose|i: int| first_colon(l, i);
        let v = l.skip(i + 1);
        if v.len() >= MIN_VALUE_LEN && is_json(v) {
            Some((trim_key(l.take(i)), v))
        } else {
            None
        }
    } else {
        None
    }
}

/// The raw value of the last line of `ls` that gives key `name`.
pub open spec fn last_value(ls: Seq<Seq<char>>, name: Seq<char>) -> Option<Seq<char>>
    decreases ls.len(),
{
    if ls.len() == 0 {
        None
    } else {
        match line_entry(ls.last()) {
            Some(kv) => if kv.0 == name {
                Some(kv.1)
            } else {
                last_value(ls.drop_last(), name)
            },
            None => last_value(ls.drop_last(), name),
        }
    }
}

pub proof fn lemma_last_value_step(ls: Seq<Seq<char>>, i: int, name: Seq<char>)
    requires
        0 <= i < ls.len(),
    ensures
        last_value(ls.take(i + 1), name) == match line_entry(ls[i]) {
            Some(kv) => if kv.0 == name {
                Some(kv.1)
            } else {
                last_value(ls.take(i), name)
            },
            None => last_value(ls.take(i), name),
        },
{
    assert(ls.take(i + 1).drop_last() =~= ls.take(i));
    assert(ls.take(i + 1).last() == ls[i]);
}

/// The list field `name` of reply `s`.
pub open spec fn list_field(s: Seq<char>, name: Seq<char>) -> Option<Seq<Seq<char>>> {
    match last_value(lines_of(s), name) {
        Some(v) => json_string_list(v),
        None => None,
    }
}

/// The text field `name` of reply `s`.
pub open spec fn text_field(s: Seq<char>, name: Seq<char>) -> Option<Seq<char>> {
    match last_value(lines_of(s), name) {
        Some(v) => json_string(v),
        None => None,
    }
}

/// The characters `l[a..b]`.
fn sub_chars(l: &Vec<char>, a: usize, b: usize) -> (r: Vec<char>)
    requires
        a <= b <= l.len(),
    ensures
        r@ == l@.subrange(a as int, b as int),
{
    let mut out: Vec<char> = Vec::new();
    let mut i: usize = a;
    while i < b
        invariant
            a <= i <= b <= l.len(),
            out@ == l@.subrange(a as int, i as int),
        decreases b - i,
    {
        out.push(l[i]);
        i += 1;
        assert(out@ =~= l@.subrange(a as int, i as int));
    }
    out
}

fn quote_or_space(c: char) -> (r: bool)
    ensures
        r == is_quote_or_space(c),
{
    c == '"' || c == ' '
}

/// `s` with double quotes and spaces removed from both ends.
fn trim_key_chars(s: &Vec<char>) -> (r: Vec<char>)
    ensures
        r@ == trim_key(s@),
{
    let n = s.len();
    let mut lo: usize = 0;
    assert(s@.subrange(0, n as int) =~= s@);
    while lo < n && quote_or_space(s[lo])
        invariant
            lo <= n == s.len(),
            trim_front(s@) == trim_front(s@.subrange(lo as int, n as int)),
        decreases n - lo,
    {
        assert(s@.subrange(lo as int, n as int).drop_first() =~= s@.subrange(lo + 1, n as int));
        lo += 1;
    }
    let ghost front = s@.subrange(lo as int, n as int);
    assert(trim_front(front) == front);
    let mut hi: usize = n;
    while hi > lo && quote_or_space(s[hi - 1])
        invariant
            lo <= hi <= n == s.len(),
            trim_back(front) == trim_back(s@.subrange(lo as int, hi as int)),
        decreases hi,
    {
        assert(s@.subrange(lo as int, hi as int).drop_last() =~= s@.subrange(
            lo as int,
            hi - 1,
        ));
        hi -= 1;
    }
    let r = sub_chars(s, lo, hi);
    assert(trim_back(r@) == r@);
    r
}

/// The key and raw value that one line of a reply contributes (see `line_entry`).
fn entry_of_line(l: &Vec<char>) -> (r: Option<(Vec<char>, String)>)
    ensures
        match r {
            Some((k, v)) => line_entry(l@) == Some((k@, v@)),
            None => line_entry(l@) is None,
        },
{
    let n = l.len();
    let mut i: usize = 0;
    while i < n && is_whitespace_char(l[i])
        invariant
            i <= n == l.len(),
            forall|j: int| 0 <= j < i ==> is_ws(#[trigger] l@[j]),
        decreases n - i,
    {
        i += 1;
    }
    if i == n || l[i] != '"' {
        assert(!starts_quoted(l@)) by {
            if starts_quoted(l@) {
                let w = choose|w: int|
                    0 <= w < l@.len() && #[trigger] l@[w] == '"' && forall|j: int|
                        0 <= j < w ==> is_ws(#[trigger] l@[j]);
                assert(!is_ws('"'));
                if w < i {
                } else if w > i {
                    assert(is_ws(l@[i as int]));
                }
            }
        }
        return None;
    }
    assert(!is_ws('"'));
    assert(starts_quoted(l@));
    let mut c: usize = 0;
    while c < n && l[c] != ':'
        invariant
            c <= n == l.len(),
            forall|j: int| 0 <= j < c ==> #[trigger] l@[j] != ':',
        decreases n - c,
    {
        c += 1;
    }
    if c == n {
        assert(!exists|k: int| first_colon(l@, k));
        return None;
    }
    assert(first_colon(l@, c as int));
    assert forall|k: int| first_colon(l@, k) implies k == c by {
        if k < c {
            assert(l@[k] != ':');
        } else if k > c {
            assert(l@[c as int] != ':');
        }
    }
    let value = sub_chars(l, c + 1, n);
    assert(value@ =~= l@.skip(c + 1));
    if value.len() < MIN_VALUE_LEN {
        return None;
    }
    let text = string_of(&value);
    if !parses_as_json(text.as_str()) {
        return None;
    }
    let key = trim_key_chars(&sub_chars(l, 0, c));
    assert(l@.subrange(0, c as int) =~= l@.take(c as int));
    Some((key, text))
}

/// The five-field summary recovered from a model's reply. Each line that starts (after
/// whitespace) with a double quote and holds a colon gives a key (before the first colon,
/// with quotes and spaces trimmed) and a raw value (after it); a value shorter than
/// `MIN_VALUE_LEN` characters or not valid JSON is ignored, and a later line overrides an
/// earlier one with the same key. Each field is then read from the value under its own
/// key, as a list of strings or as a string, and is absent where that fails.
pub fn custom_json_parser(input: &str) -> (r: IssueSummary)
    ensures
        list_view(r.principal_arguments) == list_field(input@, key_principal_arguments()),
        list_view(r.suggested_solutions) == list_field(input@, key_suggested_solutions()),
        list_view(r.areas_of_consensus) == list_field(input@, key_areas_of_consensus()),
        list_view(r.areas_of_disagreement) == list_field(input@, key_areas_of_disagreement()),
        text_view(r.concise_summary) == text_field(input@, key_concise_summary()),
{
    let chars = chars_of(input);
    let lines = split_lines(&chars);
    let ghost ls = views(lines@);
    let k_pa = chars_of("PrincipalArguments");
    let k_ss = chars_of("SuggestedSolutions");
    let k_ac = chars_of("AreasOfConsensus");
    let k_ad = chars_of("AreasOfDisagreement");
    let k_cs = chars_of("ConciseSummary");
    let mut pa: Option<String> = None;
    let mut ss: Option<String> = None;
    let mut ac: Option<String> = None;
    let mut ad: Option<String> = None;
    let mut cs: Option<String> = None;
    let mut i: usize = 0;
    while i < lines.len()
        invariant
            i <= lines.len(),
            ls == views(lines@),
            ls == lines_of(input@),
            k_pa@ == key_principal_arguments(),
            k_ss@ == key_suggested_solutions(),
            k_ac@ == key_areas_of_consensus(),
            k_ad@ == key_areas_of_disagreement(),
            k_cs@ == key_concise_summary(),
            text_view(pa) == last_value(ls.take(i as int), key_principal_arguments()),
            text_view(ss) == last_value(ls.take(i as int), key_suggested_solutions()),
            text_view(ac) == last_value(ls.take(i as int), key_areas_of_consensus()),
            text_view(ad) == last_value(ls.take(i as int), key_areas_of_disagreement()),
            text_view(cs) == last_value(ls.take(i as int), key_concise_summary()),
        decreases lines.len() - i,
    {
        proof {
            lemma_keys_distinct();
            lemma_last_value_step(ls, i as int, key_principal_arguments());
            lemma_last_value_step(ls, i as int, key_suggested_solutions());
            lemma_last_value_step(ls, i as int, key_areas_of_consensus());
            lemma_last_value_step(ls, i as int, key_areas_of_disagreement());
            lemma_last_value_step(ls, i as int, key_concise_summary());
        }
        assert(ls[i as int] == lines@[i as int]@);
        match entry_of_line(&lines[i]) {
            Some((key, value)) => {
                if crate::text::same_chars(&key, &k_pa) {
                    pa = Some(value);
                } else if crate::text::same_chars(&key, &k_ss) {
                    ss = Some(value);
                } else if crate::text::same_chars(&key, &k_ac) {
                    ac = Some(value);
                } else if crate::text::same_chars(&key, &k_ad) {
                    ad = Some(value);
                } else if crate::text::same_chars(&key, &k_cs) {
                    cs = Some(value);
                }
            },
            None => {},
        }
        i += 1;
    }
    assert(ls.take(lines.len() as int) =~= ls);
    IssueSummary {
        principal_arguments: match &pa {
            Some(v) => parse_string_list(v.as_str()),
            None => None,
        },
        suggested_solutions: match &ss {
            Some(v) => parse_string_list(v.as_str()),
            None => None,
        },
        areas_of_consensus: match &ac {
            Some(v) => parse_string_list(v.as_str()),
            None => None,
        },
        areas_of_disagreement: match &ad {
            Some(v) => parse_string_list(v.as_str()),
            None => None,
        },
        concise_summary: match &cs {
            Some(v) => parse_string(v.as_str()),
            None => None,
        },
    }
}

} // verus!

verus! {

proof fn lemma_entry_value(l: Seq<char>)
    requires
        line_entry(l) is Some,
    ensures
        exists|i: int|
            first_colon(l, i) && line_entry(l) == Some((trim_key(l.take(i)), l.skip(i + 1)))
                && l.skip(i + 1).len() >= MIN_VALUE_LEN,
{
    let i = choose|i: int| first_colon(l, i);
    assert(first_colon(l, i));
}

proof fn lemma_short_prefix_absent(ls: Seq<Seq<char>>, name: Seq<char>)
    requires
        forall|k: int, i: int|
            0 <= k < ls.len() && #[trigger] first_colon(ls[k], i) && trim_key(ls[k].take(i))
                == name ==> ls[k].len() - (i + 1) < MIN_VALUE_LEN,
    ensures
        last_value(ls, name) is None,
    decreases ls.len(),
{
    if ls.len() > 0 {
        let p = ls.drop_last();
        assert forall|k: int, i: int|
            0 <= k < p.len() && #[trigger] first_colon(p[k], i) && trim_key(p[k].take(i))
                == name implies p[k].len() - (i + 1) < MIN_VALUE_LEN by {
            assert(p[k] == ls[k]);
        }
        lemma_short_prefix_absent(p, name);
        let l = ls.last();
        if line_entry(l) is Some {
            lemma_entry_value(l);
            let i = choose|i: int|
                first_colon(l, i) && line_entry(l) == Some((trim_key(l.take(i)), l.skip(i + 1)))
                    && l.skip(i + 1).len() >= MIN_VALUE_LEN;
            assert(ls[ls.len() - 1] == l);
            if trim_key(l.take(i)) == name {
                assert(l.len() - (i + 1) < MIN_VALUE_LEN);
            }
        }
    }
}

/// A key whose every value in the reply is shorter than `MIN_VALUE_LEN` characters is
/// absent from the summary, whatever the values hold.
pub proof fn lemma_short_values_absent(s: Seq<char>, name: Seq<char>)
    requires
        forall|k: int, i: int|
            0 <= k < lines_of(s).len() && #[trigger] first_colon(lines_of(s)[k], i) && trim_key(
                lines_of(s)[k].take(i),
            ) == name ==> lines_of(s)[k].len() - (i + 1) < MIN_VALUE_LEN,
    ensures
        list_field(s, name) is None,
        text_field(s, name) is None,
{
    lemma_short_prefix_absent(lines_of(s), name);
}

/// A name that `trim_key` gives back from `"name"`: it holds no colon, and neither end is
/// a double quote or a space.
pub open spec fn plain_key(name: Seq<char>) -> bool {
    &&& name.len() > 0
    &&& !is_quote_or_space(name[0])
    &&& !is_quote_or_space(name.last())
    &&& forall|j: int| 0 <= j < name.len() ==> #[trigger] name[j] != ':'
}

/// The line `"name":value`.
pub open spec fn field_line(name: Seq<char>, value: Seq<char>) -> Seq<char> {
    seq!['"'] + name + seq!['"', ':'] + value
}

proof fn lemma_trim_quoted(name: Seq<char>)
    requires
        plain_key(name),
    ensures
        trim_key(seq!['"'] + name + seq!['"']) == name,
{
    let q = seq!['"'] + name + seq!['"'];
    assert(q.drop_first() =~= name + seq!['"']);
    assert(trim_front(name + seq!['"']) == name + seq!['"']);
    assert((name + seq!['"']).drop_last() =~= name);
    assert(trim_back(name) == name);
}

proof fn lemma_field_line_entry(name: Seq<char>, value: Seq<char>)
    requires
        plain_key(name),
        value.len() >= MIN_VALUE_LEN,
        is_json(value),
    ensures
        line_entry(field_line(name, value)) == Some((name, value)),
{
    let l = field_line(name, value);
    let c: int = name.len() as int + 2;
    assert(l[0] == '"');
    assert(starts_quoted(l));
    assert(l[c] == ':');
    assert forall|j: int| 0 <= j < c implies #[trigger] l[j] != ':' by {
        if 1 <= j <= name.len() {
            assert(l[j] == name[j - 1]);
        }
    }
    assert(first_colon(l, c));
    assert forall|k: int| first_colon(l, k) implies k == c by {
        if k < c {
            assert(l[k] != ':');
        } else if k > c {
            assert(l[c] != ':');
        }
    }
    assert(l.skip(c + 1) =~= value);
    assert(l.take(c) =~= seq!['"'] + name + seq!['"']);
    lemma_trim_quoted(name);
}

proof fn lemma_last_value_at(ls: Seq<Seq<char>>, k: int, name: Seq<char>, value: Seq<char>)
    requires
        0 <= k < ls.len(),
        line_entry(ls[k]) == Some((name, value)),
        forall|m: int| k < m < ls.len() ==> !(#[trigger] line_entry(ls[m]) matches Some(kv) && kv.0 == name),
    ensures
        last_value(ls, name) == Some(value),
    decreases ls.len(),
{
    if k < ls.len() - 1 {
        let p = ls.drop_last();
        assert forall|m: int| k < m < p.len() implies !(#[trigger] line_entry(p[m]) matches Some(kv) && kv.0 == name) by {
            assert(p[m] == ls[m]);
            assert(!(line_entry(ls[m]) matches Some(kv) && kv.0 == name));
        }
        assert(p[k] == ls[k]);
        lemma_last_value_at(p, k, name, value);
        assert(!(line_entry(ls[ls.len() - 1]) matches Some(kv) && kv.0 == name));
    }
}

/// A line `"name":value` of the reply, with a JSON value of at least `MIN_VALUE_LEN`
/// characters and no later line that gives the same key, sets the field `name` to what the
/// value denotes, whatever the other lines hold.
pub proof fn lemma_field_line_recovered(s: Seq<char>, k: int, name: Seq<char>, value: Seq<char>)
    requires
        plain_key(name),
        value.len() >= MIN_VALUE_LEN,
        is_json(value),
        0 <= k < lines_of(s).len(),
        lines_of(s)[k] == field_line(name, value),
        forall|m: int|
            k < m < lines_of(s).len() ==> !(#[trigger] line_entry(lines_of(s)[m]) matches Some(kv)
                && kv.0 == name),
    ensures
        list_field(s, name) == json_string_list(value),
        text_field(s, name) == json_string(value),
{
    lemma_field_line_entry(name, value);
    lemma_last_value_at(lines_of(s), k, name, value);
}

/// The five keys of a summary are plain keys.
proof fn lemma_keys_plain()
    ensures
        plain_key(key_principal_arguments()),
        plain_key(key_suggested_solutions()),
        plain_key(key_areas_of_consensus()),
        plain_key(key_areas_of_disagreement()),
        plain_key(key_concise_summary()),
{
    reveal_strlit("PrincipalArguments");
    reveal_strlit("SuggestedSolutions");
    reveal_strlit("AreasOfConsensus");
    reveal_strlit("AreasOfDisagreement");
    reveal_strlit("ConciseSummary");
}

/// A reply of five lines `"Key":value`, one for each field in the order arguments,
/// solutions, consensus, disagreement, summary, where each value is JSON of at least
/// `MIN_VALUE_LEN` characters, gives every field what its own value denotes.
pub proof fn lemma_five_field_reply(
    s: Seq<char>,
    arguments: Seq<char>,
    solutions: Seq<char>,
    consensus: Seq<char>,
    disagreement: Seq<char>,
    summary: Seq<char>,
)
    requires
        lines_of(s) == seq![
            field_line(key_principal_arguments(), arguments),
            field_line(key_suggested_solutions(), solutions),
            field_line(key_areas_of_consensus(), consensus),
            field_line(key_areas_of_disagreement(), disagreement),
            field_line(key_concise_summary(), summary),
        ],
        arguments.len() >= MIN_VALUE_LEN && is_json(arguments),
        solutions.len() >= MIN_VALUE_LEN && is_json(solutions),
        consensus.len() >= MIN_VALUE_LEN && is_json(consensus),
        disagreement.len() >= MIN_VALUE_LEN && is_json(disagreement),
        summary.len() >= MIN_VALUE_LEN && is_json(summary),
    ensures
        list_field(s, key_principal_arguments()) == json_string_list(arguments),
        list_field(s, key_suggested_solutions()) == json_string_list(solutions),
        list_field(s, key_areas_of_consensus()) == json_string_list(consensus),
        list_field(s, key_areas_of_disagreement()) == json_string_list(disagreement),
        text_field(s, key_concise_summary()) == json_string(summary),
{
    let ls = lines_of(s);
    lemma_keys_plain();
    lemma_keys_distinct();
    lemma_field_line_entry(key_principal_arguments(), arguments);
    lemma_field_line_entry(key_suggested_solutions(), solutions);
    lemma_field_line_entry(key_areas_of_consensus(), consensus);
    lemma_field_line_entry(key_areas_of_disagreement(), disagreement);
    lemma_field_line_entry(key_concise_summary(), summary);
    assert(line_entry(ls[0]) == Some((key_principal_arguments(), arguments)));
    assert(line_entry(ls[1]) == Some((key_suggested_solutions(), solutions)));
    assert(line_entry(ls[2]) == Some((key_areas_of_consensus(), consensus)));
    assert(line_entry(ls[3]) == Some((key_areas_of_disagreement(), disagreement)));
    assert(line_entry(ls[4]) == Some((key_concise_summary(), summary)));
    lemma_field_line_recovered(s, 0, key_principal_arguments(), arguments);
    lemma_field_line_recovered(s, 1, key_suggested_solutions(), solutions);
    lemma_field_line_recovered(s, 2, key_areas_of_consensus(), consensus);
    lemma_field_line_recovered(s, 3, key_areas_of_disagreement(), disagreement);
    lemma_field_line_recovered(s, 4, key_concise_summary(), summary);
}

} // verus!
