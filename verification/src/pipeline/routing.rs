//! Local signal classification and block routing. Cheap local signals score a
//! Markdown block; the score and any explicit slash command produce a routing
//! decision and the trigger that caused it.

use vstd::prelude::*;

use crate::pipeline::blocks::{BlockKind, MarkdownBlock};
use crate::pipeline::slash::{ParsedSlashCommand, SlashCommand};
use crate::text::{
    ascii_words, chars_of, push_char, split_ascii_whitespace, str_lowercase, string_from_chars,
    to_lowercase, views,
};

verus! {

/// The routing decision for a single Markdown block.
#[derive(Debug, Clone, Copy, PartialEq, Eq, Structural)]
pub enum RoutingDecision {
    HighConfidenceLocal,
    NeedsExtraction,
    Skip,
    FactCheck,
    Research,
    Ignore,
}

/// The trigger that caused a routing decision.
#[derive(Debug, Clone, Copy, PartialEq, Eq, Hash, Structural)]
pub enum Trigger {
    Automatic,
    FactCheck,
    Research,
    Inline,
    CommandLine,
}

/// The trigger behind a decision: explicit fact-check and research commands
/// keep their own trigger, everything else is automatic.
pub open spec fn trigger_of(decision: RoutingDecision) -> Trigger {
    match decision {
        RoutingDecision::FactCheck => Trigger::FactCheck,
        RoutingDecision::Research => Trigger::Research,
        _ => Trigger::Automatic,
    }
}

/// Maps a routing decision to the trigger that caused it.
pub fn decision_trigger(decision: &RoutingDecision) -> (t: Trigger)
    ensures
        t == trigger_of(*decision),
{
    match decision {
        RoutingDecision::FactCheck => Trigger::FactCheck,
        RoutingDecision::Research => Trigger::Research,
        RoutingDecision::HighConfidenceLocal
        | RoutingDecision::NeedsExtraction
        | RoutingDecision::Skip
        | RoutingDecision::Ignore => Trigger::Automatic,
    }
}


// ---------------------------------------------------------------------------
// Text tests used by the signals.

pub const POSITIVE_SIGNAL_WEIGHT: i32 = 2;
pub const NEGATIVE_SIGNAL_WEIGHT: i32 = 1;
pub const HIGH_SCORE_THRESHOLD: i32 = 4;
pub const MIDDLE_SCORE_THRESHOLD: i32 = 0;

/// `n` occurs in `h` as a contiguous run.
pub open spec fn seq_contains(h: Seq<char>, n: Seq<char>) -> bool {
    exists|i: int| 0 <= i && i + n.len() <= h.len() && #[trigger] h.subrange(i, i + n.len()) == n
}

/// Some phrase of `ps` occurs in `h`.
pub open spec fn contains_any(h: Seq<char>, ps: Seq<Seq<char>>) -> bool {
    exists|k: int| 0 <= k < ps.len() && seq_contains(h, #[trigger] ps[k])
}

/// Some token is one of the words `ps`.
pub open spec fn any_token_in(toks: Seq<Seq<char>>, ps: Seq<Seq<char>>) -> bool {
    exists|k: int| 0 <= k < toks.len() && ps.contains(#[trigger] toks[k])
}

pub open spec fn is_ascii_digit_char(c: char) -> bool {
    '0' <= c && c <= '9'
}

/// ASCII punctuation as `char::is_ascii_punctuation` defines it.
pub open spec fn is_ascii_punct_char(c: char) -> bool {
    ('!' <= c && c <= '/') || (':' <= c && c <= '@') || ('[' <= c && c <= '`') || ('{' <= c && c <= '~')
}

pub open spec fn has_ascii_digit(s: Seq<char>) -> bool {
    exists|i: int| 0 <= i < s.len() && is_ascii_digit_char(#[trigger] s[i])
}

/// Leading ASCII punctuation removed.
pub open spec fn trim_punct_start(s: Seq<char>) -> Seq<char>
    decreases s.len(),
{
    if s.len() > 0 && is_ascii_punct_char(s[0]) {
        trim_punct_start(s.drop_first())
    } else {
        s
    }
}

/// Trailing ASCII punctuation removed.
pub open spec fn trim_punct_end(s: Seq<char>) -> Seq<char>
    decreases s.len(),
{
    if s.len() > 0 && is_ascii_punct_char(s.last()) {
        trim_punct_end(s.drop_last())
    } else {
        s
    }
}

/// Leading and trailing ASCII punctuation removed.
pub open spec fn trim_punct(s: Seq<char>) -> Seq<char> {
    trim_punct_end(trim_punct_start(s))
}

/// The standalone words of a text: its ASCII-whitespace-separated runs,
/// lowercased, with leading and trailing ASCII punctuation removed, empty ones
/// dropped.
pub open spec fn tokens_of(text: Seq<char>) -> Seq<Seq<char>> {
    ascii_words(text).map_values(|w: Seq<char>| trim_punct(str_lowercase(w))).filter(
        |w: Seq<char>| w.len() > 0,
    )
}

pub open spec fn digit_value(c: char) -> int {
    (c as int) - ('0' as int)
}

/// The four digits from `i` on read as a number.
pub open spec fn four_digit_value(t: Seq<char>, i: int) -> int {
    1000 * digit_value(t[i]) + 100 * digit_value(t[i + 1]) + 10 * digit_value(t[i + 2]) + digit_value(
        t[i + 3],
    )
}

/// A run of exactly four ASCII digits starts at `i` and reads as a year in
/// 1000..=2999.
pub open spec fn is_year_run(t: Seq<char>, i: int) -> bool {
    &&& 0 <= i && i + 4 <= t.len()
    &&& forall|j: int| i <= j < i + 4 ==> is_ascii_digit_char(#[trigger] t[j])
    &&& (i == 0 || !is_ascii_digit_char(t[i - 1]))
    &&& (i + 4 == t.len() || !is_ascii_digit_char(t[i + 4]))
    &&& 1000 <= four_digit_value(t, i) <= 2999
}

pub open spec fn has_year(t: Seq<char>) -> bool {
    exists|i: int| is_year_run(t, i)
}

pub open spec fn strs(v: Seq<&str>) -> Seq<Seq<char>> {
    v.map_values(|s: &str| s@)
}

pub open spec fn unit_words() -> Seq<Seq<char>> {
    seq![
        "kg"@, "km"@, "cm"@, "mm"@, "celsius"@, "fahrenheit"@, "meters"@, "grams"@, "liters"@,
        "mph"@, "kph"@, "ms"@, "ghz"@, "mhz"@,
    ]
}

pub open spec fn definition_phrases() -> Seq<Seq<char>> {
    seq!["means"@, "refers to"@, "was defined as"@, "is defined as"@]
}

pub open spec fn attribution_phrases() -> Seq<Seq<char>> {
    seq!["according to"@, "research shows"@, "found that"@, "studies show"@]
}

pub open spec fn causal_phrases() -> Seq<Seq<char>> {
    seq!["causes"@, "leads to"@, "results in"@, "because"@]
}

pub open spec fn strong_quantifiers() -> Seq<Seq<char>> {
    seq![
        "first"@, "only"@, "largest"@, "smallest"@, "highest"@, "lowest"@, "most"@, "never"@,
        "always"@,
    ]
}

pub open spec fn question_words() -> Seq<Seq<char>> {
    seq!["how"@, "why"@, "which"@, "what"@, "when"@, "where"@, "who"@]
}

pub open spec fn gap_phrases() -> Seq<Seq<char>> {
    seq!["little is known"@, "unclear"@, "unknown"@, "not well understood"@, "needs examples"@]
}

pub open spec fn first_person_words() -> Seq<Seq<char>> {
    seq!["i"@, "i'm"@, "i'll"@, "i've"@, "my"@, "mine"@, "me"@]
}

pub open spec fn url_prefixes() -> Seq<Seq<char>> {
    seq!["http://"@, "https://"@, "www."@]
}

pub open spec fn speculation_phrases() -> Seq<Seq<char>> {
    seq!["maybe"@, "perhaps"@, "i think"@, "probably"@, "guess"@]
}

fn unit_list() -> (r: Vec<&'static str>)
    ensures
        strs(r@) == unit_words(),
{
    let mut v: Vec<&'static str> = Vec::new();
    v.push("kg");
    v.push("km");
    v.push("cm");
    v.push("mm");
    v.push("celsius");
    v.push("fahrenheit");
    v.push("meters");
    v.push("grams");
    v.push("liters");
    v.push("mph");
    v.push("kph");
    v.push("ms");
    v.push("ghz");
    v.push("mhz");
    assert(strs(v@) =~= unit_words());
    v
}

fn definition_list() -> (r: Vec<&'static str>)
    ensures
        strs(r@) == definition_phrases(),
{
    let mut v: Vec<&'static str> = Vec::new();
    v.push("means");
    v.push("refers to");
    v.push("was defined as");
    v.push("is defined as");
    assert(strs(v@) =~= definition_phrases());
    v
}

fn attribution_list() -> (r: Vec<&'static str>)
    ensures
        strs(r@) == attribution_phrases(),
{
    let mut v: Vec<&'static str> = Vec::new();
    v.push("according to");
    v.push("research shows");
    v.push("found that");
    v.push("studies show");
    assert(strs(v@) =~= attribution_phrases());
    v
}

fn causal_list() -> (r: Vec<&'static str>)
    ensures
        strs(r@) == causal_phrases(),
{
    let mut v: Vec<&'static str> = Vec::new();
    v.push("causes");
    v.push("leads to");
    v.push("results in");
    v.push("because");
    assert(strs(v@) =~= causal_phrases());
    v
}

fn quantifier_list() -> (r: Vec<&'static str>)
    ensures
        strs(r@) == strong_quantifiers(),
{
    let mut v: Vec<&'static str> = Vec::new();
    v.push("first");
    v.push("only");
    v.push("largest");
    v.push("smallest");
    v.push("highest");
    v.push("lowest");
    v.push("most");
    v.push("never");
    v.push("always");
    assert(strs(v@) =~= strong_quantifiers());
    v
}

fn question_list() -> (r: Vec<&'static str>)
    ensures
        strs(r@) == question_words(),
{
    let mut v: Vec<&'static str> = Vec::new();
    v.push("how");
    v.push("why");
    v.push("which");
    v.push("what");
    v.push("when");
    v.push("where");
    v.push("who");
    assert(strs(v@) =~= question_words());
    v
}

fn gap_list() -> (r: Vec<&'static str>)
    ensures
        strs(r@) == gap_phrases(),
{
    let mut v: Vec<&'static str> = Vec::new();
    v.push("little is known");
    v.push("unclear");
    v.push("unknown");
    v.push("not well understood");
    v.push("needs examples");
    assert(strs(v@) =~= gap_phrases());
    v
}

fn first_person_list() -> (r: Vec<&'static str>)
    ensures
        strs(r@) == first_person_words(),
{
    let mut v: Vec<&'static str> = Vec::new();
    v.push("i");
    v.push("i'm");
    v.push("i'll");
    v.push("i've");
    v.push("my");
    v.push("mine");
    v.push("me");
    assert(strs(v@) =~= first_person_words());
    v
}

fn url_list() -> (r: Vec<&'static str>)
    ensures
        strs(r@) == url_prefixes(),
{
    let mut v: Vec<&'static str> = Vec::new();
    v.push("http://");
    v.push("https://");
    v.push("www.");
    assert(strs(v@) =~= url_prefixes());
    v
}

fn speculation_list() -> (r: Vec<&'static str>)
    ensures
        strs(r@) == speculation_phrases(),
{
    let mut v: Vec<&'static str> = Vec::new();
    v.push("maybe");
    v.push("perhaps");
    v.push("i think");
    v.push("probably");
    v.push("guess");
    assert(strs(v@) =~= speculation_phrases());
    v
}

/// Whether `n` occurs in `h`.
fn contains_chars(h: &Vec<char>, n: &Vec<char>) -> (r: bool)
    ensures
        r == seq_contains(h@, n@),
{
    if n.len() > h.len() {
        return false;
    }
    let last = h.len() - n.len();
    let mut i: usize = 0;
    let mut done = false;
    while !done
        invariant
            i <= last,
            last == h.len() - n.len(),
            n.len() <= h.len(),
            forall|j: int| 0 <= j < i ==> #[trigger] h@.subrange(j, j + n@.len()) != n@,
            done ==> i == last && h@.subrange(i as int, i + n@.len()) != n@,
        decreases last - i + if done { 0int } else { 1int },
    {
        let mut k: usize = 0;
        let mut same = true;
        while k < n.len()
            invariant
                i <= last,
                last == h.len() - n.len(),
                k <= n.len(),
                same ==> forall|q: int| 0 <= q < k ==> h@[i + q] == n@[q],
                !same ==> h@.subrange(i as int, i + n@.len()) != n@,
            decreases n.len() - k,
        {
            if same && h[i + k] != n[k] {
                assert(h@.subrange(i as int, i + n@.len())[k as int] != n@[k as int]);
                same = false;
            }
            k = k + 1;
        }
        if same {
            assert(h@.subrange(i as int, i + n@.len()) =~= n@);
            return true;
        }
        if i == last {
            done = true;
        } else {
            i = i + 1;
        }
    }
    proof {
        if seq_contains(h@, n@) {
            let j = choose|j: int| 0 <= j && j + n@.len() <= h@.len() && #[trigger] h@.subrange(j, j + n@.len()) == n@;
            assert(h@.subrange(j, j + n@.len()) == n@);
        }
    }
    false
}


/// Whether some phrase of `ps` occurs in `h`.
fn contains_any_of(h: &Vec<char>, ps: &Vec<&'static str>) -> (r: bool)
    ensures
        r == contains_any(h@, strs(ps@)),
{
    let mut k: usize = 0;
    while k < ps.len()
        invariant
            k <= ps.len(),
            forall|q: int| 0 <= q < k ==> !seq_contains(h@, #[trigger] strs(ps@)[q]),
        decreases ps.len() - k,
    {
        let p = chars_of(ps[k]);
        if contains_chars(h, &p) {
            assert(seq_contains(h@, strs(ps@)[k as int]));
            return true;
        }
        k = k + 1;
    }
    false
}

/// Whether `c` occurs in `h`.
fn contains_char(h: &Vec<char>, c: char) -> (r: bool)
    ensures
        r == seq_contains(h@, seq![c]),
{
    let mut n: Vec<char> = Vec::new();
    n.push(c);
    assert(n@ =~= seq![c]);
    contains_chars(h, &n)
}

/// Whether `w` is one of the words `ps`.
fn word_in(w: &String, ps: &Vec<&'static str>) -> (r: bool)
    ensures
        r == strs(ps@).contains(w@),
{
    let mut k: usize = 0;
    while k < ps.len()
        invariant
            k <= ps.len(),
            forall|q: int| 0 <= q < k ==> #[trigger] strs(ps@)[q] != w@,
        decreases ps.len() - k,
    {
        if crate::text::str_eq(w.as_str(), ps[k]) {
            assert(strs(ps@)[k as int] == w@);
            return true;
        }
        k = k + 1;
    }
    false
}

/// Whether some token is one of the words `ps`.
fn any_word_in(toks: &Vec<String>, ps: &Vec<&'static str>) -> (r: bool)
    ensures
        r == any_token_in(views(toks@), strs(ps@)),
{
    let mut k: usize = 0;
    while k < toks.len()
        invariant
            k <= toks.len(),
            forall|q: int| 0 <= q < k ==> !strs(ps@).contains(#[trigger] views(toks@)[q]),
        decreases toks.len() - k,
    {
        if word_in(&toks[k], ps) {
            assert(strs(ps@).contains(views(toks@)[k as int]));
            return true;
        }
        k = k + 1;
    }
    false
}

fn is_ascii_digit(c: char) -> (r: bool)
    ensures
        r == is_ascii_digit_char(c),
{
    '0' <= c && c <= '9'
}

fn is_ascii_punct(c: char) -> (r: bool)
    ensures
        r == is_ascii_punct_char(c),
{
    ('!' <= c && c <= '/') || (':' <= c && c <= '@') || ('[' <= c && c <= '`') || ('{' <= c && c <= '~')
}

fn has_digit(h: &Vec<char>) -> (r: bool)
    ensures
        r == has_ascii_digit(h@),
{
    let mut i: usize = 0;
    while i < h.len()
        invariant
            i <= h.len(),
            forall|j: int| 0 <= j < i ==> !is_ascii_digit_char(#[trigger] h@[j]),
        decreases h.len() - i,
    {
        if is_ascii_digit(h[i]) {
            return true;
        }
        i = i + 1;
    }
    false
}

/// Whether the text holds a run of exactly four ASCII digits reading as a
/// year in 1000..=2999.
fn has_year_run(t: &Vec<char>) -> (r: bool)
    ensures
        r == has_year(t@),
{
    let n = t.len();
    let mut i: usize = 0;
    while i < n
        invariant
            i <= n == t@.len(),
            i == 0 || i == n || !is_ascii_digit_char(t@[i - 1]) || !is_ascii_digit_char(t@[i as int]),
            forall|j: int| 0 <= j < i ==> !is_year_run(t@, j),
        decreases n - i,
    {
        if is_ascii_digit(t[i]) {
            let start = i;
            while i < n && is_ascii_digit(t[i])
                invariant
                    start <= i <= n == t@.len(),
                    forall|j: int| start <= j < i ==> is_ascii_digit_char(#[trigger] t@[j]),
                decreases n - i,
            {
                i = i + 1;
            }
            if i - start == 4 {
                let v: u32 = (t[start] as u32 - '0' as u32) * 1000 + (t[start + 1] as u32 - '0' as u32) * 100
                    + (t[start + 2] as u32 - '0' as u32) * 10 + (t[start + 3] as u32 - '0' as u32);
                assert(v == four_digit_value(t@, start as int));
                if 1000 <= v && v <= 2999 {
                    assert(is_year_run(t@, start as int));
                    return true;
                }
            }
            assert forall|j: int| 0 <= j < i implies !is_year_run(t@, j) by {
                if start < j < i {
                    assert(is_ascii_digit_char(t@[j - 1]));
                } else if j == start && i - start != 4 {
                    if i - start < 4 {
                        assert(!is_ascii_digit_char(t@[i as int]) || i == n);
                        if i < n && j + 4 <= n {
                            assert(!is_ascii_digit_char(t@[i as int]));
                        }
                    } else {
                        assert(is_ascii_digit_char(t@[start + 4]));
                    }
                }
            }
        } else {
            i = i + 1;
        }
    }
    false
}

/// Removes leading and trailing ASCII punctuation.
fn trim_punct_string(s: &str) -> (r: String)
    ensures
        r@ == trim_punct(s@),
{
    let cs = chars_of(s);
    let n = cs.len();
    let mut i: usize = 0;
    assert(cs@.subrange(0, n as int) =~= cs@);
    while i < n && is_ascii_punct(cs[i])
        invariant
            i <= n == cs.len(),
            cs@ == s@,
            trim_punct_start(s@) == trim_punct_start(cs@.subrange(i as int, n as int)),
        decreases n - i,
    {
        assert(cs@.subrange(i as int, n as int).drop_first() =~= cs@.subrange(i + 1, n as int));
        i = i + 1;
    }
    let mut j: usize = n;
    while j > i && is_ascii_punct(cs[j - 1])
        invariant
            i <= j <= n == cs.len(),
            cs@ == s@,
            trim_punct(s@) == trim_punct_end(cs@.subrange(i as int, j as int)),
        decreases j - i,
    {
        assert(cs@.subrange(i as int, j as int).drop_last() =~= cs@.subrange(i as int, j - 1));
        j = j - 1;
    }
    string_from_chars(&cs, i, j)
}

/// The standalone words of a text.
fn tokens(text: &str) -> (r: Vec<String>)
    ensures
        views(r@) == tokens_of(text@),
{
    let words = split_ascii_whitespace(text);
    let mut out: Vec<String> = Vec::new();
    let mut k: usize = 0;
    let ghost f = |w: Seq<char>| trim_punct(str_lowercase(w));
    let ghost keep = |w: Seq<char>| w.len() > 0;
    while k < words.len()
        invariant
            k <= words.len(),
            views(words@) == ascii_words(text@),
            f == (|w: Seq<char>| trim_punct(str_lowercase(w))),
            keep == (|w: Seq<char>| w.len() > 0),
            views(out@) == views(words@).take(k as int).map_values(f).filter(keep),
        decreases words.len() - k,
    {
        let lw = to_lowercase(words[k].as_str());
        let tw = trim_punct_string(lw.as_str());
        let ghost pre = views(words@).take(k as int).map_values(f);
        proof {
            assert(views(words@).take(k + 1).map_values(f) =~= pre.push(f(views(words@)[k as int])));
            pre.lemma_filter_push(f(views(words@)[k as int]), keep);
        }
        let ghost before = out@;
        if !crate::text::is_empty_str(tw.as_str()) {
            out.push(tw);
            assert(views(out@) =~= views(before).push(f(views(words@)[k as int])));
        }
        k = k + 1;
    }
    assert(views(words@).take(words@.len() as int) =~= views(words@));
    out
}


// ---------------------------------------------------------------------------
// Signals.

/// The local signals of a block: how many positive and negative signals
/// fired, the weighted score, and the names of the signals that fired.
#[derive(Debug, Clone, PartialEq, Eq)]
pub struct LocalSignals {
    pub positive: u32,
    pub negative: u32,
    pub score: i32,
    pub matched: Vec<String>,
}

/// Whether signal `k` fires for a block's text and kind. In reporting order:
/// number, percentage, date, unit, definition, attribution, causal, strong
/// quantifier, question, gap phrase, topic heading (the positive ones), then
/// first person, URL, speculation (the negative ones).
pub open spec fn flag_at(text: Seq<char>, kind: BlockKind, k: int) -> bool {
    let lower = str_lowercase(text);
    let toks = tokens_of(text);
    if k == 0 {
        has_ascii_digit(lower)
    } else if k == 1 {
        seq_contains(lower, seq!['%'])
    } else if k == 2 {
        has_year(text)
    } else if k == 3 {
        contains_any(lower, unit_words())
    } else if k == 4 {
        contains_any(lower, definition_phrases())
    } else if k == 5 {
        contains_any(lower, attribution_phrases())
    } else if k == 6 {
        contains_any(lower, causal_phrases())
    } else if k == 7 {
        any_token_in(toks, strong_quantifiers())
    } else if k == 8 {
        seq_contains(text, seq!['?']) || (toks.len() > 0 && question_words().contains(toks[0]))
    } else if k == 9 {
        contains_any(lower, gap_phrases())
    } else if k == 10 {
        kind == BlockKind::Heading
    } else if k == 11 {
        any_token_in(toks, first_person_words())
    } else if k == 12 {
        contains_any(lower, url_prefixes())
    } else {
        contains_any(lower, speculation_phrases())
    }
}

/// The fourteen signal flags of a block's text and kind; the first eleven
/// are positive, the last three negative.
pub open spec fn signal_flags(text: Seq<char>, kind: BlockKind) -> Seq<bool> {
    Seq::new(14, |k: int| flag_at(text, kind, k))
}

/// The names of the signals, in the order of `signal_flags`.
pub open spec fn signal_names() -> Seq<Seq<char>> {
    seq![
        "number"@, "percentage"@, "date"@, "unit"@, "definition"@, "attribution"@, "causal"@,
        "strong_quantifier"@, "question"@, "gap_phrase"@, "topic_heading"@, "first_person"@, "url"@,
        "speculation"@,
    ]
}

/// How many of `flags[from..to]` are set.
pub open spec fn count_set(flags: Seq<bool>, from: int, to: int) -> nat
    decreases to - from,
{
    if to <= from {
        0
    } else {
        count_set(flags, from, to - 1) + if flags[to - 1] { 1nat } else { 0nat }
    }
}

/// The names of the set flags among the first `to`, in order.
pub open spec fn picked(flags: Seq<bool>, names: Seq<Seq<char>>, to: int) -> Seq<Seq<char>>
    decreases to,
{
    if to <= 0 {
        Seq::empty()
    } else if flags[to - 1] {
        picked(flags, names, to - 1).push(names[to - 1])
    } else {
        picked(flags, names, to - 1)
    }
}

/// The weighted score of a block's signals.
pub open spec fn signal_score(text: Seq<char>, kind: BlockKind) -> int {
    let f = signal_flags(text, kind);
    2 * count_set(f, 0, 11) - count_set(f, 11, 14)
}

/// Records a signal: when `fired`, its name is appended and the counter
/// goes up.
fn note(matched: &mut Vec<String>, counter: &mut u32, fired: bool, name: &str)
    requires
        *old(counter) < 100,
    ensures
        views(final(matched)@) == if fired { views(old(matched)@).push(name@) } else { views(old(matched)@) },
        *final(counter) == *old(counter) + if fired { 1u32 } else { 0u32 },
{
    if fired {
        let ghost before = matched@;
        matched.push(name.to_owned());
        assert(views(matched@) =~= views(before).push(name@));
        *counter = *counter + 1;
    }
}

fn signal_name_list() -> (r: Vec<&'static str>)
    ensures
        strs(r@) == signal_names(),
{
    let mut v: Vec<&'static str> = Vec::new();
    v.push("number");
    v.push("percentage");
    v.push("date");
    v.push("unit");
    v.push("definition");
    v.push("attribution");
    v.push("causal");
    v.push("strong_quantifier");
    v.push("question");
    v.push("gap_phrase");
    v.push("topic_heading");
    v.push("first_person");
    v.push("url");
    v.push("speculation");
    assert(strs(v@) =~= signal_names());
    v
}

/// Evaluates signal `k`.
fn eval_flag(k: usize, text: &Vec<char>, lower: &Vec<char>, toks: &Vec<String>, kind: BlockKind) -> (r: bool)
    requires
        k < 14,
        lower@ == str_lowercase(text@),
        views(toks@) == tokens_of(text@),
    ensures
        r == flag_at(text@, kind, k as int),
{
    if k == 0 {
        has_digit(lower)
    } else if k == 1 {
        contains_char(lower, '%')
    } else if k == 2 {
        has_year_run(text)
    } else if k == 3 {
        contains_any_of(lower, &unit_list())
    } else if k == 4 {
        contains_any_of(lower, &definition_list())
    } else if k == 5 {
        contains_any_of(lower, &attribution_list())
    } else if k == 6 {
        contains_any_of(lower, &causal_list())
    } else if k == 7 {
        any_word_in(toks, &quantifier_list())
    } else if k == 8 {
        let first_is_question = if toks.len() > 0 {
            word_in(&toks[0], &question_list())
        } else {
            false
        };
        contains_char(text, '?') || first_is_question
    } else if k == 9 {
        contains_any_of(lower, &gap_list())
    } else if k == 10 {
        match kind {
            BlockKind::Heading => true,
            _ => false,
        }
    } else if k == 11 {
        any_word_in(toks, &first_person_list())
    } else if k == 12 {
        contains_any_of(lower, &url_list())
    } else {
        contains_any_of(lower, &speculation_list())
    }
}

/// Evaluates every signal of a block's text and kind.
fn signal_flags_of(text: &str, kind: BlockKind) -> (r: Vec<bool>)
    ensures
        r@ == signal_flags(text@, kind),
{
    let lower_s = to_lowercase(text);
    let lower = chars_of(lower_s.as_str());
    let chars = chars_of(text);
    let toks = tokens(text);
    let mut v: Vec<bool> = Vec::new();
    let mut k: usize = 0;
    while k < 14
        invariant
            k <= 14,
            chars@ == text@,
            lower@ == str_lowercase(text@),
            views(toks@) == tokens_of(text@),
            v@.len() == k,
            forall|j: int| 0 <= j < k ==> #[trigger] v@[j] == flag_at(text@, kind, j),
        decreases 14 - k,
    {
        v.push(eval_flag(k, &chars, &lower, &toks, kind));
        k = k + 1;
    }
    assert(v@ =~= signal_flags(text@, kind));
    v
}

/// Computes the cheap local signals of a Markdown block. An excluded block
/// has none.
pub fn classify_block(block: &MarkdownBlock) -> (r: LocalSignals)
    ensures
        block.excluded ==> r.positive == 0 && r.negative == 0 && r.score == 0 && r.matched@.len() == 0,
        !block.excluded ==> {
            let f = signal_flags(block.text@, block.kind);
            &&& r.positive == count_set(f, 0, 11)
            &&& r.negative == count_set(f, 11, 14)
            &&& views(r.matched@) == picked(f, signal_names(), 14)
            &&& r.score == signal_score(block.text@, block.kind)
        },
{
    if block.excluded {
        return LocalSignals { positive: 0, negative: 0, score: 0, matched: Vec::new() };
    }
    let flags = signal_flags_of(block.text.as_str(), block.kind);
    let names = signal_name_list();
    let ghost f = flags@;
    assert(strs(names@).len() == names@.len());
    assert(signal_names().len() == 14);
    let mut positive: u32 = 0;
    let mut negative: u32 = 0;
    let mut matched: Vec<String> = Vec::new();
    assert(views(matched@) =~= picked(f, strs(names@), 0));
    let mut k: usize = 0;
    while k < 14
        invariant
            f == flags@,
            f.len() == 14,
            strs(names@) == signal_names(),
            names@.len() == 14,
            k <= 14,
            views(matched@) == picked(f, strs(names@), k as int),
            positive == count_set(f, 0, if k < 11 { k as int } else { 11 }),
            negative == count_set(f, 11, if k < 11 { 11 } else { k as int }),
            positive <= k,
            negative <= k,
        decreases 14 - k,
    {
        if k < 11 {
            note(&mut matched, &mut positive, flags[k], names[k]);
        } else {
            note(&mut matched, &mut negative, flags[k], names[k]);
        }
        assert(strs(names@)[k as int] == names@[k as int]@);
        k = k + 1;
    }
    let score = (positive as i32) * POSITIVE_SIGNAL_WEIGHT - (negative as i32) * NEGATIVE_SIGNAL_WEIGHT;
    LocalSignals { positive, negative, score, matched }
}

/// The decision for a block's exclusion flag, text and kind, given its
/// optional slash command: excluded blocks are skipped, a command decides on
/// its own, and otherwise the score does (at least 4: high confidence; at
/// least 0: needs extraction; else skip).
pub open spec fn route_for(excluded: bool, text: Seq<char>, kind: BlockKind, command: Option<SlashCommand>) -> RoutingDecision {
    if excluded {
        RoutingDecision::Skip
    } else {
        match command {
            Some(SlashCommand::Ignore) => RoutingDecision::Ignore,
            Some(SlashCommand::FactCheck) => RoutingDecision::FactCheck,
            Some(SlashCommand::Research) => RoutingDecision::Research,
            None => if signal_score(text, kind) >= 4 {
                RoutingDecision::HighConfidenceLocal
            } else if signal_score(text, kind) >= 0 {
                RoutingDecision::NeedsExtraction
            } else {
                RoutingDecision::Skip
            },
        }
    }
}

/// The decision for a block, given its optional slash command.
pub open spec fn route_of(block: MarkdownBlock, command: Option<SlashCommand>) -> RoutingDecision {
    route_for(block.excluded, block.text@, block.kind, command)
}

/// Routes a Markdown block using its local signals and an optional parsed
/// slash command. Explicit commands override the score; the excluded-block
/// guard wins over any command.
pub fn route_block(block: &MarkdownBlock, command: Option<&ParsedSlashCommand>) -> (r: RoutingDecision)
    ensures
        r == route_of(*block, match command {
            Some(c) => Some(c.command),
            None => None,
        }),
{
    if block.excluded {
        return RoutingDecision::Skip;
    }
    if let Some(cmd) = command {
        match cmd.command {
            SlashCommand::Ignore => return RoutingDecision::Ignore,
            SlashCommand::FactCheck => return RoutingDecision::FactCheck,
            SlashCommand::Research => return RoutingDecision::Research,
        }
    }
    let signals = classify_block(block);
    if signals.score >= HIGH_SCORE_THRESHOLD {
        return RoutingDecision::HighConfidenceLocal;
    }
    if signals.score >= MIDDLE_SCORE_THRESHOLD {
        return RoutingDecision::NeedsExtraction;
    }
    RoutingDecision::Skip
}

/// Each signal has a name of its own.
proof fn lemma_signal_names_distinct()
    ensures
        signal_names().len() == 14,
        forall|j: int, k: int| 0 <= j < 14 && 0 <= k < 14 && #[trigger] signal_names()[j] == #[trigger] signal_names()[k] ==> j == k,
{
    reveal_strlit("number");
    reveal_strlit("percentage");
    reveal_strlit("date");
    reveal_strlit("unit");
    reveal_strlit("definition");
    reveal_strlit("attribution");
    reveal_strlit("causal");
    reveal_strlit("strong_quantifier");
    reveal_strlit("question");
    reveal_strlit("gap_phrase");
    reveal_strlit("topic_heading");
    reveal_strlit("first_person");
    reveal_strlit("url");
    reveal_strlit("speculation");
    let n = signal_names();
    assert forall|j: int, k: int| 0 <= j < 14 && 0 <= k < 14 && #[trigger] signal_names()[j] == #[trigger] signal_names()[k] implies j == k by {
        if j != k {
            if n[j].len() == n[k].len() {
                assert(n[j][0] != n[k][0] || n[j][1] != n[k][1]);
            }
        }
    }
}

/// A name is among those picked exactly when some set flag carries it.
proof fn lemma_picked_has(f: Seq<bool>, names: Seq<Seq<char>>, to: int, x: Seq<char>)
    requires
        0 <= to <= f.len(),
        to <= names.len(),
    ensures
        picked(f, names, to).contains(x) <==> exists|k: int| 0 <= k < to && f[k] && #[trigger] names[k] == x,
    decreases to,
{
    if to > 0 {
        lemma_picked_has(f, names, to - 1, x);
        let prev = picked(f, names, to - 1);
        if f[to - 1] {
            let cur = prev.push(names[to - 1]);
            assert(cur[cur.len() - 1] == names[to - 1]);
            if cur.contains(x) {
                let i = choose|i: int| 0 <= i < cur.len() && cur[i] == x;
                if i < prev.len() {
                    assert(prev[i] == x);
                }
            }
            if exists|k: int| 0 <= k < to && f[k] && #[trigger] names[k] == x {
                let k = choose|k: int| 0 <= k < to && f[k] && #[trigger] names[k] == x;
                if k < to - 1 {
                    let i = choose|i: int| 0 <= i < prev.len() && prev[i] == x;
                    assert(cur[i] == x);
                }
            }
        } else {
            if exists|k: int| 0 <= k < to && f[k] && #[trigger] names[k] == x {
                let k = choose|k: int| 0 <= k < to && f[k] && #[trigger] names[k] == x;
                assert(k < to - 1);
            }
        }
    }
}

/// One set flag in a range makes its count at least one.
proof fn lemma_count_set_positive(f: Seq<bool>, from: int, to: int, k: int)
    requires
        from <= k < to <= f.len(),
        f[k],
    ensures
        count_set(f, from, to) >= 1,
    decreases to - from,
{
    if k < to - 1 {
        lemma_count_set_positive(f, from, to - 1, k);
    }
}

/// A phrase list occurs in a text exactly when one of its members does.
proof fn lemma_contains_any_member(h: Seq<char>, ps: Seq<Seq<char>>)
    ensures
        contains_any(h, ps) <==> exists|p: Seq<char>| #[trigger] ps.contains(p) && seq_contains(h, p),
{
    if contains_any(h, ps) {
        let k = choose|k: int| 0 <= k < ps.len() && seq_contains(h, #[trigger] ps[k]);
        assert(ps.contains(ps[k]));
    }
    if exists|p: Seq<char>| #[trigger] ps.contains(p) && seq_contains(h, p) {
        let p = choose|p: Seq<char>| #[trigger] ps.contains(p) && seq_contains(h, p);
        let k = choose|k: int| 0 <= k < ps.len() && ps[k] == p;
        assert(seq_contains(h, ps[k]));
    }
}

/// A signal is reported by name exactly when its flag is set.
proof fn lemma_reported_iff_flag(text: Seq<char>, kind: BlockKind, k: int)
    requires
        0 <= k < 14,
    ensures
        picked(signal_flags(text, kind), signal_names(), 14).contains(signal_names()[k])
            <==> signal_flags(text, kind)[k],
{
    let f = signal_flags(text, kind);
    lemma_signal_names_distinct();
    lemma_picked_has(f, signal_names(), 14, signal_names()[k]);
    if picked(f, signal_names(), 14).contains(signal_names()[k]) {
        let j = choose|j: int| 0 <= j < 14 && f[j] && #[trigger] signal_names()[j] == signal_names()[k];
        assert(j == k);
    }
}

/// What each signal of a block means, against its own word list: the name
/// of a phrase signal is reported exactly when the lowercased text holds
/// one of its phrases (a definition: "means", "refers to", "was defined
/// as", "is defined as"; and so on), a token signal exactly when a word of
/// the text is on its list, and any reported positive signal makes the
/// positive count at least one, any negative one the negative count.
pub proof fn lemma_signals_follow_word_lists(text: Seq<char>, kind: BlockKind)
    ensures
        ({
            let f = signal_flags(text, kind);
            let reported = picked(f, signal_names(), 14);
            let lower = str_lowercase(text);
            let toks = tokens_of(text);
            let w1: Seq<Seq<char>> = seq!["kg"@, "km"@, "cm"@, "mm"@, "celsius"@, "fahrenheit"@, "meters"@, "grams"@, "liters"@, "mph"@, "kph"@, "ms"@, "ghz"@, "mhz"@,];
            let w2: Seq<Seq<char>> = seq!["means"@, "refers to"@, "was defined as"@, "is defined as"@];
            let w3: Seq<Seq<char>> = seq!["according to"@, "research shows"@, "found that"@, "studies show"@];
            let w4: Seq<Seq<char>> = seq!["causes"@, "leads to"@, "results in"@, "because"@];
            let w5: Seq<Seq<char>> = seq!["first"@, "only"@, "largest"@, "smallest"@, "highest"@, "lowest"@, "most"@, "never"@, "always"@,];
            let w6: Seq<Seq<char>> = seq!["how"@, "why"@, "which"@, "what"@, "when"@, "where"@, "who"@,];
            let w7: Seq<Seq<char>> = seq!["little is known"@, "unclear"@, "unknown"@, "not well understood"@, "needs examples"@,];
            let w8: Seq<Seq<char>> = seq!["i"@, "i'm"@, "i'll"@, "i've"@, "my"@, "mine"@, "me"@,];
            let w9: Seq<Seq<char>> = seq!["http://"@, "https://"@, "www."@];
            let w10: Seq<Seq<char>> = seq!["maybe"@, "perhaps"@, "i think"@, "probably"@, "guess"@,];
            &&& reported.contains("number"@) <==> exists|i: int| 0 <= i < lower.len() && '0' <= #[trigger] lower[i] <= '9'
            &&& reported.contains("percentage"@) <==> seq_contains(lower, seq!['%'])
            &&& reported.contains("unit"@) <==> exists|p: Seq<char>| #[trigger] w1.contains(p) && seq_contains(lower, p)
            &&& reported.contains("definition"@) <==> exists|p: Seq<char>|
                #[trigger] w2.contains(p)
                    && seq_contains(lower, p)
            &&& reported.contains("attribution"@) <==> exists|p: Seq<char>|
                #[trigger] w3.contains(p)
                    && seq_contains(lower, p)
            &&& reported.contains("causal"@) <==> exists|p: Seq<char>|
                #[trigger] w4.contains(p) && seq_contains(lower, p)
            &&& reported.contains("strong_quantifier"@) <==> exists|t: Seq<char>| #[trigger] toks.contains(t) && w5.contains(t)
            &&& reported.contains("question"@) <==> (seq_contains(text, seq!['?']) || (toks.len() > 0 && w6.contains(toks[0])))
            &&& reported.contains("gap_phrase"@) <==> exists|p: Seq<char>| #[trigger] w7.contains(p) && seq_contains(lower, p)
            &&& reported.contains("topic_heading"@) <==> kind == BlockKind::Heading
            &&& reported.contains("first_person"@) <==> exists|t: Seq<char>| #[trigger] toks.contains(t) && w8.contains(t)
            &&& reported.contains("url"@) <==> exists|p: Seq<char>|
                #[trigger] w9.contains(p) && seq_contains(lower, p)
            &&& reported.contains("speculation"@) <==> exists|p: Seq<char>| #[trigger] w10.contains(p) && seq_contains(lower, p)
            &&& (exists|k: int| 0 <= k < 11 && #[trigger] f[k]) ==> count_set(f, 0, 11) >= 1
            &&& (exists|k: int| 11 <= k < 14 && #[trigger] f[k]) ==> count_set(f, 11, 14) >= 1
        }),
{
    let f = signal_flags(text, kind);
    let lower = str_lowercase(text);
    let toks = tokens_of(text);
    let n = signal_names();
    lemma_reported_iff_flag(text, kind, 0);
    lemma_reported_iff_flag(text, kind, 1);
    lemma_reported_iff_flag(text, kind, 2);
    lemma_reported_iff_flag(text, kind, 3);
    lemma_reported_iff_flag(text, kind, 4);
    lemma_reported_iff_flag(text, kind, 5);
    lemma_reported_iff_flag(text, kind, 6);
    lemma_reported_iff_flag(text, kind, 7);
    lemma_reported_iff_flag(text, kind, 8);
    lemma_reported_iff_flag(text, kind, 9);
    lemma_reported_iff_flag(text, kind, 10);
    lemma_reported_iff_flag(text, kind, 11);
    lemma_reported_iff_flag(text, kind, 12);
    lemma_reported_iff_flag(text, kind, 13);
    assert(n[0] == "number"@ && n[1] == "percentage"@ && n[2] == "date"@ && n[3] == "unit"@);
    assert(n[4] == "definition"@ && n[5] == "attribution"@ && n[6] == "causal"@ && n[7] == "strong_quantifier"@);
    assert(n[8] == "question"@ && n[9] == "gap_phrase"@ && n[10] == "topic_heading"@ && n[11] == "first_person"@);
    assert(n[12] == "url"@ && n[13] == "speculation"@);
    assert(picked(f, n, 14).contains(n[0]) <==> f[0]);
    assert(picked(f, n, 14).contains(n[1]) <==> f[1]);
    assert(picked(f, n, 14).contains(n[3]) <==> f[3]);
    assert(picked(f, n, 14).contains(n[4]) <==> f[4]);
    assert(picked(f, n, 14).contains(n[5]) <==> f[5]);
    assert(picked(f, n, 14).contains(n[6]) <==> f[6]);
    assert(picked(f, n, 14).contains(n[7]) <==> f[7]);
    assert(picked(f, n, 14).contains(n[8]) <==> f[8]);
    assert(picked(f, n, 14).contains(n[9]) <==> f[9]);
    assert(picked(f, n, 14).contains(n[10]) <==> f[10]);
    assert(picked(f, n, 14).contains(n[11]) <==> f[11]);
    assert(picked(f, n, 14).contains(n[12]) <==> f[12]);
    assert(picked(f, n, 14).contains(n[13]) <==> f[13]);
    lemma_contains_any_member(lower, unit_words());
    lemma_contains_any_member(lower, definition_phrases());
    lemma_contains_any_member(lower, attribution_phrases());
    lemma_contains_any_member(lower, causal_phrases());
    lemma_contains_any_member(lower, gap_phrases());
    lemma_contains_any_member(lower, url_prefixes());
    lemma_contains_any_member(lower, speculation_phrases());
    lemma_token_member(toks, strong_quantifiers());
    lemma_token_member(toks, first_person_words());
    if exists|k: int| 0 <= k < 11 && #[trigger] f[k] {
        let k = choose|k: int| 0 <= k < 11 && #[trigger] f[k];
        lemma_count_set_positive(f, 0, 11, k);
    }
    if exists|k: int| 11 <= k < 14 && #[trigger] f[k] {
        let k = choose|k: int| 11 <= k < 14 && #[trigger] f[k];
        lemma_count_set_positive(f, 11, 14, k);
    }
}

/// Some token is on a word list exactly when the list holds a token.
proof fn lemma_token_member(toks: Seq<Seq<char>>, ps: Seq<Seq<char>>)
    ensures
        any_token_in(toks, ps) <==> exists|t: Seq<char>| #[trigger] toks.contains(t) && ps.contains(t),
{
    if any_token_in(toks, ps) {
        let k = choose|k: int| 0 <= k < toks.len() && ps.contains(#[trigger] toks[k]);
        assert(toks.contains(toks[k]));
    }
}

/// How a block is routed: an excluded block is skipped; an explicit command
/// decides on its own (`/ignore`, `/fact-check`, `/research`); otherwise
/// the score, two points per positive signal less one per negative signal,
/// does: at least 4 is a high-confidence local result, 0 to 3 needs
/// extraction, and below 0 is skipped.
pub proof fn lemma_routing_by_command_and_score(
    excluded: bool,
    text: Seq<char>,
    kind: BlockKind,
    command: Option<SlashCommand>,
)
    ensures
        excluded ==> route_for(excluded, text, kind, command) == RoutingDecision::Skip,
        !excluded && command == Some(SlashCommand::Ignore) ==> route_for(excluded, text, kind, command)
            == RoutingDecision::Ignore,
        !excluded && command == Some(SlashCommand::FactCheck) ==> route_for(excluded, text, kind, command)
            == RoutingDecision::FactCheck,
        !excluded && command == Some(SlashCommand::Research) ==> route_for(excluded, text, kind, command)
            == RoutingDecision::Research,
        !excluded && command is None ==> ({
            let f = signal_flags(text, kind);
            let score = 2 * count_set(f, 0, 11) - count_set(f, 11, 14);
            &&& (route_for(excluded, text, kind, command) == RoutingDecision::HighConfidenceLocal <==> score >= 4)
            &&& (route_for(excluded, text, kind, command) == RoutingDecision::NeedsExtraction <==> 0 <= score < 4)
            &&& (route_for(excluded, text, kind, command) == RoutingDecision::Skip <==> score < 0)
        }),
{
}

} // verus!
