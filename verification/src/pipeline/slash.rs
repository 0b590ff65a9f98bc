//! Slash commands: token scanning, block parsing, and the inline command
//! envelope. Commands are case-sensitive and lowercase; a command token is a
//! `/name` run bounded by ASCII whitespace or the edges of its line.

use vstd::prelude::*;

use crate::text::opt_view;
use vstd::string::StringSliceAdditionalSpecFns;
use vstd::utf8::*;

use crate::pipeline::blocks::MarkdownBlock;
use crate::pipeline::hash::{spec_stable_hash, stable_hash};
use crate::pipeline::routing::Trigger;
use crate::text::{
    concat, lemma_ascii_boundary, lemma_boundary_after_ascii, slice_str, trim, trim_string,
    underscore_non_alnum, underscored, utf8,
};

verus! {

broadcast use vstd::string::group_string_axioms;

/// A slash command of the command model.
#[derive(Debug, Clone, Copy, PartialEq, Eq, Structural)]
pub enum SlashCommand {
    FactCheck,
    Research,
    Ignore,
}

/// The token that spells a command in a note.
pub open spec fn token_text(c: SlashCommand) -> Seq<char> {
    match c {
        SlashCommand::FactCheck => "/fact-check"@,
        SlashCommand::Research => "/research"@,
        SlashCommand::Ignore => "/ignore"@,
    }
}

/// The bytes of a command token.
pub open spec fn token_bytes(c: SlashCommand) -> Seq<u8> {
    utf8(token_text(c))
}

/// The command registry, in matching order.
pub fn registry_token(c: SlashCommand) -> (r: &'static str)
    ensures
        r@ == token_text(c),
{
    match c {
        SlashCommand::FactCheck => "/fact-check",
        SlashCommand::Research => "/research",
        SlashCommand::Ignore => "/ignore",
    }
}

/// ASCII whitespace as `u8::is_ascii_whitespace` defines it: space, tab,
/// line feed, form feed, carriage return.
pub open spec fn is_ascii_ws(b: u8) -> bool {
    b == 32 || b == 9 || b == 10 || b == 12 || b == 13
}

fn ascii_ws(b: u8) -> (r: bool)
    ensures
        r == is_ascii_ws(b),
{
    b == 32 || b == 9 || b == 10 || b == 12 || b == 13
}

/// `b` holds the bytes `t` from position `i` on.
pub open spec fn starts_with_at(b: Seq<u8>, i: int, t: Seq<u8>) -> bool {
    0 <= i && i + t.len() <= b.len() && b.subrange(i, i + t.len()) == t
}

/// The token of `c` stands at `i`: it starts with '/', follows whitespace or
/// the start, and is followed by whitespace or the end.
pub open spec fn token_matches(b: Seq<u8>, i: int, c: SlashCommand) -> bool {
    let e = i + token_bytes(c).len();
    &&& 0 <= i < b.len()
    &&& b[i] == 47
    &&& (i == 0 || is_ascii_ws(b[i - 1]))
    &&& starts_with_at(b, i, token_bytes(c))
    &&& (e == b.len() || is_ascii_ws(b[e]))
}

/// The command whose token stands at `i`, the first in registry order.
pub open spec fn command_at(b: Seq<u8>, i: int) -> Option<SlashCommand> {
    if token_matches(b, i, SlashCommand::FactCheck) {
        Some(SlashCommand::FactCheck)
    } else if token_matches(b, i, SlashCommand::Research) {
        Some(SlashCommand::Research)
    } else if token_matches(b, i, SlashCommand::Ignore) {
        Some(SlashCommand::Ignore)
    } else {
        None
    }
}

/// A command stands at `i` and at no earlier position.
pub open spec fn is_first_command(b: Seq<u8>, i: int) -> bool {
    &&& command_at(b, i) is Some
    &&& forall|k: int| 0 <= k < i ==> command_at(b, k) is None
}

/// The position of the first command token in `b`.
pub open spec fn first_command(b: Seq<u8>) -> Option<int> {
    if exists|i: int| is_first_command(b, i) {
        Some(choose|i: int| is_first_command(b, i))
    } else {
        None
    }
}

/// A whitespace-delimited token of the text from `from` on starts at `s`.
pub open spec fn starts_token(b: Seq<u8>, from: int, s: int) -> bool {
    &&& from <= s < b.len()
    &&& !is_ascii_ws(b[s])
    &&& (s == from || is_ascii_ws(b[s - 1]))
}

/// The token starting at `s` ends at `e`.
pub open spec fn ends_token(b: Seq<u8>, s: int, e: int) -> bool {
    &&& 0 <= s < e <= b.len()
    &&& forall|k: int| s <= k < e ==> !is_ascii_ws(b[k])
    &&& (e == b.len() || is_ascii_ws(b[e]))
}

/// `b[s..e]` is the first token from `from` on that starts with '@'.
pub open spec fn is_selector(b: Seq<u8>, from: int, s: int, e: int) -> bool {
    &&& starts_token(b, from, s)
    &&& b[s] == 64
    &&& ends_token(b, s, e)
    &&& forall|k: int| from <= k < s && starts_token(b, from, k) ==> b[k] != 64
}

/// The span of the first '@' token from `from` on.
pub open spec fn selector_after(b: Seq<u8>, from: int) -> Option<(int, int)> {
    if exists|s: int, e: int| is_selector(b, from, s, e) {
        Some(choose|s: int, e: int| is_selector(b, from, s, e))
    } else {
        None
    }
}

/// What a line yields: the first command, its token span, and the span of the
/// first '@' token after it.
pub open spec fn line_parse(b: Seq<u8>) -> Option<(SlashCommand, int, int, Option<(int, int)>)> {
    match first_command(b) {
        None => None,
        Some(ts) => match command_at(b, ts) {
            Some(c) => {
                let te = ts + token_bytes(c).len();
                Some((c, ts, te, selector_after(b, te)))
            },
            None => None,
        },
    }
}

pub proof fn lemma_first_command_unique(b: Seq<u8>, i: int)
    requires
        is_first_command(b, i),
    ensures
        first_command(b) == Some(i),
{
    let j = choose|j: int| is_first_command(b, j);
    assert(is_first_command(b, j));
    if j < i {
        assert(command_at(b, j) is None);
    } else if i < j {
        assert(command_at(b, i) is None);
    }
}

/// Without a first command there is no command at all.
pub proof fn lemma_first_command_none(b: Seq<u8>, i: int)
    requires
        first_command(b) is None,
    ensures
        command_at(b, i) is None,
    decreases i,
{
    if command_at(b, i) is Some {
        if exists|k: int| 0 <= k < i && command_at(b, k) is Some {
            let k = choose|k: int| 0 <= k < i && command_at(b, k) is Some;
            lemma_first_command_none(b, k);
        } else {
            assert(is_first_command(b, i));
        }
    }
}

proof fn lemma_selector_unique(b: Seq<u8>, from: int, s: int, e: int)
    requires
        is_selector(b, from, s, e),
    ensures
        selector_after(b, from) == Some((s, e)),
{
    let (s2, e2) = choose|s2: int, e2: int| is_selector(b, from, s2, e2);
    assert(is_selector(b, from, s2, e2));
    if s2 < s {
        assert(b[s2] != 64);
    } else if s < s2 {
        assert(b[s] != 64);
    }
    if e2 < e {
        assert(!is_ascii_ws(b[e2]));
    } else if e < e2 {
        assert(!is_ascii_ws(b[e]));
    }
}

/// Whether `b` holds the bytes `t` from position `i` on.
fn bytes_at(b: &[u8], i: usize, t: &[u8]) -> (r: bool)
    ensures
        r == starts_with_at(b@, i as int, t@),
{
    if i > b.len() || t.len() > b.len() - i {
        return false;
    }
    let mut k: usize = 0;
    while k < t.len()
        invariant
            i + t.len() <= b.len(),
            k <= t.len(),
            forall|q: int| 0 <= q < k ==> b@[i + q] == t@[q],
        decreases t.len() - k,
    {
        if b[i + k] != t[k] {
            assert(b@.subrange(i as int, i + t.len())[k as int] != t@[k as int]);
            return false;
        }
        k = k + 1;
    }
    assert(b@.subrange(i as int, i + t.len()) =~= t@);
    true
}

/// The command whose token stands at `i`.
fn command_at_exec(b: &[u8], i: usize) -> (r: Option<SlashCommand>)
    requires
        i < b.len(),
    ensures
        r == command_at(b@, i as int),
{
    if b[i] != 47 || (i > 0 && !ascii_ws(b[i - 1])) {
        return None;
    }
    let cands: [SlashCommand; 3] = [SlashCommand::FactCheck, SlashCommand::Research, SlashCommand::Ignore];
    let mut k: usize = 0;
    while k < 3
        invariant
            i < b.len(),
            b@[i as int] == 47,
            i == 0 || is_ascii_ws(b@[i - 1]),
            k <= 3,
            cands@ == seq![SlashCommand::FactCheck, SlashCommand::Research, SlashCommand::Ignore],
            forall|q: int| 0 <= q < k ==> !token_matches(b@, i as int, #[trigger] cands@[q]),
        decreases 3 - k,
    {
        let c = cands[k];
        let name = registry_token(c).as_bytes();
        if bytes_at(b, i, name) {
            let after = i + name.len();
            if after == b.len() || ascii_ws(b[after]) {
                assert(token_matches(b@, i as int, c));
                return Some(c);
            }
        }
        k = k + 1;
    }
    assert(!token_matches(b@, i as int, cands@[0]));
    assert(!token_matches(b@, i as int, cands@[1]));
    assert(!token_matches(b@, i as int, cands@[2]));
    None
}

/// The first command token in `b`, with its command.
fn find_first_command(b: &[u8]) -> (r: Option<(usize, SlashCommand)>)
    ensures
        match r {
            None => first_command(b@) is None,
            Some((i, c)) => {
                &&& first_command(b@) == Some(i as int)
                &&& is_first_command(b@, i as int)
                &&& command_at(b@, i as int) == Some(c)
            },
        },
{
    let mut i: usize = 0;
    while i < b.len()
        invariant
            i <= b.len(),
            forall|k: int| 0 <= k < i ==> command_at(b@, k) is None,
        decreases b.len() - i,
    {
        match command_at_exec(b, i) {
            Some(c) => {
                proof {
                    lemma_first_command_unique(b@, i as int);
                }
                return Some((i, c));
            },
            None => {},
        }
        i = i + 1;
    }
    proof {
        if exists|j: int| is_first_command(b@, j) {
            let j = choose|j: int| is_first_command(b@, j);
            assert(command_at(b@, j) is Some);
            assert(j < b@.len());
        }
    }
    None
}

/// The span of the first whitespace-delimited token from `from` on that
/// starts with '@'.
fn find_selector(b: &[u8], from: usize) -> (r: Option<(usize, usize)>)
    requires
        from <= b.len(),
    ensures
        match r {
            None => selector_after(b@, from as int) is None,
            Some((s, e)) => selector_after(b@, from as int) == Some((s as int, e as int)) && is_selector(
                b@,
                from as int,
                s as int,
                e as int,
            ),
        },
{
    let mut i: usize = from;
    while i < b.len()
        invariant
            from <= i <= b.len(),
            i == from || i == b.len() || is_ascii_ws(b@[i - 1]) || is_ascii_ws(b@[i as int]),
            forall|k: int| from <= k < i && starts_token(b@, from as int, k) ==> b@[k] != 64,
        decreases b.len() - i,
    {
        let ghost i0 = i;
        while i < b.len() && ascii_ws(b[i])
            invariant
                from <= i0 <= i <= b.len(),
                i == from || i == b.len() || is_ascii_ws(b@[i - 1]) || is_ascii_ws(b@[i as int]),
                forall|k: int| from <= k < i && starts_token(b@, from as int, k) ==> b@[k] != 64,
            decreases b.len() - i,
        {
            i = i + 1;
        }
        if i >= b.len() {
            proof {
                lemma_no_selector(b@, from as int);
            }
            return None;
        }
        let start = i;
        assert(starts_token(b@, from as int, start as int));
        while i < b.len() && !ascii_ws(b[i])
            invariant
                i0 <= start < b.len(),
                start <= i <= b.len(),
                forall|k: int| start <= k < i ==> !is_ascii_ws(b@[k]),
            decreases b.len() - i,
        {
            i = i + 1;
        }
        assert(i > start);
        if b[start] == 64 {
            assert(is_selector(b@, from as int, start as int, i as int));
            proof {
                lemma_selector_unique(b@, from as int, start as int, i as int);
            }
            return Some((start, i));
        }
        assert forall|k: int| from <= k < i && starts_token(b@, from as int, k) implies b@[k] != 64 by {
            if start < k < i {
                assert(!is_ascii_ws(b@[k - 1]));
            }
        }
    }
    proof {
        lemma_no_selector(b@, from as int);
    }
    None
}

proof fn lemma_no_selector(b: Seq<u8>, from: int)
    requires
        forall|k: int| from <= k < b.len() && starts_token(b, from, k) ==> b[k] != 64,
    ensures
        selector_after(b, from) is None,
{
    if exists|s: int, e: int| is_selector(b, from, s, e) {
        let (s, e) = choose|s: int, e: int| is_selector(b, from, s, e);
        assert(b[s] == 64);
    }
}

/// A single inline command found in a line: the command, the byte span of its
/// token, and the optional raw `@selector` token after it with its byte span.
/// Offsets are relative to the line.
#[derive(Debug, Clone, PartialEq, Eq)]
pub struct LineCommand<'a> {
    pub command: SlashCommand,
    pub token_start: usize,
    pub token_end: usize,
    pub selector: Option<&'a str>,
    pub selector_span: Option<(usize, usize)>,
}

/// The first whitespace-delimited token at or after `from` that starts with
/// '@', with its byte span within the line.
pub fn first_at_token<'a>(line: &'a str, from: usize) -> (r: (Option<&'a str>, Option<(usize, usize)>))
    requires
        from <= utf8(line@).len(),
    ensures
        match selector_after(utf8(line@), from as int) {
            None => r.0 is None && r.1 is None,
            Some((s, e)) => {
                &&& r.1 == Some((s as usize, e as usize))
                &&& r.0 matches Some(t) && utf8(t@) == utf8(line@).subrange(s, e)
            },
        },
        match r.1 {
            None => selector_after(utf8(line@), from as int) is None,
            Some((s, e)) => is_selector(utf8(line@), from as int, s as int, e as int),
        },
{
    let b = line.as_bytes();
    match find_selector(b, from) {
        None => (None, None),
        Some((s, e)) => {
            proof {
                encode_utf8_valid_utf8(line@);
                lemma_ascii_boundary(b@, s as int);
                lemma_ascii_boundary(b@, e as int);
            }
            (Some(slice_str(line, s, e)), Some((s, e)))
        },
    }
}

/// Scans a line for the first registry command token; the token may stand
/// anywhere in the line. The selector is the first '@' token after the
/// command word.
pub fn parse_slash_command_in_line<'a>(line: &'a str) -> (r: Option<LineCommand<'a>>)
    ensures
        match line_parse(utf8(line@)) {
            None => r is None,
            Some((c, ts, te, sel)) => r matches Some(lc) && {
                &&& lc.command == c
                &&& lc.token_start == ts
                &&& lc.token_end == te
                &&& match sel {
                    None => lc.selector is None && lc.selector_span is None,
                    Some((s, e)) => {
                        &&& lc.selector_span == Some((s as usize, e as usize))
                        &&& lc.selector matches Some(t) && utf8(t@) == utf8(line@).subrange(s, e)
                    },
                }
            },
        },
        r matches Some(lc) ==> {
            &&& is_first_command(utf8(line@), lc.token_start as int)
            &&& command_at(utf8(line@), lc.token_start as int) == Some(lc.command)
            &&& lc.token_end == lc.token_start + token_bytes(lc.command).len()
            &&& match lc.selector_span {
                None => selector_after(utf8(line@), lc.token_end as int) is None,
                Some((s, e)) => is_selector(utf8(line@), lc.token_end as int, s as int, e as int),
            }
        },
{
    let b = line.as_bytes();
    match find_first_command(b) {
        None => None,
        Some((i, c)) => {
            let name = registry_token(c).as_bytes();
            proof {
                assert(token_matches(b@, i as int, c));
                assert(name@ == token_bytes(c));
                assert(b.len() == b@.len());
                assert(i + name@.len() <= b@.len());
            }
            let after = i + name.len();
            let (selector, selector_span) = first_at_token(line, after);
            Some(LineCommand { command: c, token_start: i, token_end: after, selector, selector_span })
        },
    }
}

/// The bytes of a block's text form a line from `s` to `e`: `s` starts a line
/// and `e` is the first line feed from `s` on, or the end.
pub open spec fn is_line(b: Seq<u8>, s: int, e: int) -> bool {
    &&& 0 <= s < b.len()
    &&& (s == 0 || b[s - 1] == 10)
    &&& s <= e <= b.len()
    &&& forall|k: int| s <= k < e ==> b[k] != 10
    &&& (e == b.len() || b[e] == 10)
}

/// The focus text of a command line: the line with the command token and any
/// selector token cut out, trimmed.
pub open spec fn focus_of(l: Seq<u8>, ts: int, te: int, sel: Option<(int, int)>) -> Seq<char> {
    trim(
        match sel {
            None => decode_utf8(l.subrange(0, ts)) + decode_utf8(l.subrange(te, l.len() as int)),
            Some((s, e)) => decode_utf8(l.subrange(0, ts)) + decode_utf8(l.subrange(te, s))
                + decode_utf8(l.subrange(e, l.len() as int)),
        },
    )
}

/// A parsed slash command: the command, the focus text, the optional raw
/// selector, the command line's byte span within the block text, and the
/// block hash. The command line stays in the file.
#[derive(Debug, Clone, PartialEq, Eq)]
pub struct ParsedSlashCommand {
    pub command: SlashCommand,
    pub focus_text: String,
    pub selector: Option<String>,
    pub line_start: usize,
    pub line_end: usize,
    pub block_hash: String,
}

/// `p` is what the command line `l` yields.
pub open spec fn parsed_from_line(p: ParsedSlashCommand, l: Seq<u8>) -> bool {
    match line_parse(l) {
        None => false,
        Some((c, ts, te, sel)) => {
            &&& p.command == c
            &&& p.focus_text@ == focus_of(l, ts, te, sel)
            &&& match sel {
                None => p.selector is None,
                Some((s, e)) => p.selector matches Some(x) && x@ == decode_utf8(l.subrange(s, e)),
            }
        },
    }
}

/// The command line's text with the token and selector cut out, trimmed.
fn focus_text_of(line: &str, ts: usize, te: usize, sel: Option<(usize, usize)>) -> (r: String)
    requires
        is_first_command(utf8(line@), ts as int),
        command_at(utf8(line@), ts as int) matches Some(c) && te == ts + token_bytes(c).len(),
        match sel {
            None => selector_after(utf8(line@), te as int) is None,
            Some((s, e)) => is_selector(utf8(line@), te as int, s as int, e as int),
        },
    ensures
        r@ == focus_of(utf8(line@), ts as int, te as int, match sel {
            None => None,
            Some((s, e)) => Some((s as int, e as int)),
        }),
{
    let ghost b = utf8(line@);
    proof {
        encode_utf8_valid_utf8(line@);
        lemma_ascii_boundary(b, 0);
        lemma_ascii_boundary(b, ts as int);
        lemma_ascii_boundary(b, te as int);
        lemma_ascii_boundary(b, b.len() as int);
    }
    let n = line.as_bytes().len();
    let head = slice_str(line, 0, ts);
    match sel {
        None => {
            let tail = slice_str(line, te, n);
            let joined = concat(head, tail);
            trim_string(joined.as_str())
        },
        Some((s, e)) => {
            proof {
                lemma_ascii_boundary(b, s as int);
                lemma_ascii_boundary(b, e as int);
            }
            let mid = slice_str(line, te, s);
            let tail = slice_str(line, e, n);
            let first = concat(head, mid);
            let joined = concat(first.as_str(), tail);
            trim_string(joined.as_str())
        },
    }
}

/// Parses a slash command from a Markdown block: the first line, in document
/// order, that holds a registry command. Excluded blocks (front matter, code
/// fences, HTML) never yield one. Offsets are relative to the block text.
pub fn parse_slash_command_in_block(block: &MarkdownBlock) -> (r: Option<ParsedSlashCommand>)
    ensures
        block.excluded ==> r is None,
        !block.excluded ==> match r {
            None => forall|s: int, e: int|
                is_line(utf8(block.text@), s, e) ==> line_parse(utf8(block.text@).subrange(s, e)) is None,
            Some(p) => {
                &&& is_line(utf8(block.text@), p.line_start as int, p.line_end as int)
                &&& forall|s: int, e: int|
                    is_line(utf8(block.text@), s, e) && s < p.line_start ==> line_parse(
                        utf8(block.text@).subrange(s, e),
                    ) is None
                &&& parsed_from_line(p, utf8(block.text@).subrange(p.line_start as int, p.line_end as int))
                &&& p.block_hash@ == block.block_hash@
                &&& is_char_boundary(utf8(block.text@), p.line_start as int)
                &&& is_char_boundary(utf8(block.text@), p.line_end as int)
            },
        },
{
    if block.excluded {
        return None;
    }
    let text = block.text.as_str();
    let b = text.as_bytes();
    let ghost bb = utf8(block.text@);
    proof {
        encode_utf8_valid_utf8(block.text@);
    }
    let mut ls: usize = 0;
    let mut done = false;
    while !done && ls < b.len()
        invariant
            !block.excluded,
            done ==> forall|s: int, e: int| is_line(bb, s, e) ==> line_parse(bb.subrange(s, e)) is None,
            b@ == bb,
            text@ == block.text@,
            bb == utf8(block.text@),
            valid_utf8(bb),
            ls <= b.len(),
            ls == 0 || b@[ls - 1] == 10,
            is_char_boundary(bb, ls as int),
            forall|s: int, e: int| is_line(bb, s, e) && s < ls ==> line_parse(bb.subrange(s, e)) is None,
        decreases b.len() - ls + if done { 0int } else { 1int },
    {
        let mut le = ls;
        while le < b.len() && b[le] != 10
            invariant
                ls <= le <= b.len(),
                b@ == bb,
                forall|k: int| ls <= k < le ==> bb[k] != 10,
            decreases b.len() - le,
        {
            le = le + 1;
        }
        proof {
            lemma_ascii_boundary(bb, le as int);
        }
        assert(is_char_boundary(bb, le as int));
        let line = slice_str(text, ls, le);
        assert(is_line(bb, ls as int, le as int));
        match parse_slash_command_in_line(line) {
            Some(lc) => {
                let focus = focus_text_of(line, lc.token_start, lc.token_end, lc.selector_span);
                let selector = match lc.selector {
                    Some(t) => {
                        let owned = t.to_owned();
                        proof {
                            encode_utf8_decode_utf8(t@);
                        }
                        Some(owned)
                    },
                    None => None,
                };
                proof {
                    assert forall|s: int, e: int| is_line(bb, s, e) && s < ls implies line_parse(
                        bb.subrange(s, e),
                    ) is None by {}
                }
                return Some(
                    ParsedSlashCommand {
                        command: lc.command,
                        focus_text: focus,
                        selector,
                        line_start: ls,
                        line_end: le,
                        block_hash: block.block_hash.clone(),
                    },
                );
            },
            None => {},
        }
        proof {
            assert forall|s: int, e: int| is_line(bb, s, e) && s < le + 1 implies line_parse(bb.subrange(s, e)) is None by {
                if s > ls {
                    assert(bb[s - 1] != 10);
                } else if s == ls {
                    if e < le {
                        assert(bb[e] != 10);
                    } else if e > le && le < bb.len() {
                        assert(bb[le as int] != 10);
                    }
                }
            }
        }
        if le >= b.len() {
            done = true;
        } else {
            proof {
                lemma_ascii_boundary(bb, le as int);
                lemma_boundary_after_ascii(bb, le as int);
            }
            ls = le + 1;
        }
    }
    proof {
        assert forall|s: int, e: int| is_line(bb, s, e) implies line_parse(bb.subrange(s, e)) is None by {
        }
    }
    None
}


/// Where a command applies: for inline commands, the command line's byte span
/// within the containing file.
#[derive(Debug, Clone, PartialEq, Eq)]
pub struct FocusRef {
    pub file: Option<String>,
    pub block_hash: String,
    pub start: usize,
    pub end: usize,
}

/// The command envelope: the uniform payload every command produces.
#[derive(Debug, Clone, PartialEq, Eq)]
pub struct CommandEnvelope {
    pub command: SlashCommand,
    pub trigger: Trigger,
    pub scope: String,
    pub focus_ref: FocusRef,
    pub focus_text: String,
    pub selector: Option<String>,
    pub output_schema_version: u32,
}

/// Builds the inline-command envelope for a parsed command: scope "line",
/// trigger `Inline`, schema version 1, and the command line's file-relative
/// byte span.
pub fn build_inline_envelope(
    block: &MarkdownBlock,
    parsed: &ParsedSlashCommand,
    file_path: Option<&str>,
) -> (r: CommandEnvelope)
    requires
        block.start + parsed.line_start <= usize::MAX,
        block.start + parsed.line_end <= usize::MAX,
    ensures
        r.command == parsed.command,
        r.trigger == Trigger::Inline,
        r.scope@ == "line"@,
        opt_view(r.focus_ref.file) == match file_path {
            Some(p) => Some(p@),
            None => None::<Seq<char>>,
        },
        r.focus_ref.block_hash@ == parsed.block_hash@,
        r.focus_ref.start == block.start + parsed.line_start,
        r.focus_ref.end == block.start + parsed.line_end,
        r.focus_text@ == parsed.focus_text@,
        opt_view(r.selector) == opt_view(parsed.selector),
        r.output_schema_version == 1,
{
    let file = match file_path {
        Some(p) => Some(p.to_owned()),
        None => None,
    };
    let selector = match &parsed.selector {
        Some(s) => Some(s.clone()),
        None => None,
    };
    CommandEnvelope {
        command: parsed.command,
        trigger: Trigger::Inline,
        scope: "line".to_owned(),
        focus_ref: FocusRef {
            file,
            block_hash: parsed.block_hash.clone(),
            start: block.start + parsed.line_start,
            end: block.start + parsed.line_end,
        },
        focus_text: parsed.focus_text.clone(),
        selector,
        output_schema_version: 1,
    }
}

/// The snake_case name of a command in task identities.
pub open spec fn command_name(c: SlashCommand) -> Seq<char> {
    match c {
        SlashCommand::FactCheck => "fact_check"@,
        SlashCommand::Research => "research"@,
        SlashCommand::Ignore => "ignore"@,
    }
}

/// The identity text of an inline command: block hash, command name, focus
/// text and scope, joined with ':'.
pub open spec fn inline_identity(e: CommandEnvelope) -> Seq<char> {
    e.focus_ref.block_hash@ + ":"@ + command_name(e.command) + ":"@ + e.focus_text@ + ":"@ + e.scope@
}

/// Task identity for an inline command: the stable hash of the block hash,
/// the command name, the focus text, and the scope, with every
/// non-alphanumeric character turned into '_'.
pub fn inline_task_id(envelope: &CommandEnvelope) -> (r: String)
    ensures
        r@ == underscored(spec_stable_hash(inline_identity(*envelope))),
{
    let command_name = match envelope.command {
        SlashCommand::FactCheck => "fact_check",
        SlashCommand::Research => "research",
        SlashCommand::Ignore => "ignore",
    };
    let a = concat(envelope.focus_ref.block_hash.as_str(), ":");
    let b = concat(a.as_str(), command_name);
    let c = concat(b.as_str(), ":");
    let d = concat(c.as_str(), envelope.focus_text.as_str());
    let e = concat(d.as_str(), ":");
    let identity = concat(e.as_str(), envelope.scope.as_str());
    let hash = stable_hash(identity.as_str());
    underscore_non_alnum(hash.as_str())
}


/// `b[s..e]` is the first line of `b` that holds a command.
pub open spec fn is_command_line(b: Seq<u8>, s: int, e: int) -> bool {
    &&& is_line(b, s, e)
    &&& line_parse(b.subrange(s, e)) is Some
    &&& forall|s2: int, e2: int| is_line(b, s2, e2) && s2 < s ==> line_parse(b.subrange(s2, e2)) is None
}

/// A line start determines its line end.
pub proof fn lemma_line_end_unique(b: Seq<u8>, s: int, e: int, e2: int)
    requires
        is_line(b, s, e),
        is_line(b, s, e2),
    ensures
        e == e2,
{
    if e < e2 {
        assert(b[e] != 10);
    } else if e2 < e {
        assert(b[e2] != 10);
    }
}

/// There is at most one first command line.
pub proof fn lemma_command_line_unique(b: Seq<u8>, s: int, e: int, s2: int, e2: int)
    requires
        is_command_line(b, s, e),
        is_command_line(b, s2, e2),
    ensures
        s == s2 && e == e2,
{
    if s < s2 {
        assert(line_parse(b.subrange(s, e)) is None);
    } else if s2 < s {
        assert(line_parse(b.subrange(s2, e2)) is None);
    }
    lemma_line_end_unique(b, s, e, e2);
}

/// What `parse_slash_command_in_block` finds: nothing for an excluded block
/// or one without a command line, else its first command line.
pub proof fn lemma_parsed_block(block: MarkdownBlock, r: Option<ParsedSlashCommand>)
    requires
        block.excluded ==> r is None,
        !block.excluded ==> match r {
            None => forall|s: int, e: int|
                is_line(utf8(block.text@), s, e) ==> line_parse(utf8(block.text@).subrange(s, e)) is None,
            Some(p) => {
                &&& is_line(utf8(block.text@), p.line_start as int, p.line_end as int)
                &&& forall|s: int, e: int|
                    is_line(utf8(block.text@), s, e) && s < p.line_start ==> line_parse(
                        utf8(block.text@).subrange(s, e),
                    ) is None
                &&& parsed_from_line(p, utf8(block.text@).subrange(p.line_start as int, p.line_end as int))
            },
        },
    ensures
        r is None <==> (block.excluded || forall|s: int, e: int| !is_command_line(utf8(block.text@), s, e)),
        r matches Some(p) ==> is_command_line(utf8(block.text@), p.line_start as int, p.line_end as int),
{
    let b = utf8(block.text@);
    match r {
        Some(p) => {
            let l = b.subrange(p.line_start as int, p.line_end as int);
            assert(line_parse(l) is Some);
            assert(is_command_line(b, p.line_start as int, p.line_end as int));
        },
        None => {},
    }
}

} // verus!
