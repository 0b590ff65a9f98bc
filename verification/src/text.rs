//! Character and string helpers shared by the rest of the library.

use vstd::prelude::*;
use vstd::std_specs::iter::IteratorSpec;
use vstd::utf8::*;
use vstd::string::StringSliceAdditionalSpecFns;

verus! {

broadcast use vstd::string::group_string_axioms;

/// The Unicode `White_Space` property, which `char::is_whitespace` reports:
/// U+0009 to U+000D, U+0020, U+0085, U+00A0, U+1680, U+2000 to U+200A,
/// U+2028, U+2029, U+202F, U+205F and U+3000.
pub open spec fn char_is_whitespace(c: char) -> bool {
    let n = c as u32;
    ||| 0x09 <= n <= 0x0D
    ||| n == 0x20
    ||| n == 0x85
    ||| n == 0xA0
    ||| n == 0x1680
    ||| 0x2000 <= n <= 0x200A
    ||| n == 0x2028
    ||| n == 0x2029
    ||| n == 0x202F
    ||| n == 0x205F
    ||| n == 0x3000
}

/// Whether a character is Unicode white space, computed from the property's
/// code points.
pub(crate) fn is_whitespace(c: char) -> (r: bool)
    ensures
        r == char_is_whitespace(c),
{
    let n = c as u32;
    (0x09 <= n && n <= 0x0D) || n == 0x20 || n == 0x85 || n == 0xA0 || n == 0x1680
        || (0x2000 <= n && n <= 0x200A) || n == 0x2028 || n == 0x2029 || n == 0x202F || n == 0x205F
        || n == 0x3000
}

/// Unicode `Alphabetic` or `Numeric` property of a character, as
/// `char::is_alphanumeric` reports it.
pub uninterp spec fn char_is_alphanumeric(c: char) -> bool;

/// An ASCII letter or digit.
pub open spec fn is_ascii_alnum(c: char) -> bool {
    ||| 'a' <= c <= 'z'
    ||| 'A' <= c <= 'Z'
    ||| '0' <= c <= '9'
}

/// The ASCII lowercase of a character: `A` to `Z` move to `a` to `z`,
/// every other character stays.
pub open spec fn ascii_lower(c: char) -> char {
    if 'A' <= c <= 'Z' {
        ((c as u32) + 32) as char
    } else {
        c
    }
}

/// Calls `char::is_alphanumeric`; the result is named `char_is_alphanumeric`.
/// Of an ASCII character it is whether it is a letter or a digit, the only
/// ASCII characters with the `Alphabetic` or `Numeric` property.
#[verifier::external_body]
pub(crate) fn is_alphanumeric(c: char) -> (r: bool)
    ensures
        r == char_is_alphanumeric(c),
        (c as u32) < 128 ==> (r <==> is_ascii_alnum(c)),
{
    c.is_alphanumeric()
}

/// The full Unicode lowercase mapping of a string, as `str::to_lowercase`
/// computes it.
pub uninterp spec fn str_lowercase(s: Seq<char>) -> Seq<char>;

/// Calls `str::to_lowercase`; the result is named `str_lowercase` of the
/// argument's characters. Of an all-ASCII string it is the string with each
/// uppercase letter lowered, since the Unicode lowercase mapping of an ASCII
/// character is its ASCII lowercase.
#[verifier::external_body]
pub(crate) fn to_lowercase(s: &str) -> (r: String)
    ensures
        r@ == str_lowercase(s@),
        (forall|i: int| 0 <= i < s@.len() ==> (#[trigger] s@[i] as u32) < 128) ==> r@ == s@.map_values(
            |c: char| ascii_lower(c),
        ),
{
    s.to_lowercase()
}

/// Calls `String::push`: the string gains `c` at its end.
#[verifier::external_body]
pub(crate) fn push_char(s: &mut String, c: char)
    ensures
        final(s)@ == old(s)@.push(c),
{
    s.push(c)
}

/// The characters of a string slice, in order.
pub fn chars_of(s: &str) -> (v: Vec<char>)
    ensures
        v@ == s@,
{
    let mut v: Vec<char> = Vec::new();
    for c in iter: s.chars()
        invariant
            v@ == iter.seq().take(iter.index() as int),
    {
        v.push(c);
    }
    assert(v@ =~= s@);
    v
}

/// A string holding exactly the characters `cs[from..to]`.
pub fn string_from_chars(cs: &Vec<char>, from: usize, to: usize) -> (r: String)
    requires
        from <= to <= cs.len(),
    ensures
        r@ == cs@.subrange(from as int, to as int),
{
    let mut r = String::new();
    let mut i: usize = from;
    while i < to
        invariant
            from <= i <= to <= cs.len(),
            r@ == cs@.subrange(from as int, i as int),
        decreases to - i,
    {
        push_char(&mut r, cs[i]);
        i = i + 1;
        assert(r@ =~= cs@.subrange(from as int, i as int));
    }
    r
}

/// A string holding exactly the given characters.
pub fn string_of(cs: &Vec<char>) -> (r: String)
    ensures
        r@ == cs@,
{
    let r = string_from_chars(cs, 0, cs.len());
    assert(cs@.subrange(0, cs@.len() as int) =~= cs@);
    r
}

/// `s` without a leading `prefix`, or `s` itself when it does not start
/// with `prefix`.
pub open spec fn strip_prefix_of(s: Seq<char>, prefix: Seq<char>) -> Seq<char> {
    if prefix.is_prefix_of(s) {
        s.skip(prefix.len() as int)
    } else {
        s
    }
}

/// Removes a leading `prefix` from `s` when it is there.
pub fn strip_prefix_str(s: &str, prefix: &str) -> (r: String)
    ensures
        r@ == strip_prefix_of(s@, prefix@),
{
    let cs = chars_of(s);
    let ps = chars_of(prefix);
    if ps.len() > cs.len() {
        return string_of(&cs);
    }
    let mut i: usize = 0;
    while i < ps.len()
        invariant
            i <= ps@.len() <= cs@.len(),
            cs@ == s@,
            ps@ == prefix@,
            forall|j: int| 0 <= j < i ==> cs@[j] == ps@[j],
        decreases ps@.len() - i,
    {
        if cs[i] != ps[i] {
            return string_of(&cs);
        }
        i = i + 1;
    }
    assert(prefix@.is_prefix_of(s@)) by {
        assert(s@.take(prefix@.len() as int) =~= prefix@);
    }
    let r = string_from_chars(&cs, ps.len(), cs.len());
    assert(r@ =~= s@.skip(prefix@.len() as int));
    r
}

/// A fresh string equal to `a` followed by `b`.
pub fn concat(a: &str, b: &str) -> (r: String)
    ensures
        r@ == a@ + b@,
{
    let mut r = a.to_owned();
    r.append(b);
    r
}

/// Whether two string slices hold the same characters.
pub fn str_eq(a: &str, b: &str) -> (r: bool)
    ensures
        r == (a@ == b@),
{
    let ab = a.as_bytes();
    let bb = b.as_bytes();
    proof {
        encode_utf8_decode_utf8(a@);
        encode_utf8_decode_utf8(b@);
    }
    if ab.len() != bb.len() {
        return false;
    }
    let mut i: usize = 0;
    while i < ab.len()
        invariant
            ab.len() == bb.len(),
            i <= ab.len(),
            ab@ == a.spec_bytes(),
            bb@ == b.spec_bytes(),
            forall|k: int| 0 <= k < i ==> ab@[k] == bb@[k],
        decreases ab.len() - i,
    {
        if ab[i] != bb[i] {
            return false;
        }
        i = i + 1;
    }
    assert(ab@ =~= bb@);
    true
}

/// The view of an optional string.
pub open spec fn opt_view(s: Option<String>) -> Option<Seq<char>> {
    match s {
        Some(x) => Some(x@),
        None => None,
    }
}

/// Whether a string has no characters.
pub fn is_empty_str(s: &str) -> (r: bool)
    ensures
        r == (s@.len() == 0),
{
    s.is_empty()
}

// ---------------------------------------------------------------------------
// Byte-wise lexicographic order, the order of `str`'s `Ord` impl.

/// `a` sorts strictly before `b` byte by byte.
pub open spec fn bytes_lt(a: Seq<u8>, b: Seq<u8>) -> bool
    decreases a.len(),
{
    if b.len() == 0 {
        false
    } else if a.len() == 0 {
        true
    } else if a[0] < b[0] {
        true
    } else if a[0] > b[0] {
        false
    } else {
        bytes_lt(a.drop_first(), b.drop_first())
    }
}

/// The UTF-8 bytes of a character sequence.
pub open spec fn utf8(s: Seq<char>) -> Seq<u8> {
    encode_utf8(s)
}

/// Strings sort by the byte order of their UTF-8 encodings.
pub open spec fn str_lt(a: Seq<char>, b: Seq<char>) -> bool {
    bytes_lt(utf8(a), utf8(b))
}

pub proof fn lemma_bytes_lt_irreflexive(a: Seq<u8>)
    ensures
        !bytes_lt(a, a),
    decreases a.len(),
{
    if a.len() > 0 {
        lemma_bytes_lt_irreflexive(a.drop_first());
    }
}

pub proof fn lemma_bytes_lt_transitive(a: Seq<u8>, b: Seq<u8>, c: Seq<u8>)
    requires
        bytes_lt(a, b),
        bytes_lt(b, c),
    ensures
        bytes_lt(a, c),
    decreases a.len(),
{
    if a.len() > 0 && b.len() > 0 && c.len() > 0 && a[0] == b[0] && b[0] == c[0] {
        lemma_bytes_lt_transitive(a.drop_first(), b.drop_first(), c.drop_first());
    }
}

pub proof fn lemma_bytes_lt_total(a: Seq<u8>, b: Seq<u8>)
    ensures
        a == b || bytes_lt(a, b) || bytes_lt(b, a),
    decreases a.len(),
{
    if a.len() > 0 && b.len() > 0 && a[0] == b[0] {
        lemma_bytes_lt_total(a.drop_first(), b.drop_first());
        if a.drop_first() == b.drop_first() {
            assert(a =~= seq![a[0]] + a.drop_first());
            assert(b =~= seq![b[0]] + b.drop_first());
        }
    } else if a.len() == 0 && b.len() == 0 {
        assert(a =~= b);
    }
}

pub proof fn lemma_bytes_lt_asymmetric(a: Seq<u8>, b: Seq<u8>)
    requires
        bytes_lt(a, b),
    ensures
        !bytes_lt(b, a),
{
    if bytes_lt(b, a) {
        lemma_bytes_lt_transitive(a, b, a);
        lemma_bytes_lt_irreflexive(a);
    }
}

/// Byte-wise comparison of two slices: whether `a` sorts strictly before `b`.
pub fn slice_lt(a: &[u8], b: &[u8]) -> (r: bool)
    ensures
        r == bytes_lt(a@, b@),
{
    let mut i: usize = 0;
    assert(a@.skip(0) =~= a@);
    assert(b@.skip(0) =~= b@);
    while i < a.len() && i < b.len()
        invariant
            i <= a.len(),
            i <= b.len(),
            a@.subrange(0, i as int) == b@.subrange(0, i as int),
            bytes_lt(a@, b@) == bytes_lt(a@.skip(i as int), b@.skip(i as int)),
        decreases a.len() - i,
    {
        if a[i] < b[i] {
            return true;
        }
        if a[i] > b[i] {
            return false;
        }
        assert(a@.skip(i as int).drop_first() =~= a@.skip(i + 1));
        assert(b@.skip(i as int).drop_first() =~= b@.skip(i + 1));
        assert(a@.subrange(0, i + 1) =~= a@.subrange(0, i as int).push(a@[i as int]));
        assert(b@.subrange(0, i + 1) =~= b@.subrange(0, i as int).push(b@[i as int]));
        i = i + 1;
    }
    i < b.len()
}

/// Whether the string `a` sorts strictly before `b`.
pub fn string_lt(a: &String, b: &String) -> (r: bool)
    ensures
        r == str_lt(a@, b@),
{
    let sa = a.as_str();
    let sb = b.as_str();
    slice_lt(sa.as_bytes(), sb.as_bytes())
}

/// The views of a vector of strings.
pub open spec fn views(v: Seq<String>) -> Seq<Seq<char>> {
    v.map_values(|s: String| s@)
}

/// The views of a list with one more string.
pub proof fn lemma_views_push(v: Seq<String>, s: String)
    ensures
        views(v.push(s)) == views(v).push(s@),
{
    assert(views(v.push(s)) =~= views(v).push(s@));
}

/// Mapping over one more element of a prefix.
pub proof fn lemma_take_map_push<A, B>(v: Seq<A>, k: int, f: spec_fn(A) -> B)
    requires
        0 <= k < v.len(),
    ensures
        v.take(k + 1).map_values(f) == v.take(k).map_values(f).push(f(v[k])),
{
    assert(v.take(k + 1).map_values(f) =~= v.take(k).map_values(f).push(f(v[k])));
}

/// Strictly increasing in byte order, hence also free of duplicates.
pub open spec fn strictly_sorted(v: Seq<Seq<char>>) -> bool {
    forall|i: int, j: int| 0 <= i < j < v.len() ==> str_lt(#[trigger] v[i], #[trigger] v[j])
}

pub proof fn lemma_push_to_set<A>(s: Seq<A>, a: A)
    ensures
        s.push(a).to_set() == s.to_set().insert(a),
{
    assert forall|y| s.push(a).to_set().contains(y) <==> s.to_set().insert(a).contains(y) by {
        if s.push(a).contains(y) {
            let i = choose|i: int| 0 <= i < s.push(a).len() && s.push(a)[i] == y;
            if i < s.len() {
                assert(s[i] == y);
            }
        }
        if s.contains(y) {
            let i = choose|i: int| 0 <= i < s.len() && s[i] == y;
            assert(s.push(a)[i] == y);
        }
        if y == a {
            assert(s.push(a)[s.len() as int] == y);
        }
    }
    assert(s.push(a).to_set() =~= s.to_set().insert(a));
}

/// Sorts a list of strings by byte order and drops duplicates, as `sort`
/// followed by `dedup` does.
pub fn sort_dedup(items: &[String]) -> (r: Vec<String>)
    ensures
        strictly_sorted(views(r@)),
        views(r@).to_set() == views(items@).to_set(),
{
    let mut r: Vec<String> = Vec::new();
    let mut k: usize = 0;
    while k < items.len()
        invariant
            k <= items.len(),
            strictly_sorted(views(r@)),
            views(r@).to_set() == views(items@.subrange(0, k as int)).to_set(),
        decreases items.len() - k,
    {
        let x = &items[k];
        let mut p: usize = 0;
        while p < r.len() && string_lt(&r[p], x)
            invariant
                p <= r.len(),
                forall|i: int| 0 <= i < p ==> str_lt(#[trigger] views(r@)[i], x@),
            decreases r.len() - p,
        {
            p = p + 1;
        }
        let ghost old_r = views(r@);
        proof {
            assert(views(items@.subrange(0, k + 1)) =~= views(items@.subrange(0, k as int)).push(x@));
            lemma_push_to_set(views(items@.subrange(0, k as int)), x@);
        }
        let dup = p < r.len() && str_eq(r[p].as_str(), x.as_str());
        if !dup {
            proof {
                if p < r.len() {
                    lemma_bytes_lt_total(utf8(r@[p as int]@), utf8(x@));
                    encode_utf8_decode_utf8(r@[p as int]@);
                    encode_utf8_decode_utf8(x@);
                    assert(bytes_lt(utf8(x@), utf8(old_r[p as int])));
                }
            }
            r.insert(p, x.clone());
            proof {
                assert(views(r@) =~= old_r.insert(p as int, x@));
                assert forall|i: int, j: int| 0 <= i < j < views(r@).len() implies str_lt(
                    #[trigger] views(r@)[i],
                    #[trigger] views(r@)[j],
                ) by {
                    if j == p {
                    } else if i == p {
                        if j > p + 1 {
                            lemma_bytes_lt_transitive(utf8(x@), utf8(old_r[p as int]), utf8(old_r[j - 1]));
                        }
                    } else if i < p && j > p {
                        if j - 1 > p {
                            lemma_bytes_lt_transitive(utf8(x@), utf8(old_r[p as int]), utf8(old_r[j - 1]));
                        }
                        lemma_bytes_lt_transitive(utf8(old_r[i]), utf8(x@), utf8(old_r[j - 1]));
                    }
                }
                assert(views(r@).to_set() =~= old_r.to_set().insert(x@)) by {
                    assert forall|y| views(r@).to_set().contains(y) <==> old_r.to_set().insert(x@).contains(y) by {
                        if views(r@).contains(y) {
                            let i = choose|i: int| 0 <= i < views(r@).len() && views(r@)[i] == y;
                            if i < p { assert(old_r[i] == y); } else if i > p { assert(old_r[i - 1] == y); }
                        }
                        if old_r.contains(y) {
                            let i = choose|i: int| 0 <= i < old_r.len() && old_r[i] == y;
                            if i < p { assert(views(r@)[i] == y); } else { assert(views(r@)[i + 1] == y); }
                        }
                        if y == x@ { assert(views(r@)[p as int] == y); }
                    }
                }
            }
        } else {
            proof {
                assert(old_r.to_set() =~= old_r.to_set().insert(x@)) by {
                    assert(old_r[p as int] == x@);
                }
            }
        }
        assert(views(r@).to_set() == views(items@.subrange(0, k + 1)).to_set());
        k = k + 1;
    }
    proof {
        assert(items@.subrange(0, items@.len() as int) =~= items@);
    }
    r
}

// ---------------------------------------------------------------------------
// Joining, whitespace runs, trimming.

/// `parts` joined with `sep` between neighbours, as `join` builds it.
pub open spec fn seq_join(parts: Seq<Seq<char>>, sep: Seq<char>) -> Seq<char>
    decreases parts.len(),
{
    if parts.len() == 0 {
        Seq::empty()
    } else if parts.len() == 1 {
        parts[0]
    } else {
        seq_join(parts.drop_last(), sep) + sep + parts.last()
    }
}

/// Joins strings with a separator.
pub fn join(parts: &[String], sep: &str) -> (r: String)
    ensures
        r@ == seq_join(views(parts@), sep@),
{
    let mut r = String::new();
    let mut i: usize = 0;
    while i < parts.len()
        invariant
            i <= parts.len(),
            r@ == seq_join(views(parts@.subrange(0, i as int)), sep@),
        decreases parts.len() - i,
    {
        let ghost prev = views(parts@.subrange(0, i as int));
        if i > 0 {
            r.append(sep);
        }
        r.append(parts[i].as_str());
        proof {
            let next = views(parts@.subrange(0, i + 1));
            assert(next.drop_last() =~= prev);
            if i == 0 {
                assert(r@ =~= next[0]);
            }
        }
        i = i + 1;
    }
    assert(parts@.subrange(0, parts@.len() as int) =~= parts@);
    r
}

/// ASCII whitespace as `char::is_ascii_whitespace` defines it.
pub open spec fn is_ascii_ws_char(c: char) -> bool {
    c == ' ' || c == '\t' || c == '\n' || c == '\x0C' || c == '\r'
}

/// The separator test of a word split: ASCII whitespace or Unicode whitespace.
pub open spec fn is_sep(c: char, ascii: bool) -> bool {
    if ascii {
        is_ascii_ws_char(c)
    } else {
        char_is_whitespace(c)
    }
}

fn sep(c: char, ascii: bool) -> (r: bool)
    ensures
        r == is_sep(c, ascii),
{
    if ascii {
        c == ' ' || c == '\t' || c == '\n' || c == '\x0C' || c == '\r'
    } else {
        is_whitespace(c)
    }
}

/// The maximal runs of characters that are not separators, in order.
pub open spec fn words_by(s: Seq<char>, ascii: bool) -> Seq<Seq<char>>
    decreases s.len(),
{
    if s.len() == 0 {
        Seq::empty()
    } else if is_sep(s.last(), ascii) {
        words_by(s.drop_last(), ascii)
    } else if s.len() >= 2 && !is_sep(s[s.len() - 2], ascii) {
        let w = words_by(s.drop_last(), ascii);
        w.update(w.len() - 1, w.last().push(s.last()))
    } else {
        words_by(s.drop_last(), ascii).push(seq![s.last()])
    }
}

/// The words of `s` as `str::split_whitespace` yields them.
pub open spec fn words(s: Seq<char>) -> Seq<Seq<char>> {
    words_by(s, false)
}

/// The words of `s` as `str::split_ascii_whitespace` yields them.
pub open spec fn ascii_words(s: Seq<char>) -> Seq<Seq<char>> {
    words_by(s, true)
}

/// Splits a string into its maximal runs of non-separator characters.
fn split_words(s: &str, ascii: bool) -> (r: Vec<String>)
    ensures
        views(r@) == words_by(s@, ascii),
{
    let cs = chars_of(s);
    let mut done: Vec<String> = Vec::new();
    let mut cur: Vec<char> = Vec::new();
    let mut i: usize = 0;
    while i < cs.len()
        invariant
            i <= cs.len(),
            cs@ == s@,
            cur@.len() > 0 <==> (i > 0 && !is_sep(cs@[i - 1], ascii)),
            cur@.len() > 0 ==> words_by(cs@.subrange(0, i as int), ascii) == views(done@).push(cur@),
            cur@.len() == 0 ==> words_by(cs@.subrange(0, i as int), ascii) == views(done@),
        decreases cs.len() - i,
    {
        let c = cs[i];
        let ghost pre = cs@.subrange(0, i as int);
        let ghost post = cs@.subrange(0, i + 1);
        assert(post.drop_last() =~= pre);
        assert(post.last() == c);
        if sep(c, ascii) {
            if cur.len() > 0 {
                let w = string_of(&cur);
                done.push(w);
                cur = Vec::new();
                assert(views(done@) =~= words_by(pre, ascii));
            }
        } else {
            if cur.len() > 0 {
                assert(post[post.len() - 2] == cs@[i - 1]);
                let ghost w = words_by(pre, ascii);
                cur.push(c);
                assert(views(done@).push(cur@) =~= w.update(w.len() - 1, w.last().push(c)));
            } else {
                cur.push(c);
                assert(cur@ =~= seq![c]);
            }
        }
        i = i + 1;
    }
    if cur.len() > 0 {
        let w = string_of(&cur);
        done.push(w);
    }
    assert(cs@.subrange(0, cs@.len() as int) =~= s@);
    assert(views(done@) =~= words_by(s@, ascii));
    done
}

/// Splits a string at Unicode whitespace into its words.
pub fn split_whitespace(s: &str) -> (r: Vec<String>)
    ensures
        views(r@) == words(s@),
{
    split_words(s, false)
}

/// Splits a string at ASCII whitespace into its words.
pub fn split_ascii_whitespace(s: &str) -> (r: Vec<String>)
    ensures
        views(r@) == ascii_words(s@),
{
    split_words(s, true)
}

/// Leading Unicode whitespace removed.
pub open spec fn trim_start(s: Seq<char>) -> Seq<char>
    decreases s.len(),
{
    if s.len() > 0 && char_is_whitespace(s[0]) {
        trim_start(s.drop_first())
    } else {
        s
    }
}

/// Trailing Unicode whitespace removed.
pub open spec fn trim_end(s: Seq<char>) -> Seq<char>
    decreases s.len(),
{
    if s.len() > 0 && char_is_whitespace(s.last()) {
        trim_end(s.drop_last())
    } else {
        s
    }
}

/// Leading and trailing Unicode whitespace removed, as `str::trim` does.
pub open spec fn trim(s: Seq<char>) -> Seq<char> {
    trim_end(trim_start(s))
}

/// Removes leading and trailing Unicode whitespace.
pub fn trim_string(s: &str) -> (r: String)
    ensures
        r@ == trim(s@),
{
    let cs = chars_of(s);
    let n = cs.len();
    let mut i: usize = 0;
    assert(cs@.subrange(0, n as int) =~= cs@);
    while i < n && is_whitespace(cs[i])
        invariant
            i <= n == cs.len(),
            cs@ == s@,
            trim_start(s@) == trim_start(cs@.subrange(i as int, n as int)),
        decreases n - i,
    {
        assert(cs@.subrange(i as int, n as int).drop_first() =~= cs@.subrange(i + 1, n as int));
        i = i + 1;
    }
    let mut j: usize = n;
    while j > i && is_whitespace(cs[j - 1])
        invariant
            i <= j <= n == cs.len(),
            cs@ == s@,
            trim(s@) == trim_end(cs@.subrange(i as int, j as int)),
        decreases j - i,
    {
        assert(cs@.subrange(i as int, j as int).drop_last() =~= cs@.subrange(i as int, j - 1));
        j = j - 1;
    }
    string_from_chars(&cs, i, j)
}

/// Whether every character is Unicode whitespace (the trimmed text is empty).
pub fn is_blank(s: &str) -> (r: bool)
    ensures
        r == (trim(s@).len() == 0),
{
    let t = trim_string(s);
    t.as_str().is_empty()
}

/// A general category `Cc` control character, as `char::is_control` reports it.
pub open spec fn is_control_char(c: char) -> bool {
    (c as u32) <= 0x1f || (0x7f <= (c as u32) && (c as u32) <= 0x9f)
}

/// Whether a character is a control character.
pub fn is_control(c: char) -> (r: bool)
    ensures
        r == is_control_char(c),
{
    let u = c as u32;
    u <= 0x1f || (0x7f <= u && u <= 0x9f)
}

/// The characters of `s` that are not control characters, in order.
pub open spec fn drop_controls(s: Seq<char>) -> Seq<char> {
    s.filter(|c: char| !is_control_char(c))
}

/// At most the first `n` characters.
pub open spec fn take_chars(s: Seq<char>, n: nat) -> Seq<char> {
    if s.len() <= n {
        s
    } else {
        s.take(n as int)
    }
}

/// Keeps the characters that are not control characters, up to `cap` of them.
pub fn strip_controls_and_cap(s: &str, cap: usize) -> (r: String)
    ensures
        r@ == take_chars(drop_controls(s@), cap as nat),
{
    let cs = chars_of(s);
    let mut r = String::new();
    let mut count: usize = 0;
    let mut i: usize = 0;
    while i < cs.len()
        invariant
            i <= cs.len(),
            cs@ == s@,
            count == r@.len(),
            count <= cap,
            r@ == take_chars(drop_controls(cs@.subrange(0, i as int)), cap as nat),
        decreases cs.len() - i,
    {
        let c = cs[i];
        let ghost pre = cs@.subrange(0, i as int);
        assert(cs@.subrange(0, i + 1) =~= pre.push(c));
        proof {
            pre.lemma_filter_push(c, |c: char| !is_control_char(c));
        }
        if !is_control(c) && count < cap {
            push_char(&mut r, c);
            count = count + 1;
        }
        i = i + 1;
    }
    assert(cs@.subrange(0, cs@.len() as int) =~= s@);
    r
}

/// At most the first `cap` characters of a string.
pub fn cap_chars(s: &str, cap: usize) -> (r: String)
    ensures
        r@ == take_chars(s@, cap as nat),
{
    let cs = chars_of(s);
    if cs.len() <= cap {
        string_of(&cs)
    } else {
        let r = string_from_chars(&cs, 0, cap);
        assert(cs@.subrange(0, cap as int) =~= cs@.take(cap as int));
        r
    }
}


/// Every character that is not alphanumeric replaced by '_'.
pub open spec fn underscored(s: Seq<char>) -> Seq<char> {
    s.map_values(|c: char| if char_is_alphanumeric(c) { c } else { '_' })
}

/// Replaces each non-alphanumeric character with '_'.
pub fn underscore_non_alnum(s: &str) -> (r: String)
    ensures
        r@ == underscored(s@),
{
    let cs = chars_of(s);
    let mut r = String::new();
    let mut i: usize = 0;
    while i < cs.len()
        invariant
            i <= cs.len(),
            cs@ == s@,
            r@ == underscored(cs@.subrange(0, i as int)),
        decreases cs.len() - i,
    {
        let c = cs[i];
        if is_alphanumeric(c) {
            push_char(&mut r, c);
        } else {
            push_char(&mut r, '_');
        }
        assert(underscored(cs@.subrange(0, i + 1)) =~= underscored(cs@.subrange(0, i as int)).push(
            if char_is_alphanumeric(c) { c } else { '_' },
        ));
        i = i + 1;
    }
    assert(cs@.subrange(0, cs@.len() as int) =~= s@);
    r
}

// ---------------------------------------------------------------------------
// Byte offsets.

/// An index at the start, the end, or an ASCII byte is a character boundary.
pub proof fn lemma_ascii_boundary(bytes: Seq<u8>, i: int)
    requires
        valid_utf8(bytes),
        0 <= i <= bytes.len(),
        i == 0 || i == bytes.len() || bytes[i] < 0x80,
    ensures
        is_char_boundary(bytes, i),
{
    if i == 0 || i == bytes.len() {
        is_char_boundary_start_end_of_seq(bytes);
    } else {
        is_char_boundary_iff_not_is_continuation_byte(bytes, i);
    }
}

/// The byte after an ASCII byte at a boundary is a boundary too.
pub proof fn lemma_boundary_after_ascii(bytes: Seq<u8>, i: int)
    requires
        valid_utf8(bytes),
        0 <= i < bytes.len(),
        is_char_boundary(bytes, i),
        bytes[i] < 0x80,
    ensures
        is_char_boundary(bytes, i + 1),
    decreases bytes.len(),
{
    let rest = pop_first_scalar(bytes);
    let k = length_of_first_scalar(bytes);
    assert(valid_first_scalar(bytes) && valid_utf8(rest));
    if i == 0 {
        assert(k == 1);
        assert(is_char_boundary(bytes, 1) == is_char_boundary(rest, 0));
    } else {
        assert(1 <= k <= bytes.len());
        assert(is_char_boundary(bytes, i) == is_char_boundary(rest, i - k));
        assert(is_char_boundary(bytes, i + 1) == is_char_boundary(rest, i + 1 - k));
        if i - k >= 0 {
            assert(rest[i - k] == bytes[i]);
            lemma_boundary_after_ascii(rest, i - k);
        } else {
            assert(is_char_boundary(rest, i - k) == false);
        }
    }
}

/// The part of a string slice between two byte offsets at character
/// boundaries.
pub fn slice_str<'a>(s: &'a str, a: usize, e: usize) -> (r: &'a str)
    requires
        a <= e <= utf8(s@).len(),
        is_char_boundary(utf8(s@), a as int),
        is_char_boundary(utf8(s@), e as int),
    ensures
        utf8(r@) == utf8(s@).subrange(a as int, e as int),
        r@ == decode_utf8(utf8(s@).subrange(a as int, e as int)),
{
    let ghost b = utf8(s@);
    proof {
        encode_utf8_valid_utf8(s@);
    }
    let (_, tail) = s.split_at(a);
    proof {
        encode_utf8_valid_utf8(tail@);
        assert(utf8(tail@) == b.subrange(a as int, b.len() as int));
        if e < b.len() {
            is_char_boundary_iff_not_is_continuation_byte(b, e as int);
            assert(utf8(tail@)[e - a] == b[e as int]);
            is_char_boundary_iff_not_is_continuation_byte(utf8(tail@), e - a);
        } else {
            is_char_boundary_start_end_of_seq(utf8(tail@));
        }
    }
    let (r, _) = tail.split_at(e - a);
    proof {
        assert(utf8(r@) =~= b.subrange(a as int, e as int));
        encode_utf8_decode_utf8(r@);
    }
    r
}


// ---------------------------------------------------------------------------
// The sorted listing of a set of strings.

/// The strictly sorted sequence holding exactly the strings of `s`.
pub open spec fn sorted_of(s: Set<Seq<char>>) -> Seq<Seq<char>> {
    choose|l: Seq<Seq<char>>| strictly_sorted(l) && l.to_set() == s
}

proof fn lemma_str_lt_asymmetric(a: Seq<char>, b: Seq<char>)
    requires
        str_lt(a, b),
    ensures
        !str_lt(b, a),
{
    lemma_bytes_lt_asymmetric(utf8(a), utf8(b));
}

proof fn lemma_str_lt_irreflexive(a: Seq<char>)
    ensures
        !str_lt(a, a),
{
    lemma_bytes_lt_irreflexive(utf8(a));
}

/// Two strictly sorted sequences with the same strings are equal.
pub proof fn lemma_sorted_unique(a: Seq<Seq<char>>, b: Seq<Seq<char>>)
    requires
        strictly_sorted(a),
        strictly_sorted(b),
        a.to_set() == b.to_set(),
    ensures
        a == b,
    decreases a.len(),
{
    if a.len() == 0 {
        if b.len() > 0 {
            assert(b.to_set().contains(b[0]));
        }
        assert(a =~= b);
    } else {
        assert(a.to_set().contains(a[0]));
        assert(b.len() > 0);
        assert(b.to_set().contains(b[0]));
        let j = choose|j: int| 0 <= j < b.len() && b[j] == a[0];
        let i = choose|i: int| 0 <= i < a.len() && a[i] == b[0];
        if a[0] != b[0] {
            assert(i > 0 && j > 0);
            assert(str_lt(a[0], a[i]));
            assert(str_lt(b[0], b[j]));
            lemma_str_lt_asymmetric(a[0], b[0]);
        }
        let a2 = a.drop_first();
        let b2 = b.drop_first();
        assert(strictly_sorted(a2)) by {
            assert forall|x: int, y: int| 0 <= x < y < a2.len() implies str_lt(#[trigger] a2[x], #[trigger] a2[y]) by {
                assert(a2[x] == a[x + 1] && a2[y] == a[y + 1]);
            }
        }
        assert(strictly_sorted(b2)) by {
            assert forall|x: int, y: int| 0 <= x < y < b2.len() implies str_lt(#[trigger] b2[x], #[trigger] b2[y]) by {
                assert(b2[x] == b[x + 1] && b2[y] == b[y + 1]);
            }
        }
        assert forall|x: Seq<char>| #[trigger] a2.to_set().contains(x) <==> b2.to_set().contains(x) by {
            if a2.to_set().contains(x) {
                let p = choose|p: int| 0 <= p < a2.len() && a2[p] == x;
                assert(a[p + 1] == x);
                assert(str_lt(a[0], a[p + 1]));
                if x == a[0] {
                    lemma_str_lt_irreflexive(x);
                }
                assert(a.to_set().contains(x));
                let q = choose|q: int| 0 <= q < b.len() && b[q] == x;
                assert(q != 0);
                assert(b2[q - 1] == x);
            }
            if b2.to_set().contains(x) {
                let p = choose|p: int| 0 <= p < b2.len() && b2[p] == x;
                assert(b[p + 1] == x);
                assert(str_lt(b[0], b[p + 1]));
                if x == b[0] {
                    lemma_str_lt_irreflexive(x);
                }
                assert(b.to_set().contains(x));
                let q = choose|q: int| 0 <= q < a.len() && a[q] == x;
                assert(q != 0);
                assert(a2[q - 1] == x);
            }
        }
        assert(a2.to_set() =~= b2.to_set());
        lemma_sorted_unique(a2, b2);
        assert(a =~= seq![a[0]] + a2);
        assert(b =~= seq![b[0]] + b2);
    }
}

/// A strictly sorted sequence of the strings of a set is its sorted listing.
pub proof fn lemma_is_sorted_of(l: Seq<Seq<char>>, s: Set<Seq<char>>)
    requires
        strictly_sorted(l),
        l.to_set() == s,
    ensures
        sorted_of(s) == l,
{
    let c = sorted_of(s);
    assert(strictly_sorted(c) && c.to_set() == s);
    lemma_sorted_unique(c, l);
}

} // verus!
