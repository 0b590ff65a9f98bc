//! The stable FNV-1a content hash that anchors blocks, tasks, and results.

use vstd::prelude::*;
use vstd::string::StringSliceAdditionalSpecFns;

use crate::text::{push_char, utf8};

verus! {

pub const FNV_OFFSET_BASIS: u64 = 0xcbf29ce484222325;

pub const FNV_PRIME: u64 = 0x100000001b3;

/// 64-bit FNV-1a over a byte sequence.
pub open spec fn fnv1a(bytes: Seq<u8>) -> u64
    decreases bytes.len(),
{
    if bytes.len() == 0 {
        FNV_OFFSET_BASIS
    } else {
        vstd::wrapping::u64_specs::wrapping_mul(
            fnv1a(bytes.drop_last()) ^ (bytes.last() as u64),
            FNV_PRIME,
        )
    }
}

/// The lowercase hexadecimal digit for a value below 16.
pub open spec fn hex_char(d: nat) -> char {
    if d < 10 {
        ((d + 48) as u8) as char
    } else {
        ((d + 87) as u8) as char
    }
}

/// The `width` lowest hexadecimal digits of `h`, most significant first and
/// zero padded, as `{:0width$x}` prints them.
pub open spec fn hex_lower(h: nat, width: nat) -> Seq<char>
    decreases width,
{
    if width == 0 {
        Seq::empty()
    } else {
        hex_lower(h / 16, (width - 1) as nat).push(hex_char(h % 16))
    }
}

/// The stable hash of a text: FNV-1a of its UTF-8 bytes, as 16 lowercase hex
/// digits.
pub open spec fn spec_stable_hash(text: Seq<char>) -> Seq<char> {
    hex_lower(fnv1a(utf8(text)) as nat, 16)
}

fn digit_char(d: u64) -> (c: char)
    requires
        d < 16,
    ensures
        c == hex_char(d as nat),
{
    if d < 10 {
        ((d + 48) as u8) as char
    } else {
        ((d + 87) as u8) as char
    }
}

/// Stable hash of a string, returned as 16 lowercase hex digits: FNV-1a
/// 64-bit over the UTF-8 bytes (offset basis 0xcbf29ce484222325, prime
/// 0x100000001b3). Deterministic across releases and restarts.
pub fn stable_hash(text: &str) -> (r: String)
    ensures
        r@ == spec_stable_hash(text@),
        r@.len() == 16,
{
    let bytes = text.as_bytes();
    let mut hash: u64 = FNV_OFFSET_BASIS;
    let mut i: usize = 0;
    while i < bytes.len()
        invariant
            i <= bytes.len(),
            bytes@ == utf8(text@),
            hash == fnv1a(bytes@.subrange(0, i as int)),
        decreases bytes.len() - i,
    {
        let b = bytes[i];
        assert(bytes@.subrange(0, i + 1).drop_last() =~= bytes@.subrange(0, i as int));
        hash = (hash ^ (b as u64)).wrapping_mul(FNV_PRIME);
        i = i + 1;
    }
    assert(bytes@.subrange(0, bytes@.len() as int) =~= bytes@);
    let ghost h = hash as nat;
    let mut rev: Vec<char> = Vec::new();
    let mut x: u64 = hash;
    let mut k: usize = 0;
    while k < 16
        invariant
            k <= 16,
            rev@.len() == k,
            hex_lower(h, 16) == hex_lower(x as nat, (16 - k) as nat) + rev@.reverse(),
        decreases 16 - k,
    {
        let ghost prev = rev@;
        rev.push(digit_char(x % 16));
        assert(rev@.reverse() =~= seq![hex_char((x % 16) as nat)] + prev.reverse());
        assert(hex_lower(x as nat, (16 - k) as nat) == hex_lower((x / 16) as nat, (16 - k - 1) as nat).push(hex_char((x % 16) as nat)));
        assert(hex_lower((x / 16) as nat, (16 - k - 1) as nat).push(hex_char((x % 16) as nat)) + prev.reverse()
            =~= hex_lower((x / 16) as nat, (16 - k - 1) as nat) + rev@.reverse());
        x = x / 16;
        k = k + 1;
    }
    assert(hex_lower(x as nat, 0) =~= Seq::<char>::empty());
    assert(hex_lower(h, 16) =~= rev@.reverse());
    let mut r = String::new();
    let mut j: usize = 16;
    while j > 0
        invariant
            j <= 16,
            rev@.len() == 16,
            r@ == rev@.reverse().subrange(0, (16 - j) as int),
        decreases j,
    {
        j = j - 1;
        push_char(&mut r, rev[j]);
        assert(r@ =~= rev@.reverse().subrange(0, (16 - j) as int));
    }
    assert(rev@.reverse().subrange(0, 16) =~= rev@.reverse());
    r
}

} // verus!
