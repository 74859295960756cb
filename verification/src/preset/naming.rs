//! Preset file naming: a stable, reversible percent-encoding of preset names
//! into filename stems, bounded in length, with an FNV-1a digest for names
//! too long to encode whole.

use vstd::prelude::*;
use vstd::utf8::encode_utf8;

use crate::text::{chars_of, string_from_chars};

verus! {

/// Longest filename stem produced, in bytes.
pub const MAX_STEM_BYTES: usize = 200;

/// `'-'` plus 16 hex digits, appended to truncated stems.
pub const HASH_SUFFIX_BYTES: usize = 17;

/// FNV-1a 64-bit offset basis.
pub const FNV_OFFSET: u64 = 0xcbf2_9ce4_8422_2325;

/// FNV-1a 64-bit prime.
pub const FNV_PRIME: u64 = 0x0000_0100_0000_01b3;

/// Bytes that survive into a filename verbatim: `[A-Za-z0-9-_]`.
pub open spec fn spec_is_unreserved(b: u8) -> bool {
    ||| 97 <= b <= 122
    ||| 65 <= b <= 90
    ||| 48 <= b <= 57
    ||| b == 45
    ||| b == 95
}

pub fn is_unreserved(byte: u8) -> (r: bool)
    ensures
        r == spec_is_unreserved(byte),
{
    (97 <= byte && byte <= 122) || (65 <= byte && byte <= 90) || (48 <= byte && byte <= 57)
        || byte == 45 || byte == 95
}

/// Upper-case hexadecimal digit of a nibble.
pub open spec fn hex_upper(d: u8) -> char {
    if d < 10 {
        (48 + d) as char
    } else {
        (55 + d) as char
    }
}

/// Lower-case hexadecimal digit of a nibble.
pub open spec fn hex_lower(d: u8) -> char {
    if d < 10 {
        (48 + d) as char
    } else {
        (87 + d) as char
    }
}

/// The encoding of one byte: itself when unreserved, `%XX` otherwise.
pub open spec fn encode_unit(b: u8) -> Seq<char> {
    if spec_is_unreserved(b) {
        seq![b as char]
    } else {
        seq!['%', hex_upper(b / 16), hex_upper(b % 16)]
    }
}

/// Percent-encodes `bs` into at most `budget` characters, emitting whole
/// units only. The flag is true when encoding stopped before the end.
pub open spec fn encode_prefix(bs: Seq<u8>, budget: int) -> (Seq<char>, bool)
    decreases bs.len(),
{
    if bs.len() == 0 {
        (Seq::empty(), false)
    } else {
        let u = encode_unit(bs[0]);
        if u.len() > budget {
            (Seq::empty(), true)
        } else {
            let rest = encode_prefix(bs.drop_first(), budget - u.len());
            (u + rest.0, rest.1)
        }
    }
}

/// The UTF-8 bytes of a name.
pub open spec fn name_bytes(name: Seq<char>) -> Seq<u8> {
    encode_utf8(name)
}

/// 64-bit FNV-1a of a byte sequence.
pub open spec fn fnv1a(bs: Seq<u8>) -> u64
    decreases bs.len(),
{
    if bs.len() == 0 {
        FNV_OFFSET
    } else {
        (fnv1a(bs.drop_last()) ^ (bs.last() as u64)).wrapping_mul(FNV_PRIME)
    }
}

/// The 16 lower-case hex digits of a 64-bit value, most significant first.
pub open spec fn hex16(h: u64) -> Seq<char> {
    Seq::new(16, |i: int| hex_lower(((h >> ((60 - 4 * i) as u64)) & 15u64) as u8))
}

/// A readable prefix of the name plus a digest of all of it.
pub open spec fn spec_hashed_stem(name: Seq<char>) -> Seq<char> {
    encode_prefix(name_bytes(name), (MAX_STEM_BYTES - HASH_SUFFIX_BYTES) as int).0 + seq!['-']
        + hex16(fnv1a(name_bytes(name)))
}

/// The filename stem of a preset name.
pub open spec fn spec_sanitize_filename(name: Seq<char>) -> Seq<char> {
    if name.len() == 0 {
        seq!['%']
    } else {
        let (encoded, truncated) = encode_prefix(name_bytes(name), MAX_STEM_BYTES as int);
        if truncated {
            spec_hashed_stem(name)
        } else {
            encoded
        }
    }
}

fn hex_upper_digit(d: u8) -> (c: char)
    requires
        d < 16,
    ensures
        c == hex_upper(d),
{
    if d < 10 {
        (48 + d) as char
    } else {
        (55 + d) as char
    }
}

fn hex_lower_digit(d: u8) -> (c: char)
    requires
        d < 16,
    ensures
        c == hex_lower(d),
{
    if d < 10 {
        (48 + d) as char
    } else {
        (87 + d) as char
    }
}

/// 64-bit FNV-1a of `bytes`.
pub fn stable_hash(bytes: &[u8]) -> (h: u64)
    ensures
        h == fnv1a(bytes@),
{
    let mut hash: u64 = FNV_OFFSET;
    let mut i: usize = 0;
    while i < bytes.len()
        invariant
            i <= bytes@.len(),
            hash == fnv1a(bytes@.take(i as int)),
        decreases bytes.len() - i,
    {
        proof {
            assert(bytes@.take(i as int + 1).drop_last() == bytes@.take(i as int));
        }
        hash = hash ^ (bytes[i] as u64);
        hash = hash.wrapping_mul(FNV_PRIME);
        i = i + 1;
    }
    proof {
        assert(bytes@.take(bytes@.len() as int) == bytes@);
    }
    hash
}

/// Percent-encodes `name` into at most `budget` bytes, returning the text and
/// whether it had to stop early. Only whole units are emitted.
pub fn percent_encode(name: &str, budget: usize) -> (r: (String, bool))
    ensures
        (r.0@, r.1) == encode_prefix(name_bytes(name@), budget as int),
{
    let bytes = name.as_bytes();
    let ghost all = bytes@;
    let mut out: Vec<char> = Vec::new();
    let mut i: usize = 0;
    proof {
        assert(all.skip(0) == all);
        assert(out@ + encode_prefix(all, budget as int).0 == encode_prefix(all, budget as int).0);
    }
    while i < bytes.len()
        invariant
            all == bytes@,
            all == name_bytes(name@),
            i <= all.len(),
            out.len() <= budget,
            out@ + encode_prefix(all.skip(i as int), budget - out.len()).0 == encode_prefix(
                all,
                budget as int,
            ).0,
            encode_prefix(all.skip(i as int), budget - out.len()).1 == encode_prefix(
                all,
                budget as int,
            ).1,
        decreases all.len() - i,
    {
        let byte = bytes[i];
        let ghost rest = all.skip(i as int);
        proof {
            assert(rest[0] == byte);
            assert(rest.drop_first() == all.skip(i as int + 1));
        }
        let unreserved = is_unreserved(byte);
        let width: usize = if unreserved {
            1
        } else {
            3
        };
        if width > budget - out.len() {
            proof {
                assert(out@ + Seq::<char>::empty() == out@);
            }
            return (string_from_chars(&out), true);
        }
        let ghost before = out@;
        if unreserved {
            out.push(byte as char);
        } else {
            let hi: u8 = byte >> 4;
            let lo: u8 = byte & 0x0f;
            proof {
                assert(byte >> 4 == byte / 16 && byte / 16 < 16) by (bit_vector);
                assert(byte & 0x0f == byte % 16 && byte % 16 < 16) by (bit_vector);
            }
            out.push('%');
            out.push(hex_upper_digit(hi));
            out.push(hex_upper_digit(lo));
        }
        proof {
            assert(out@ == before + encode_unit(byte));
            assert(before + (encode_unit(byte) + encode_prefix(
                all.skip(i as int + 1),
                budget - out.len(),
            ).0) == out@ + encode_prefix(all.skip(i as int + 1), budget - out.len()).0);
        }
        i = i + 1;
    }
    proof {
        assert(all.skip(all.len() as int).len() == 0);
        assert(out@ + Seq::<char>::empty() == out@);
    }
    (string_from_chars(&out), false)
}

/// The 16 lower-case hex digits of `h`.
fn hex16_chars(h: u64) -> (v: Vec<char>)
    ensures
        v@ == hex16(h),
{
    let mut v: Vec<char> = Vec::new();
    let mut i: u64 = 0;
    while i < 16
        invariant
            i <= 16,
            v.len() == i,
            forall|j: int| 0 <= j < i ==> v@[j] == hex16(h)[j],
        decreases 16 - i,
    {
        let shift: u64 = 60 - 4 * i;
        let nibble: u64 = (h >> shift) & 15;
        proof {
            assert(nibble < 16) by (bit_vector)
                requires
                    nibble == (h >> shift) & 15u64,
            ;
        }
        v.push(hex_lower_digit(nibble as u8));
        i = i + 1;
    }
    proof {
        assert(v@ == hex16(h));
    }
    v
}

/// A readable prefix of `name` plus a digest of the whole of it, short enough
/// to fit the per-component byte limit of common filesystems.
pub fn hashed_stem(name: &str) -> (r: String)
    ensures
        r@ == spec_hashed_stem(name@),
{
    let (stem, _) = percent_encode(name, MAX_STEM_BYTES - HASH_SUFFIX_BYTES);
    let hash = stable_hash(name.as_bytes());
    let mut out = chars_of(stem.as_str());
    out.push('-');
    let digits = hex16_chars(hash);
    let mut i: usize = 0;
    let ghost base = out@;
    while i < digits.len()
        invariant
            i <= digits.len(),
            out@ == base + digits@.take(i as int),
        decreases digits.len() - i,
    {
        out.push(digits[i]);
        proof {
            assert(digits@.take(i as int + 1) == digits@.take(i as int).push(digits@[i as int]));
        }
        i = i + 1;
    }
    proof {
        assert(digits@.take(digits@.len() as int) == digits@);
    }
    string_from_chars(&out)
}

/// Turns a preset name into a filename stem: the percent-encoding of its
/// UTF-8 bytes, or, for names too long to encode whole, a truncated encoding
/// plus a digest. The empty name maps to `%`, which the encoder never emits.
pub fn sanitize_filename(name: &str) -> (r: String)
    ensures
        r@ == spec_sanitize_filename(name@),
{
    if name.is_empty() {
        return string_from_chars(&vec!['%']);
    }
    let (encoded, truncated) = percent_encode(name, MAX_STEM_BYTES);
    if truncated {
        hashed_stem(name)
    } else {
        encoded
    }
}


/// The value of an upper-case hexadecimal digit.
pub open spec fn hex_value(c: char) -> int {
    if '0' <= c <= '9' {
        (c as int) - 48
    } else {
        (c as int) - 55
    }
}

/// Inverse of the percent-encoding: `%XX` units decode to the byte `XX`,
/// every other character to its own code.
pub open spec fn percent_decode(s: Seq<char>) -> Seq<u8>
    decreases s.len(),
{
    if s.len() == 0 {
        Seq::empty()
    } else if s[0] == '%' && s.len() >= 3 {
        seq![(hex_value(s[1]) * 16 + hex_value(s[2])) as u8] + percent_decode(s.skip(3))
    } else {
        seq![s[0] as u8] + percent_decode(s.skip(1))
    }
}

/// Characters a filename stem may contain.
pub open spec fn is_stem_char(c: char) -> bool {
    ||| 'a' <= c <= 'z'
    ||| 'A' <= c <= 'Z'
    ||| '0' <= c <= '9'
    ||| c == '-'
    ||| c == '_'
    ||| c == '%'
}

proof fn lemma_low_nibble(x: u64)
    by (bit_vector)
    ensures
        x & 15u64 < 16,
{
}

proof fn lemma_encode_unit(b: u8)
    ensures
        percent_decode(encode_unit(b)) == seq![b],
        forall|r: Seq<char>| #[trigger] percent_decode(encode_unit(b) + r) == seq![b] + percent_decode(r),
        forall|i: int| 0 <= i < encode_unit(b).len() ==> is_stem_char(#[trigger] encode_unit(b)[i]),
        1 <= encode_unit(b).len() <= 3,
        encode_unit(b).len() == 1 <==> spec_is_unreserved(b),
{
    let u = encode_unit(b);
    assert forall|r: Seq<char>| #[trigger] percent_decode(u + r) == seq![b] + percent_decode(r) by {
        let s = u + r;
        if spec_is_unreserved(b) {
            assert(s[0] == b as char);
            assert(s.skip(1) == r);
            assert((b as char) as u8 == b);
        } else {
            assert(s[0] == '%');
            assert(s.skip(3) == r);
            let hi = b / 16;
            let lo = b % 16;
            assert(hex_value(hex_upper(hi)) == hi);
            assert(hex_value(hex_upper(lo)) == lo);
        }
    }
    assert(u + Seq::<char>::empty() == u);
    assert(percent_decode(Seq::<char>::empty()) == Seq::<u8>::empty());
    assert(seq![b] + Seq::<u8>::empty() == seq![b]);
}

/// The encoded text never exceeds its budget, contains only stem
/// characters, and decodes back to the bytes it covered; when nothing was
/// cut off, it decodes back to all of them.
pub proof fn lemma_encode_prefix(bs: Seq<u8>, budget: int)
    requires
        budget >= 0,
    ensures
        encode_prefix(bs, budget).0.len() <= budget,
        forall|i: int|
            0 <= i < encode_prefix(bs, budget).0.len() ==> is_stem_char(
                #[trigger] encode_prefix(bs, budget).0[i],
            ),
        !encode_prefix(bs, budget).1 ==> percent_decode(encode_prefix(bs, budget).0) == bs,
    decreases bs.len(),
{
    if bs.len() > 0 {
        let u = encode_unit(bs[0]);
        lemma_encode_unit(bs[0]);
        if u.len() <= budget {
            lemma_encode_prefix(bs.drop_first(), budget - u.len());
            let rest = encode_prefix(bs.drop_first(), budget - u.len());
            assert forall|i: int| 0 <= i < (u + rest.0).len() implies is_stem_char(
                #[trigger] (u + rest.0)[i],
            ) by {
                if i < u.len() {
                    assert((u + rest.0)[i] == u[i]);
                } else {
                    assert((u + rest.0)[i] == rest.0[i - u.len()]);
                }
            }
            if !rest.1 {
                assert(percent_decode(u + rest.0) == seq![bs[0]] + percent_decode(rest.0));
                assert(seq![bs[0]] + bs.drop_first() == bs);
            }
        }
    }
}

/// Every stem fits the per-component limit of `MAX_STEM_BYTES` bytes
/// (all stem characters are ASCII, so characters and bytes agree).
pub proof fn law_sanitize_filename_is_bounded(name: Seq<char>)
    ensures
        spec_sanitize_filename(name).len() <= MAX_STEM_BYTES,
{
    lemma_encode_prefix(name_bytes(name), MAX_STEM_BYTES as int);
    lemma_encode_prefix(name_bytes(name), (MAX_STEM_BYTES - HASH_SUFFIX_BYTES) as int);
}

/// A stem consists of `[A-Za-z0-9-_%]` only; in particular a path separator
/// never survives into a filename.
pub proof fn law_sanitize_filename_charset(name: Seq<char>)
    ensures
        forall|i: int|
            0 <= i < spec_sanitize_filename(name).len() ==> is_stem_char(
                #[trigger] spec_sanitize_filename(name)[i],
            ),
        !spec_sanitize_filename(name).contains('/'),
{
    let bytes = name_bytes(name);
    lemma_encode_prefix(bytes, MAX_STEM_BYTES as int);
    lemma_encode_prefix(bytes, (MAX_STEM_BYTES - HASH_SUFFIX_BYTES) as int);
    let r = spec_sanitize_filename(name);
    if name.len() != 0 && encode_prefix(bytes, MAX_STEM_BYTES as int).1 {
        let p = encode_prefix(bytes, (MAX_STEM_BYTES - HASH_SUFFIX_BYTES) as int).0;
        let h = hex16(fnv1a(bytes));
        assert forall|i: int| 0 <= i < r.len() implies is_stem_char(#[trigger] r[i]) by {
            if i < p.len() {
                assert(r[i] == p[i]);
            } else if i == p.len() {
                assert(r[i] == '-');
            } else {
                let k = i - p.len() - 1;
                assert(r[i] == h[k]);
                let x = fnv1a(bytes) >> ((60 - 4 * k) as u64);
                lemma_low_nibble(x);
                assert(h[k] == hex_lower((x & 15u64) as u8));
            }
        }
    }
    assert forall|i: int| 0 <= i < r.len() implies r[i] != '/' by {
        assert(is_stem_char(r[i]));
    }
}

/// Below the truncation boundary the stem decodes back to the name's
/// UTF-8 bytes: `%XX` to the byte `XX`, any other character to itself.
pub proof fn law_sanitize_filename_decodes(name: Seq<char>)
    requires
        name.len() > 0,
        !encode_prefix(name_bytes(name), MAX_STEM_BYTES as int).1,
    ensures
        percent_decode(spec_sanitize_filename(name)) == name_bytes(name),
        vstd::utf8::decode_utf8(percent_decode(spec_sanitize_filename(name))) == name,
{
    broadcast use vstd::utf8::encode_utf8_decode_utf8;

    lemma_encode_prefix(name_bytes(name), MAX_STEM_BYTES as int);
}

/// No name but the empty one gets the stem `%`, so the empty name's stem
/// never collides with another's.
pub proof fn law_only_the_empty_name_is_a_lone_percent(name: Seq<char>)
    requires
        name.len() > 0,
    ensures
        spec_sanitize_filename(name) != seq!['%'],
{
    let bn = name_bytes(name);
    assert(bn.len() > 0) by {
        vstd::utf8::encode_utf8_first_scalar(name);
    }
    if encode_prefix(bn, MAX_STEM_BYTES as int).1 {
        assert(spec_sanitize_filename(name).len() > 1);
    } else {
        let e = encode_prefix(bn, MAX_STEM_BYTES as int).0;
        lemma_encode_unit(bn[0]);
        let u = encode_unit(bn[0]);
        assert(e == u + encode_prefix(bn.drop_first(), MAX_STEM_BYTES - u.len()).0);
        if e == seq!['%'] {
            assert(u[0] == e[0]);
            assert(u.len() == 1);
            assert((bn[0] as char) == '%');
        }
    }
}

/// Names whose encoding fits whole map to distinct stems: the encoding is
/// reversible below the truncation boundary.
pub proof fn law_sanitize_filename_injective_below_truncation(a: Seq<char>, b: Seq<char>)
    requires
        !encode_prefix(name_bytes(a), MAX_STEM_BYTES as int).1,
        !encode_prefix(name_bytes(b), MAX_STEM_BYTES as int).1,
        spec_sanitize_filename(a) == spec_sanitize_filename(b),
    ensures
        a == b,
{
    if a.len() != 0 && b.len() != 0 {
        law_sanitize_filename_decodes(a);
        law_sanitize_filename_decodes(b);
    } else if a.len() != 0 {
        law_only_the_empty_name_is_a_lone_percent(a);
    } else if b.len() != 0 {
        law_only_the_empty_name_is_a_lone_percent(b);
    }
}

proof fn lemma_ascii_round_trip(c: char)
    requires
        (c as int) < 128,
    ensures
        ((c as u8) as char) == c,
{
}

proof fn lemma_encode_safe(name: Seq<char>, bytes: Seq<u8>, budget: int)
    requires
        name.len() <= budget,
        bytes == Seq::new(name.len(), |i: int| name[i] as u8),
        forall|i: int| 0 <= i < name.len() ==> spec_is_unreserved((#[trigger] name[i]) as u8)
            && (name[i] as int) < 128,
    ensures
        encode_prefix(bytes, budget) == (name, false),
    decreases name.len(),
{
    if name.len() > 0 {
        let tail = name.drop_first();
        let tbytes = bytes.drop_first();
        assert(tbytes == Seq::new(tail.len(), |i: int| tail[i] as u8));
        assert forall|i: int| 0 <= i < tail.len() implies spec_is_unreserved(
            (#[trigger] tail[i]) as u8,
        ) && (tail[i] as int) < 128 by {
            assert(tail[i] == name[i + 1]);
        }
        lemma_encode_safe(tail, tbytes, budget - 1);
        assert((name[0] as int) < 128 && spec_is_unreserved(name[0] as u8));
        assert(bytes[0] == name[0] as u8);
        lemma_ascii_round_trip(name[0]);
        assert(encode_unit(bytes[0]) == seq![name[0]]);
        assert(seq![name[0]] + tail == name);
    }
}

/// Characters that survive into a filename verbatim: `[A-Za-z0-9-_]`.
pub open spec fn is_safe_name_char(c: char) -> bool {
    ||| 'a' <= c <= 'z'
    ||| 'A' <= c <= 'Z'
    ||| '0' <= c <= '9'
    ||| c == '-'
    ||| c == '_'
}

/// Names made only of `[A-Za-z0-9-_]` that fit the limit keep exactly their
/// own text as a stem, so filenames written under the older scheme stay
/// valid.
pub proof fn law_sanitize_filename_keeps_safe_names(name: Seq<char>)
    requires
        0 < name.len() <= MAX_STEM_BYTES,
        forall|i: int| 0 <= i < name.len() ==> is_safe_name_char(#[trigger] name[i]),
    ensures
        spec_sanitize_filename(name) == name,
{
    assert forall|i: int| 0 <= i < name.len() implies spec_is_unreserved(
        (#[trigger] name[i]) as u8,
    ) && (name[i] as int) < 128 by {
        assert(is_safe_name_char(name[i]));
    }
    assert(vstd::utf8::is_ascii_chars(name));
    vstd::utf8::is_ascii_chars_encode_utf8(name);
    let bytes = name_bytes(name);
    assert(bytes == Seq::new(name.len(), |i: int| name[i] as u8));
    lemma_encode_safe(name, bytes, MAX_STEM_BYTES as int);
}

} // verus!
