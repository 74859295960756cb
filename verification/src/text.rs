//! Character-level helpers shared by the text-handling modules.

use vstd::prelude::*;

verus! {

/// The characters of a string slice, in order.
pub fn chars_of(s: &str) -> (v: Vec<char>)
    ensures
        v@ == s@,
{
    broadcast use vstd::string::group_string_axioms;

    let mut v: Vec<char> = Vec::new();
    for c in it: s.chars()
        invariant
            v@ == it.seq().take(it.index() as int),
    {
        v.push(c);
    }
    v
}

/// Builds a `String` from a sequence of characters, through
/// `FromIterator<char>` for `String` (std), which appends the characters in
/// order.
#[verifier::external_body]
pub(crate) fn string_from_chars(v: &Vec<char>) -> (s: String)
    ensures
        s@ == v@,
{
    v.iter().collect()
}

/// Whether two string slices hold the same text.
pub fn same_text(a: &str, b: &str) -> (r: bool)
    ensures
        r == (a@ == b@),
{
    proof {
        vstd::utf8::encode_utf8_decode_utf8(a@);
        vstd::utf8::encode_utf8_decode_utf8(b@);
    }
    let x = a.as_bytes();
    let y = b.as_bytes();
    if x.len() != y.len() {
        return false;
    }
    let mut i: usize = 0;
    while i < x.len()
        invariant
            x@ == vstd::utf8::encode_utf8(a@),
            y@ == vstd::utf8::encode_utf8(b@),
            x.len() == y.len(),
            i <= x.len(),
            forall|j: int| 0 <= j < i ==> x@[j] == y@[j],
        decreases x.len() - i,
    {
        if x[i] != y[i] {
            return false;
        }
        i = i + 1;
    }
    proof {
        assert(x@ == y@);
    }
    true
}

/// Unicode `White_Space`: U+0009–U+000D, U+0020, U+0085, U+00A0, U+1680,
/// U+2000–U+200A, U+2028, U+2029, U+202F, U+205F and U+3000.
pub open spec fn is_white_space(c: char) -> bool {
    let u = c as u32;
    ||| 0x09 <= u <= 0x0d
    ||| u == 0x20
    ||| u == 0x85
    ||| u == 0xa0
    ||| u == 0x1680
    ||| 0x2000 <= u <= 0x200a
    ||| u == 0x2028
    ||| u == 0x2029
    ||| u == 0x202f
    ||| u == 0x205f
    ||| u == 0x3000
}

pub fn is_white_space_exec(c: char) -> (r: bool)
    ensures
        r == is_white_space(c),
{
    let u = c as u32;
    (0x09 <= u && u <= 0x0d) || u == 0x20 || u == 0x85 || u == 0xa0 || u == 0x1680 || (0x2000 <= u
        && u <= 0x200a) || u == 0x2028 || u == 0x2029 || u == 0x202f || u == 0x205f || u == 0x3000
}

/// `s` without leading white space.
pub open spec fn trim_start(s: Seq<char>) -> Seq<char>
    decreases s.len(),
{
    if s.len() > 0 && is_white_space(s[0]) {
        trim_start(s.drop_first())
    } else {
        s
    }
}

/// `s` without trailing white space.
pub open spec fn trim_end(s: Seq<char>) -> Seq<char>
    decreases s.len(),
{
    if s.len() > 0 && is_white_space(s.last()) {
        trim_end(s.drop_last())
    } else {
        s
    }
}

/// `s` without leading or trailing white space.
pub open spec fn trim(s: Seq<char>) -> Seq<char> {
    trim_end(trim_start(s))
}

proof fn lemma_trim_start_drops_a_prefix(s: Seq<char>)
    ensures
        exists|k: int|
            {
                &&& 0 <= k <= s.len()
                &&& trim_start(s) == s.skip(k)
                &&& forall|m: int| 0 <= m < k ==> is_white_space(#[trigger] s[m])
                &&& (k == s.len() || !is_white_space(s[k]))
            },
    decreases s.len(),
{
    if s.len() > 0 && is_white_space(s[0]) {
        lemma_trim_start_drops_a_prefix(s.drop_first());
        let k = choose|k: int|
            {
                &&& 0 <= k <= s.drop_first().len()
                &&& trim_start(s.drop_first()) == s.drop_first().skip(k)
                &&& forall|m: int| 0 <= m < k ==> is_white_space(#[trigger] s.drop_first()[m])
                &&& (k == s.drop_first().len() || !is_white_space(s.drop_first()[k]))
            };
        assert(s.drop_first().skip(k) == s.skip(k + 1));
        assert forall|m: int| 0 <= m < k + 1 implies is_white_space(#[trigger] s[m]) by {
            if m > 0 {
                assert(s[m] == s.drop_first()[m - 1]);
            }
        }
        if k < s.drop_first().len() {
            assert(s[k + 1] == s.drop_first()[k]);
        }
    } else {
        assert(s.skip(0) == s);
    }
}

proof fn lemma_trim_end_drops_a_suffix(s: Seq<char>)
    ensures
        exists|k: int|
            {
                &&& 0 <= k <= s.len()
                &&& trim_end(s) == s.take(k)
                &&& forall|m: int| k <= m < s.len() ==> is_white_space(#[trigger] s[m])
                &&& (k == 0 || !is_white_space(s[k - 1]))
            },
    decreases s.len(),
{
    if s.len() > 0 && is_white_space(s.last()) {
        let t = s.drop_last();
        lemma_trim_end_drops_a_suffix(t);
        let k = choose|k: int|
            {
                &&& 0 <= k <= t.len()
                &&& trim_end(t) == t.take(k)
                &&& forall|m: int| k <= m < t.len() ==> is_white_space(#[trigger] t[m])
                &&& (k == 0 || !is_white_space(t[k - 1]))
            };
        assert(t.take(k) == s.take(k));
        assert forall|m: int| k <= m < s.len() implies is_white_space(#[trigger] s[m]) by {
            if m < s.len() - 1 {
                assert(s[m] == t[m]);
            }
        }
        if k > 0 {
            assert(s[k - 1] == t[k - 1]);
        }
    } else {
        assert(s.take(s.len() as int) == s);
    }
}

/// Trimming keeps the run of `s` between its leading and its trailing white
/// space: what it drops is white space, and what it keeps neither starts nor
/// ends with white space (so white space alone trims to nothing).
pub proof fn law_trim_keeps_the_middle(s: Seq<char>)
    ensures
        exists|i: int, j: int|
            {
                &&& 0 <= i <= j <= s.len()
                &&& trim(s) == s.subrange(i, j)
                &&& forall|m: int| 0 <= m < i ==> is_white_space(#[trigger] s[m])
                &&& forall|m: int| j <= m < s.len() ==> is_white_space(#[trigger] s[m])
                &&& (i < j ==> !is_white_space(s[i]) && !is_white_space(s[j - 1]))
            },
{
    lemma_trim_start_drops_a_prefix(s);
    let i = choose|k: int|
        {
            &&& 0 <= k <= s.len()
            &&& trim_start(s) == s.skip(k)
            &&& forall|m: int| 0 <= m < k ==> is_white_space(#[trigger] s[m])
            &&& (k == s.len() || !is_white_space(s[k]))
        };
    let t = s.skip(i);
    lemma_trim_end_drops_a_suffix(t);
    let k = choose|k: int|
        {
            &&& 0 <= k <= t.len()
            &&& trim_end(t) == t.take(k)
            &&& forall|m: int| k <= m < t.len() ==> is_white_space(#[trigger] t[m])
            &&& (k == 0 || !is_white_space(t[k - 1]))
        };
    let j = i + k;
    assert(t.take(k) == s.subrange(i, j));
    assert forall|m: int| j <= m < s.len() implies is_white_space(#[trigger] s[m]) by {
        assert(s[m] == t[m - i]);
    }
    if i < j {
        assert(s[i] == t[0]);
        assert(s[j - 1] == t[k - 1]);
    }
}

/// ASCII upper-case letters lowered; every other character unchanged.
pub open spec fn ascii_lower(c: char) -> char {
    if 'A' <= c <= 'Z' {
        ((c as u32) + 32) as char
    } else {
        c
    }
}

pub open spec fn to_ascii_lower(s: Seq<char>) -> Seq<char> {
    s.map_values(|c: char| ascii_lower(c))
}

pub fn ascii_lower_exec(c: char) -> (r: char)
    ensures
        r == ascii_lower(c),
{
    if 'A' <= c && c <= 'Z' {
        ((c as u32) + 32) as u8 as char
    } else {
        c
    }
}

/// `s` with leading and trailing white space removed.
pub fn trim_text(s: &str) -> (r: Vec<char>)
    ensures
        r@ == trim(s@),
{
    let v = chars_of(s);
    let mut start: usize = 0;
    proof {
        assert(v@.subrange(0, v@.len() as int) == v@);
    }
    while start < v.len() && is_white_space_exec(v[start])
        invariant
            start <= v.len(),
            trim_start(v@) == trim_start(v@.subrange(start as int, v@.len() as int)),
        decreases v.len() - start,
    {
        proof {
            let t = v@.subrange(start as int, v@.len() as int);
            assert(t.drop_first() == v@.subrange(start as int + 1, v@.len() as int));
        }
        start = start + 1;
    }
    let ghost ts = v@.subrange(start as int, v@.len() as int);
    proof {
        assert(trim_start(ts) == ts);
    }
    let mut end: usize = v.len();
    while end > start && is_white_space_exec(v[end - 1])
        invariant
            start <= end <= v.len(),
            trim_end(ts) == trim_end(v@.subrange(start as int, end as int)),
            ts == v@.subrange(start as int, v@.len() as int),
        decreases end - start,
    {
        proof {
            let t = v@.subrange(start as int, end as int);
            assert(t.drop_last() == v@.subrange(start as int, end as int - 1));
            assert(t.last() == v@[end - 1]);
        }
        end = end - 1;
    }
    let mut out: Vec<char> = Vec::new();
    let mut i: usize = start;
    while i < end
        invariant
            start <= i <= end,
            end <= v.len(),
            out@ == v@.subrange(start as int, i as int),
        decreases end - i,
    {
        out.push(v[i]);
        proof {
            assert(v@.subrange(start as int, i as int + 1) == v@.subrange(start as int, i as int).push(
                v@[i as int],
            ));
        }
        i = i + 1;
    }
    proof {
        let t = v@.subrange(start as int, end as int);
        if t.len() > 0 {
            assert(t.last() == v@[end - 1]);
        }
        assert(trim_end(t) == t);
    }
    out
}

/// `s` with ASCII letters lowered.
pub fn lower_chars(s: &Vec<char>) -> (r: Vec<char>)
    ensures
        r@ == to_ascii_lower(s@),
{
    let mut out: Vec<char> = Vec::new();
    let mut i: usize = 0;
    while i < s.len()
        invariant
            i <= s.len(),
            out@ == to_ascii_lower(s@.take(i as int)),
        decreases s.len() - i,
    {
        out.push(ascii_lower_exec(s[i]));
        proof {
            assert(to_ascii_lower(s@.take(i as int + 1)) == to_ascii_lower(s@.take(i as int)).push(
                ascii_lower(s@[i as int]),
            ));
        }
        i = i + 1;
    }
    proof {
        assert(s@.take(s@.len() as int) == s@);
    }
    out
}

} // verus!
