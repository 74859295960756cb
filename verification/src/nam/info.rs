//! Display-ready summary of a `.nam` file's metadata, extracted once when
//! the model is loaded.

use vstd::prelude::*;

use crate::text::{
    ascii_lower, chars_of, is_white_space, law_trim_keeps_the_middle, is_white_space_exec, lower_chars, same_text,
    string_from_chars, to_ascii_lower, trim, trim_text,
};

verus! {

/// The text of an optional string.
pub open spec fn opt_text(o: Option<String>) -> Option<Seq<char>> {
    match o {
        Some(s) => Some(s@),
        None => None,
    }
}

/// Sentinels exporters write into a descriptive field left blank.
pub open spec fn is_placeholder(s: Seq<char>) -> bool {
    ||| s == "tz-make"@
    ||| s == "tz-model"@
    ||| s == "t3k-null"@
}

/// A descriptive field, trimmed; absent when blank or a placeholder
/// (compared case-insensitively for ASCII letters).
pub open spec fn spec_meaningful(value: Option<Seq<char>>) -> Option<Seq<char>> {
    match value {
        None => None,
        Some(s) => {
            let t = trim(s);
            if t.len() == 0 || is_placeholder(to_ascii_lower(t)) {
                None
            } else {
                Some(t)
            }
        },
    }
}

/// A meaningful field is the value with its surrounding white space
/// removed: non-empty, neither starting nor ending with white space, found
/// in the value after white space only, and not a placeholder; a value of
/// white space alone, and an absent one, is not meaningful.
pub proof fn law_meaningful_is_the_trimmed_value(value: Option<Seq<char>>)
    ensures
        value is None ==> spec_meaningful(value) is None,
        value matches Some(v) && (forall|m: int| 0 <= m < v.len() ==> is_white_space(#[trigger] v[m]))
            ==> spec_meaningful(value) is None,
        spec_meaningful(value) matches Some(t) ==> {
            &&& t.len() > 0
            &&& !is_white_space(t[0])
            &&& !is_white_space(t[t.len() - 1])
            &&& !is_placeholder(to_ascii_lower(t))
            &&& exists|i: int|
                0 <= i && i + t.len() <= value->0.len() && #[trigger] value->0.subrange(i, i + t.len()) == t
                    && forall|m: int| 0 <= m < i ==> is_white_space(#[trigger] value->0[m])
        },
{
    if let Some(v) = value {
        law_trim_keeps_the_middle(v);
        let (i, j) = choose|i: int, j: int|
            {
                &&& 0 <= i <= j <= v.len()
                &&& trim(v) == v.subrange(i, j)
                &&& forall|m: int| 0 <= m < i ==> is_white_space(#[trigger] v[m])
                &&& forall|m: int| j <= m < v.len() ==> is_white_space(#[trigger] v[m])
                &&& (i < j ==> !is_white_space(v[i]) && !is_white_space(v[j - 1]))
            };
        assert(trim(v).len() == j - i);
        assert(v.subrange(i, i + trim(v).len()) == trim(v));
        if i < j {
            assert(trim(v)[0] == v[i]);
            assert(trim(v)[trim(v).len() - 1] == v[j - 1]);
            if forall|m: int| 0 <= m < v.len() ==> is_white_space(#[trigger] v[m]) {
                assert(is_white_space(v[i]));
            }
        }
    }
}

/// Treats blank strings and known placeholder sentinels as absent.
pub fn meaningful(value: Option<String>) -> (r: Option<String>)
    ensures
        opt_text(r) == spec_meaningful(opt_text(value)),
{
    let value = match value {
        Some(v) => v,
        None => return None,
    };
    let trimmed = trim_text(value.as_str());
    if trimmed.len() == 0 {
        return None;
    }
    let lowered = string_from_chars(&lower_chars(&trimmed));
    if same_text(lowered.as_str(), "tz-make") || same_text(lowered.as_str(), "tz-model")
        || same_text(lowered.as_str(), "t3k-null") {
        return None;
    }
    Some(string_from_chars(&trimmed))
}

/// Separators treated as spaces when reading a model's name.
pub open spec fn cab_normal(c: char) -> char {
    let l = ascii_lower(c);
    if l == '-' || l == '_' || l == '.' || l == '/' {
        ' '
    } else {
        l
    }
}

pub open spec fn normalized_name(s: Seq<char>) -> Seq<char> {
    s.map_values(|c: char| cab_normal(c))
}

/// Whether `p` occurs in `s` as a contiguous run.
pub open spec fn contains_run(s: Seq<char>, p: Seq<char>) -> bool {
    exists|i: int| 0 <= i && i + p.len() <= s.len() && #[trigger] s.subrange(i, i + p.len()) == p
}

pub open spec fn is_ascii_alnum(c: char) -> bool {
    ||| 'a' <= c <= 'z'
    ||| 'A' <= c <= 'Z'
    ||| '0' <= c <= '9'
}

/// `s` without leading characters that are not ASCII alphanumeric.
pub open spec fn strip_start(s: Seq<char>) -> Seq<char>
    decreases s.len(),
{
    if s.len() > 0 && !is_ascii_alnum(s[0]) {
        strip_start(s.drop_first())
    } else {
        s
    }
}

/// `s` without trailing characters that are not ASCII alphanumeric.
pub open spec fn strip_end(s: Seq<char>) -> Seq<char>
    decreases s.len(),
{
    if s.len() > 0 && !is_ascii_alnum(s.last()) {
        strip_end(s.drop_last())
    } else {
        s
    }
}

/// `s[i..j]` is a maximal run of non-white-space characters.
pub open spec fn word_at(s: Seq<char>, i: int, j: int) -> bool {
    &&& 0 <= i < j <= s.len()
    &&& forall|k: int| i <= k < j ==> !is_white_space(#[trigger] s[k])
    &&& (i == 0 || is_white_space(s[i - 1]))
    &&& (j == s.len() || is_white_space(s[j]))
}

pub open spec fn is_cab_word(w: Seq<char>) -> bool {
    ||| w == "cab"@
    ||| w == "cabs"@
    ||| w == "cabinet"@
}

/// Whether a model's name claims a full signal chain: it mentions "full
/// rig" (however punctuated) or has a standalone "cab", "cabs" or "cabinet"
/// word.
pub open spec fn spec_name_suggests_cab(name: Seq<char>) -> bool {
    let n = normalized_name(name);
    ||| contains_run(n, "full rig"@)
    ||| contains_run(n, "fullrig"@)
    ||| exists|i: int, j: int| #[trigger] word_at(n, i, j) && is_cab_word(
        strip_end(strip_start(n.subrange(i, j))),
    )
}

fn is_ascii_alnum_exec(c: char) -> (r: bool)
    ensures
        r == is_ascii_alnum(c),
{
    ('a' <= c && c <= 'z') || ('A' <= c && c <= 'Z') || ('0' <= c && c <= '9')
}

fn cab_normal_exec(c: char) -> (r: char)
    ensures
        r == cab_normal(c),
{
    let l = crate::text::ascii_lower_exec(c);
    if l == '-' || l == '_' || l == '.' || l == '/' {
        ' '
    } else {
        l
    }
}

/// Whether `p` occurs in `s` starting at `i`.
fn run_at(s: &Vec<char>, p: &Vec<char>, i: usize) -> (r: bool)
    requires
        i + p.len() <= s.len(),
    ensures
        r == (s@.subrange(i as int, i + p.len()) == p@),
{
    let mut k: usize = 0;
    while k < p.len()
        invariant
            i + p.len() <= s.len(),
            k <= p.len(),
            forall|m: int| 0 <= m < k ==> s@[i + m] == p@[m],
        decreases p.len() - k,
    {
        if s[i + k] != p[k] {
            proof {
                assert(s@.subrange(i as int, i + p.len())[k as int] != p@[k as int]);
            }
            return false;
        }
        k = k + 1;
    }
    proof {
        assert(s@.subrange(i as int, i + p.len()) == p@);
    }
    true
}

fn contains_run_exec(s: &Vec<char>, p: &Vec<char>) -> (r: bool)
    ensures
        r == contains_run(s@, p@),
{
    if p.len() > s.len() {
        return false;
    }
    let last: usize = s.len() - p.len();
    let mut i: usize = 0;
    loop
        invariant
            p.len() <= s.len(),
            last == s.len() - p.len(),
            i <= last,
            forall|m: int| 0 <= m < i ==> #[trigger] s@.subrange(m, m + p.len()) != p@,
        decreases last - i,
    {
        if run_at(s, p, i) {
            return true;
        }
        if i == last {
            return false;
        }
        i = i + 1;
    }
}

/// `w` without non-alphanumeric characters at either end.
fn strip_word(w: &Vec<char>) -> (r: Vec<char>)
    ensures
        r@ == strip_end(strip_start(w@)),
{
    let mut start: usize = 0;
    proof {
        assert(w@.subrange(0, w@.len() as int) == w@);
    }
    while start < w.len() && !is_ascii_alnum_exec(w[start])
        invariant
            start <= w.len(),
            strip_start(w@) == strip_start(w@.subrange(start as int, w@.len() as int)),
        decreases w.len() - start,
    {
        proof {
            let t = w@.subrange(start as int, w@.len() as int);
            assert(t.drop_first() == w@.subrange(start as int + 1, w@.len() as int));
        }
        start = start + 1;
    }
    let ghost ts = w@.subrange(start as int, w@.len() as int);
    proof {
        assert(strip_start(ts) == ts);
    }
    let mut end: usize = w.len();
    while end > start && !is_ascii_alnum_exec(w[end - 1])
        invariant
            start <= end <= w.len(),
            strip_end(ts) == strip_end(w@.subrange(start as int, end as int)),
            ts == w@.subrange(start as int, w@.len() as int),
        decreases end - start,
    {
        proof {
            let t = w@.subrange(start as int, end as int);
            assert(t.drop_last() == w@.subrange(start as int, end as int - 1));
            assert(t.last() == w@[end - 1]);
        }
        end = end - 1;
    }
    let mut out: Vec<char> = Vec::new();
    let mut i: usize = start;
    while i < end
        invariant
            start <= i <= end,
            end <= w.len(),
            out@ == w@.subrange(start as int, i as int),
        decreases end - i,
    {
        out.push(w[i]);
        proof {
            assert(w@.subrange(start as int, i as int + 1) == w@.subrange(start as int, i as int).push(
                w@[i as int],
            ));
        }
        i = i + 1;
    }
    proof {
        let t = w@.subrange(start as int, end as int);
        if t.len() > 0 {
            assert(t.last() == w@[end - 1]);
        }
        assert(strip_end(t) == t);
    }
    out
}

fn is_cab_word_exec(w: &Vec<char>) -> (r: bool)
    ensures
        r == is_cab_word(w@),
{
    let s = string_from_chars(w);
    same_text(s.as_str(), "cab") || same_text(s.as_str(), "cabs") || same_text(s.as_str(), "cabinet")
}

/// Whether a model's name claims a full signal chain (see
/// `spec_name_suggests_cab`).
pub fn name_suggests_cab(name: &str) -> (r: bool)
    ensures
        r == spec_name_suggests_cab(name@),
{
    let raw = chars_of(name);
    let mut n: Vec<char> = Vec::new();
    let mut i: usize = 0;
    while i < raw.len()
        invariant
            i <= raw.len(),
            n@ == normalized_name(raw@.take(i as int)),
        decreases raw.len() - i,
    {
        n.push(cab_normal_exec(raw[i]));
        proof {
            assert(normalized_name(raw@.take(i as int + 1)) == normalized_name(raw@.take(i as int)).push(
                cab_normal(raw@[i as int]),
            ));
        }
        i = i + 1;
    }
    proof {
        assert(raw@.take(raw@.len() as int) == raw@);
    }
    let full_rig = chars_of("full rig");
    let fullrig = chars_of("fullrig");
    if contains_run_exec(&n, &full_rig) || contains_run_exec(&n, &fullrig) {
        return true;
    }
    let ghost s = n@;
    proof {
        assert(s == normalized_name(name@));
    }
    let mut pos: usize = 0;
    while pos < n.len()
        invariant
            s == n@,
            s == normalized_name(name@),
            !contains_run(s, "full rig"@),
            !contains_run(s, "fullrig"@),
            pos <= n.len(),
            pos == 0 || pos == n.len() || is_white_space(s[pos as int]) || is_white_space(s[pos - 1]),
            forall|a: int, b: int|
                #[trigger] word_at(s, a, b) && a < pos ==> !is_cab_word(
                    strip_end(strip_start(s.subrange(a, b))),
                ),
        decreases n.len() - pos,
    {
        let mut start = pos;
        while start < n.len() && is_white_space_exec(n[start])
            invariant
                s == n@,
                pos <= start <= n.len(),
                forall|k: int| pos <= k < start ==> is_white_space(#[trigger] s[k]),
            decreases n.len() - start,
        {
            start = start + 1;
        }
        if start == n.len() {
            proof {
                assert forall|a: int, b: int| #[trigger] word_at(s, a, b) implies !is_cab_word(
                    strip_end(strip_start(s.subrange(a, b))),
                ) by {
                    if a >= pos {
                        assert(is_white_space(s[a]));
                    }
                }
            }
            return false;
        }
        let mut end = start;
        while end < n.len() && !is_white_space_exec(n[end])
            invariant
                s == n@,
                start <= end <= n.len(),
                forall|k: int| start <= k < end ==> !is_white_space(#[trigger] s[k]),
            decreases n.len() - end,
        {
            end = end + 1;
        }
        let mut word: Vec<char> = Vec::new();
        let mut k = start;
        while k < end
            invariant
                s == n@,
                start <= k <= end,
                end <= n.len(),
                word@ == s.subrange(start as int, k as int),
            decreases end - k,
        {
            word.push(n[k]);
            proof {
                assert(s.subrange(start as int, k as int + 1) == s.subrange(start as int, k as int).push(
                    s[k as int],
                ));
            }
            k = k + 1;
        }
        proof {
            assert(start == 0 || is_white_space(s[start - 1])) by {
                if start > pos {
                    assert(is_white_space(s[start - 1]));
                }
            }
            assert(word_at(s, start as int, end as int));
        }
        if is_cab_word_exec(&strip_word(&word)) {
            return true;
        }
        proof {
            assert forall|a: int, b: int| #[trigger] word_at(s, a, b) && a < end implies !is_cab_word(
                strip_end(strip_start(s.subrange(a, b))),
            ) by {
                if a >= pos && a < start {
                    assert(is_white_space(s[a]));
                } else if a == start {
                    if b < end {
                        assert(!is_white_space(s[b]));
                    }
                    if b > end {
                        assert(is_white_space(s[end as int]));
                    }
                } else if a > start {
                    assert(!is_white_space(s[a - 1]));
                }
            }
        }
        pos = end;
    }
    proof {
        assert forall|a: int, b: int| #[trigger] word_at(s, a, b) implies !is_cab_word(
            strip_end(strip_start(s.subrange(a, b))),
        ) by {
            assert(a < pos);
        }
    }
    false
}


/// A `gear_type` as `nam_rs` compares it: trimmed, ASCII-lowered, with `-`
/// read as `_`.
pub open spec fn gear_type_key(g: Seq<char>) -> Seq<char> {
    to_ascii_lower(trim(g)).map_values(|c: char| if c == '-' { '_' } else { c })
}

/// `cab` is one of the `_`-separated tokens of `k`.
pub open spec fn has_cab_token(k: Seq<char>) -> bool {
    exists|i: int|
        #![trigger k.subrange(i, i + 3)]
        0 <= i && i + 3 <= k.len() && k.subrange(i, i + 3) == seq!['c', 'a', 'b'] && (i == 0 || k[i
            - 1] == '_') && (i + 3 == k.len() || k[i + 3] == '_')
}

/// What a capture's `gear_type` says about a speaker cab: `Some(false)` for
/// gear that stops before the speaker, `Some(true)` for a whole recorded chain
/// or anything naming `cab` as a token, `None` when absent or unplaceable.
pub open spec fn spec_includes_cab(gear_type: Option<Seq<char>>) -> Option<bool> {
    match gear_type {
        None => None,
        Some(g) => {
            let k = gear_type_key(g);
            if k == "amp"@ || k == "preamp"@ || k == "pedal"@ || k == "pedal_amp"@ || k
                == "outboard"@ || k == "space"@ {
                Some(false)
            } else if k == "full_rig"@ || k == "ir"@ || has_cab_token(k) {
                Some(true)
            } else {
                None
            }
        },
    }
}

/// Asks `nam_rs::Metadata::includes_cab` about metadata whose only recorded
/// field is `gear_type`; the method reads no other field. Its contract is the
/// classification that method documents and implements: the value is trimmed,
/// ASCII-lowered and `-` read as `_`, then `amp`, `preamp`, `pedal`,
/// `pedal_amp`, `outboard`, `space` give `Some(false)`; `full_rig`, `ir` and any
/// value with a `_`-separated `cab` token give `Some(true)`; anything else,
/// and an absent `gear_type`, gives `None`.
#[verifier::external_body]
fn includes_cab_of(gear_type: Option<String>) -> (r: Option<bool>)
    ensures
        r == spec_includes_cab(opt_text(gear_type)),
{
    let mut md = nam_rs::Metadata::default();
    md.gear_type = gear_type;
    md.includes_cab()
}

/// The fields of a `.nam` file's metadata that the summary is built from, as
/// plain values. The loudness is kept by its IEEE-754 bit pattern.
#[derive(Debug, Clone)]
pub struct MetadataSummary {
    pub name: Option<String>,
    pub modeled_by: Option<String>,
    pub gear_make: Option<String>,
    pub gear_model: Option<String>,
    pub gear_type: Option<String>,
    pub tone_type: Option<String>,
    pub loudness_bits: Option<u32>,
}

/// `nam_rs::NamModel`, a parsed `.nam` file, carried as an opaque value.
#[verifier::external_type_specification]
#[verifier::external_body]
pub struct ExNamModel(nam_rs::NamModel);

/// The metadata fields `nam_rs::NamModel::metadata_typed` reads from a
/// parsed model (a serde parse of its `metadata` block, defaults where the
/// block is missing or malformed): a function of the model alone.
pub uninterp spec fn model_metadata(model: nam_rs::NamModel) -> MetadataFields;

/// Reads a parsed model's metadata through `nam_rs::NamModel::metadata_typed`
/// and copies the fields the summary needs into a `MetadataSummary` (the
/// loudness by its bit pattern): the fields are the model's named metadata.
#[verifier::external_body]
fn read_metadata(model: &nam_rs::NamModel) -> (r: MetadataSummary)
    ensures
        summary_fields(r) == model_metadata(*model),
{
    let md = model.metadata_typed();
    MetadataSummary {
        name: md.name,
        modeled_by: md.modeled_by,
        gear_make: md.gear_make,
        gear_model: md.gear_model,
        gear_type: md.gear_type,
        tone_type: md.tone_type,
        loudness_bits: md.loudness.map(|x| x.to_bits()),
    }
}

/// Make and model joined for display: identical values (ignoring ASCII case)
/// are the same name written twice; otherwise "make model", or whichever side
/// is present.
pub open spec fn spec_gear(make: Option<Seq<char>>, model: Option<Seq<char>>) -> Option<
    Seq<char>,
> {
    match make {
        Some(a) => match model {
            Some(b) => if to_ascii_lower(a) == to_ascii_lower(b) {
                Some(a)
            } else {
                Some(a + seq![' '] + b)
            },
            None => Some(a),
        },
        None => model,
    }
}

/// Whether the capture includes a cab, and whether that was read off its name:
/// the metadata's own verdict stands unless it is absent, or no descriptive
/// field was filled in, and the name suggests a cab; the name only ever
/// upgrades the verdict to `Some(true)`.
pub open spec fn cab_verdict(metadata_cab: Option<bool>, descriptive_unfilled: bool, name: Seq<
    char,
>) -> (Option<bool>, bool) {
    if metadata_cab == Some(true) {
        (Some(true), false)
    } else if (metadata_cab is None || descriptive_unfilled) && spec_name_suggests_cab(name) {
        (Some(true), true)
    } else {
        (metadata_cab, false)
    }
}

/// The display summary that `md` gives, with `fallback` as the model's name
/// when the metadata has no usable one.
pub open spec fn describes(r: ModelInfo, md: MetadataSummary, fallback: Seq<char>) -> bool {
    describes_fields(r, summary_fields(md), fallback)
}

/// The metadata fields the summary reads, as plain values: name,
/// modeled-by, gear make, gear model, gear type, tone type, and the bit
/// pattern of the loudness.
pub type MetadataFields = (
    Option<Seq<char>>,
    Option<Seq<char>>,
    Option<Seq<char>>,
    Option<Seq<char>>,
    Option<Seq<char>>,
    Option<Seq<char>>,
    Option<u32>,
);

/// The fields of a metadata summary.
pub open spec fn summary_fields(md: MetadataSummary) -> MetadataFields {
    (
        opt_text(md.name),
        opt_text(md.modeled_by),
        opt_text(md.gear_make),
        opt_text(md.gear_model),
        opt_text(md.gear_type),
        opt_text(md.tone_type),
        md.loudness_bits,
    )
}

/// The display summary that metadata with fields `f` gives, with `fallback`
/// as the model's name when the metadata has no usable one.
pub open spec fn describes_fields(r: ModelInfo, f: MetadataFields, fallback: Seq<char>) -> bool {
    let gear = spec_gear(spec_meaningful(f.2), spec_meaningful(f.3));
    let tone = spec_meaningful(f.5);
    let name = match spec_meaningful(f.0) {
        Some(n) => n,
        None => fallback,
    };
    &&& opt_text(r.gear) == gear
    &&& opt_text(r.tone_type) == tone
    &&& opt_text(r.modeled_by) == spec_meaningful(f.1)
    &&& r.loudness_lufs_bits == f.6
    &&& (r.includes_cab, r.cab_from_name) == cab_verdict(
        spec_includes_cab(f.4),
        gear is None && tone is None,
        name,
    )
}

/// The summary's gear is the make or the model alone when only one of them
/// is meaningful, the make once when both name the same thing (ignoring
/// ASCII case), "make model" otherwise, and absent only when neither is
/// meaningful.
pub proof fn law_gear_joins_make_and_model(r: ModelInfo, f: MetadataFields, fallback: Seq<char>)
    requires
        describes_fields(r, f, fallback),
    ensures
        ({
            let make = spec_meaningful(f.2);
            let model = spec_meaningful(f.3);
            &&& r.gear is None <==> (make is None && model is None)
            &&& make is None && model is Some ==> opt_text(r.gear) == model
            &&& make is Some && model is None ==> opt_text(r.gear) == make
            &&& make is Some && model is Some ==> opt_text(r.gear) == if to_ascii_lower(make->0)
                == to_ascii_lower(model->0) {
                make
            } else {
                Some(make->0 + seq![' '] + model->0)
            }
        }),
{
}

/// A cab verdict from the metadata that says a cab is included stands and
/// is not credited to the name; the name can only ever turn the verdict
/// into "cab included", and only when the metadata gives no verdict or no
/// descriptive field is filled in; otherwise the metadata's verdict stands.
pub proof fn law_name_only_upgrades_the_cab_verdict(r: ModelInfo, f: MetadataFields, fallback: Seq<char>)
    requires
        describes_fields(r, f, fallback),
    ensures
        spec_includes_cab(f.4) == Some(true) ==> r.includes_cab == Some(true) && !r.cab_from_name,
        r.cab_from_name ==> r.includes_cab == Some(true) && spec_includes_cab(f.4) != Some(true),
        !r.cab_from_name ==> r.includes_cab == spec_includes_cab(f.4),
        r.cab_from_name && spec_includes_cab(f.4) == Some(false) ==> r.gear is None && r.tone_type is None,
{
}

/// The subset of a model's metadata worth putting on screen, extracted once.
#[derive(Debug, Clone, PartialEq)]
pub struct ModelInfo {
    /// Whether the capture already contains a speaker cab; `None` when the file
    /// does not say, or says something that cannot be placed.
    pub includes_cab: Option<bool>,
    /// `includes_cab` was read off the model's name rather than its
    /// `gear_type`.
    pub cab_from_name: bool,
    /// The modelled gear, make and model joined.
    pub gear: Option<String>,
    /// Character of the tone, e.g. `"overdrive"`.
    pub tone_type: Option<String>,
    /// Who captured the model.
    pub modeled_by: Option<String>,
    /// Output loudness, by the IEEE-754 bit pattern of its `f32`.
    pub loudness_lufs_bits: Option<u32>,
}

impl Default for ModelInfo {
    fn default() -> (r: ModelInfo)
        ensures
            r.includes_cab is None,
            !r.cab_from_name,
            r.gear is None,
            r.tone_type is None,
            r.modeled_by is None,
            r.loudness_lufs_bits is None,
    {
        ModelInfo {
            includes_cab: None,
            cab_from_name: false,
            gear: None,
            tone_type: None,
            modeled_by: None,
            loudness_lufs_bits: None,
        }
    }
}

/// `a`, a space, then `b`.
fn join_spaced(a: &str, b: &str) -> (r: String)
    ensures
        r@ == a@ + seq![' '] + b@,
{
    let mut v = chars_of(a);
    v.push(' ');
    let w = chars_of(b);
    let ghost start = v@;
    let mut i: usize = 0;
    while i < w.len()
        invariant
            i <= w.len(),
            v@ == start + w@.take(i as int),
        decreases w.len() - i,
    {
        v.push(w[i]);
        proof {
            assert(w@.take(i as int + 1) == w@.take(i as int).push(w@[i as int]));
        }
        i = i + 1;
    }
    proof {
        assert(w@.take(w@.len() as int) == w@);
    }
    string_from_chars(&v)
}

/// Whether two strings are equal ignoring ASCII case.
fn eq_ignore_ascii_case(a: &str, b: &str) -> (r: bool)
    ensures
        r == (to_ascii_lower(a@) == to_ascii_lower(b@)),
{
    let la = string_from_chars(&lower_chars(&chars_of(a)));
    let lb = string_from_chars(&lower_chars(&chars_of(b)));
    same_text(la.as_str(), lb.as_str())
}

fn join_gear(make: Option<String>, model: Option<String>) -> (r: Option<String>)
    ensures
        opt_text(r) == spec_gear(opt_text(make), opt_text(model)),
{
    match make {
        Some(a) => match model {
            Some(b) => {
                if eq_ignore_ascii_case(a.as_str(), b.as_str()) {
                    Some(a)
                } else {
                    Some(join_spaced(a.as_str(), b.as_str()))
                }
            },
            None => Some(a),
        },
        None => model,
    }
}

impl ModelInfo {
    /// Builds the display summary from the metadata's fields; `fallback_name`
    /// (the model's file stem) stands in for a missing or placeholder `name`.
    pub fn from_metadata(md: MetadataSummary, fallback_name: &str) -> (r: ModelInfo)
        ensures
            describes(r, md, fallback_name@),
    {
        let ghost g = md;
        let metadata_cab = includes_cab_of(md.gear_type);
        let gear = join_gear(meaningful(md.gear_make), meaningful(md.gear_model));
        let tone_type = meaningful(md.tone_type);
        let name = meaningful(md.name);
        let descriptive_unfilled = gear.is_none() && tone_type.is_none();
        let (includes_cab, cab_from_name) = if metadata_cab == Some(true) {
            (Some(true), false)
        } else {
            let consult = metadata_cab.is_none() || descriptive_unfilled;
            let suggests = if consult {
                match &name {
                    Some(n) => name_suggests_cab(n.as_str()),
                    None => name_suggests_cab(fallback_name),
                }
            } else {
                false
            };
            if consult && suggests {
                (Some(true), true)
            } else {
                (metadata_cab, false)
            }
        };
        ModelInfo {
            includes_cab,
            cab_from_name,
            gear,
            tone_type,
            modeled_by: meaningful(md.modeled_by),
            loudness_lufs_bits: md.loudness_bits,
        }
    }

    /// Extracts the display summary from a parsed model: the one
    /// `from_metadata` builds from the model's metadata, with
    /// `fallback_name` (the model's file stem) standing in for a missing name.
    pub fn from_model(model: &nam_rs::NamModel, fallback_name: &str) -> (r: ModelInfo)
        ensures
            describes_fields(r, model_metadata(*model), fallback_name@),
    {
        let md = read_metadata(model);
        Self::from_metadata(md, fallback_name)
    }

    /// True when there is nothing at all to show.
    pub fn is_empty(&self) -> (r: bool)
        ensures
            r == (self.gear is None && self.tone_type is None && self.modeled_by is None
                && self.loudness_lufs_bits is None),
    {
        self.gear.is_none() && self.tone_type.is_none() && self.modeled_by.is_none()
            && self.loudness_lufs_bits.is_none()
    }
}

/// The name is only ever evidence for a cab: whatever the metadata's own
/// verdict, the summary's verdict is either that one, unchanged and not marked
/// as read off the name, or `Some(true)` marked as read off the name.
pub proof fn law_name_only_upgrades(r: ModelInfo, md: MetadataSummary, fallback: Seq<char>)
    requires
        describes(r, md, fallback),
    ensures
        (r.includes_cab == spec_includes_cab(opt_text(md.gear_type)) && !r.cab_from_name) || (
        r.includes_cab == Some(true) && r.cab_from_name),
        r.cab_from_name ==> r.includes_cab == Some(true),
        spec_includes_cab(opt_text(md.gear_type)) == Some(true) ==> r.includes_cab == Some(true)
            && !r.cab_from_name,
{
}

} // verus!
