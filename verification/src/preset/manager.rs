//! The preset manager: the list of known presets, the file each one was read
//! from, and the decisions about which file a save or a delete touches.
//!
//! Presets are identified by the name stored inside them, never by their
//! filename. The manager remembers where each loaded preset came from so
//! that saves and deletes target that file, and hands out a fresh filename
//! only when nothing else occupies it.

use vstd::prelude::*;

use super::naming::{sanitize_filename, hashed_stem, spec_sanitize_filename, spec_hashed_stem};
use super::Preset;
use super::stage_config::{amp_then_effects, enforce_stage_ordering};
use crate::collation::{Named, names_of, sort_by_name, sorted_by_name, with_name};
use crate::text::{chars_of, same_text, string_from_chars};

verus! {

/// `a` is `b` with its preset's stages in chain order: amplifier stages,
/// then effects, each in their original order.
pub open spec fn chain_ordered(a: LoadedPreset, b: LoadedPreset) -> bool {
    &&& a.file == b.file
    &&& a.preset.name == b.preset.name
    &&& a.preset.ir_name == b.preset.ir_name
    &&& a.preset.ir_gain_bits == b.preset.ir_gain_bits
    &&& a.preset.pitch_shift_semitones == b.preset.pitch_shift_semitones
    &&& a.preset.input_filters == b.preset.input_filters
    &&& a.preset.stages@ == amp_then_effects(b.preset.stages@)
}

/// Each of `a` is the one at its position in `b` with its stages in chain
/// order.
pub open spec fn chain_ordered_all(a: Seq<LoadedPreset>, b: Seq<LoadedPreset>) -> bool {
    &&& a.len() == b.len()
    &&& forall|i: int| 0 <= i < a.len() ==> chain_ordered(#[trigger] a[i], b[i])
}

/// Reordering stages moves no preset to another file.
proof fn lemma_ordering_keeps_files(a: Seq<LoadedPreset>, b: Seq<LoadedPreset>, n: Seq<char>)
    requires
        chain_ordered_all(a, b),
    ensures
        last_file_named(a, n) == last_file_named(b, n),
    decreases a.len(),
{
    if a.len() > 0 {
        assert(chain_ordered(a[a.len() - 1], b[b.len() - 1]));
        assert forall|i: int| 0 <= i < a.drop_last().len() implies chain_ordered(
            #[trigger] a.drop_last()[i],
            b.drop_last()[i],
        ) by {
            assert(chain_ordered(a[i], b[i]));
        }
        lemma_ordering_keeps_files(a.drop_last(), b.drop_last(), n);
    }
}

/// Puts each preset's stages in chain order.
fn order_stages(loaded: Vec<LoadedPreset>) -> (r: Vec<LoadedPreset>)
    ensures
        chain_ordered_all(r@, loaded@),
{
    let ghost orig = loaded@;
    let mut rest = loaded;
    let mut out: Vec<LoadedPreset> = Vec::new();
    while rest.len() > 0
        invariant
            out@.len() + rest@.len() == orig.len(),
            rest@ == orig.skip(out@.len() as int),
            forall|i: int| 0 <= i < out@.len() ==> chain_ordered(#[trigger] out@[i], orig[i]),
        decreases rest.len(),
    {
        let ghost k = out@.len() as int;
        let lp = rest.remove(0);
        assert(lp == orig[k]);
        let LoadedPreset { file, preset } = lp;
        let mut preset = preset;
        enforce_stage_ordering(&mut preset.stages);
        out.push(LoadedPreset { file, preset });
        proof {
            assert(orig.skip(k).drop_first() =~= orig.skip(k + 1));
        }
    }
    out
}

/// How far `path_for` counts when even the digest-suffixed stem is taken.
pub const MAX_DISAMBIGUATION_ATTEMPTS: u32 = 1000;

/// A preset name and the file (relative to the preset directory) it was
/// read from.
#[derive(Debug, Clone)]
pub struct PresetFile {
    pub name: String,
    pub file: String,
}

/// A preset read from disk, with the file it came from.
#[derive(Debug, Clone)]
pub struct LoadedPreset {
    pub file: String,
    pub preset: Preset,
}

/// Why a save or delete cannot go ahead.
#[derive(Debug, Clone, PartialEq, Eq)]
pub enum PresetError {
    /// The manager holds presets only in memory; nothing can be saved.
    ReadOnlySave,
    /// The manager holds presets only in memory; nothing can be deleted.
    ReadOnlyDelete,
    /// No file is attributed to the named preset, or that file is gone.
    NotFound(String),
}

/// `stem.json`.
pub open spec fn json_file(stem: Seq<char>) -> Seq<char> {
    stem + seq!['.', 'j', 's', 'o', 'n']
}

/// The decimal digit of `d < 10`.
pub open spec fn decimal_digit(d: nat) -> char {
    (48 + d) as char
}

/// Decimal representation of `n`, without leading zeros.
pub open spec fn decimal(n: nat) -> Seq<char>
    decreases n,
{
    if n < 10 {
        seq![decimal_digit(n)]
    } else {
        decimal(n / 10).push(decimal_digit(n % 10))
    }
}

/// The `n`-th numbered fallback file for a digest stem.
pub open spec fn numbered_file(hashed: Seq<char>, n: nat) -> Seq<char> {
    json_file(hashed + seq!['-'] + decimal(n))
}

/// The file names of a list of strings.
pub open spec fn views_of(v: Seq<String>) -> Seq<Seq<char>> {
    v.map_values(|s: String| s@)
}

/// The file recorded for `name`, if any.
pub open spec fn file_named(entries: Seq<PresetFile>, name: Seq<char>) -> Option<Seq<char>>
    decreases entries.len(),
{
    if entries.len() == 0 {
        None
    } else if entries.last().name@ == name {
        Some(entries.last().file@)
    } else {
        file_named(entries.drop_last(), name)
    }
}

/// Whether some name is recorded as living in `file`.
pub open spec fn owns_file(entries: Seq<PresetFile>, file: Seq<char>) -> bool {
    exists|n: Seq<char>| #[trigger] file_named(entries, n) == Some(file)
}

/// For each name, the file of the last loaded preset carrying it.
pub open spec fn last_file_named(loaded: Seq<LoadedPreset>, name: Seq<char>) -> Option<Seq<char>>
    decreases loaded.len(),
{
    if loaded.len() == 0 {
        None
    } else if loaded.last().preset.name@ == name {
        Some(loaded.last().file@)
    } else {
        last_file_named(loaded.drop_last(), name)
    }
}

/// The presets of a list of loaded files, in load order.
pub open spec fn presets_of(loaded: Seq<LoadedPreset>) -> Seq<Preset> {
    loaded.map_values(|l: LoadedPreset| l.preset)
}

/// Entries with pairwise distinct names.
pub open spec fn distinct_names(entries: Seq<PresetFile>) -> bool {
    forall|i: int, j: int|
        0 <= i < j < entries.len() ==> (#[trigger] entries[i]).name@ != (#[trigger] entries[j]).name@
}

pub struct Manager {
    presets_dir: String,
    presets: Vec<Preset>,
    preset_paths: Vec<PresetFile>,
}

impl Manager {
    #[verifier::type_invariant]
    spec fn inv(self) -> bool {
        distinct_names(self.preset_paths@)
    }

    /// The presets, in the order they are listed.
    pub closed spec fn spec_presets(&self) -> Seq<Preset> {
        self.presets@
    }

    /// The preset directory; empty for an in-memory manager.
    pub closed spec fn spec_dir(&self) -> Seq<char> {
        self.presets_dir@
    }

    /// The file attributed to the preset called `name` when it was loaded.
    pub closed spec fn file_of(&self, name: Seq<char>) -> Option<Seq<char>> {
        file_named(self.preset_paths@, name)
    }

    /// Whether some loaded preset was read from `file`.
    pub closed spec fn owns(&self, file: Seq<char>) -> bool {
        owns_file(self.preset_paths@, file)
    }

    /// A file is free for a new preset when it is not on disk and no loaded
    /// preset came from it.
    pub open spec fn unoccupied(&self, file: Seq<char>, on_disk: Seq<Seq<char>>) -> bool {
        !on_disk.contains(file) && !self.owns(file)
    }

    /// The first counter in `n..=1000` whose numbered file is free.
    pub open spec fn first_free_counter(
        &self,
        hashed: Seq<char>,
        on_disk: Seq<Seq<char>>,
        n: nat,
    ) -> Option<nat>
        decreases 1001 - n,
    {
        if n > MAX_DISAMBIGUATION_ATTEMPTS {
            None
        } else if self.unoccupied(numbered_file(hashed, n), on_disk) {
            Some(n)
        } else {
            self.first_free_counter(hashed, on_disk, n + 1)
        }
    }

    /// The file a preset called `name` is written to: the file it was loaded
    /// from; otherwise the first free one of its encoded name, its digest
    /// stem, and the digest stem numbered 1 to 1000; the digest stem when all
    /// of those are taken.
    pub open spec fn spec_path_for(&self, name: Seq<char>, on_disk: Seq<Seq<char>>) -> Seq<char> {
        match self.file_of(name) {
            Some(f) => f,
            None => {
                let plain = json_file(spec_sanitize_filename(name));
                let hashed = spec_hashed_stem(name);
                if self.unoccupied(plain, on_disk) {
                    plain
                } else if self.unoccupied(json_file(hashed), on_disk) {
                    json_file(hashed)
                } else {
                    match self.first_free_counter(hashed, on_disk, 1) {
                        Some(n) => numbered_file(hashed, n),
                        None => json_file(hashed),
                    }
                }
            },
        }
    }

    /// A manager over an in-memory list of presets, with no directory:
    /// saves and deletes are refused.
    pub fn new_from_presets(presets: Vec<Preset>) -> (r: Manager)
        ensures
            r.spec_presets() == presets@,
            r.spec_dir() == Seq::<char>::empty(),
            forall|name: Seq<char>| r.file_of(name) is None,
            forall|file: Seq<char>| !r.owns(file),
    {
        Manager { presets_dir: String::new(), presets, preset_paths: Vec::new() }
    }

    /// A manager over `presets_dir` holding the presets read from it, each
    /// with its stages in chain order.
    pub fn from_loaded(presets_dir: String, loaded: Vec<LoadedPreset>) -> (r: Manager)
        ensures
            r.spec_dir() == presets_dir@,
            exists|ordered: Seq<LoadedPreset>|
                {
                    &&& #[trigger] chain_ordered_all(ordered, loaded@)
                    &&& r.spec_presets().to_multiset() == presets_of(ordered).to_multiset()
                    &&& sorted_by_name(names_of(r.spec_presets()))
                    &&& forall|n: Seq<char>|
                        #[trigger] with_name(r.spec_presets(), n) == with_name(presets_of(ordered), n)
                },
            forall|name: Seq<char>| r.file_of(name) == last_file_named(loaded@, name),
            forall|file: Seq<char>|
                r.owns(file) <==> (exists|n: Seq<char>| #[trigger] last_file_named(loaded@, n) == Some(file)),
    {
        let mut m = Manager { presets_dir, presets: Vec::new(), preset_paths: Vec::new() };
        m.load_presets(loaded);
        m
    }

    /// Replaces the manager's contents with the presets just read from its
    /// directory, each with its stages in chain order (amplifier stages, then
    /// effects): the presets sorted by name, and for each name the file of
    /// the last preset read under it.
    pub fn load_presets(&mut self, loaded: Vec<LoadedPreset>)
        ensures
            final(self).spec_dir() == old(self).spec_dir(),
            exists|ordered: Seq<LoadedPreset>|
                {
                    &&& #[trigger] chain_ordered_all(ordered, loaded@)
                    &&& final(self).spec_presets().to_multiset() == presets_of(ordered).to_multiset()
                    &&& sorted_by_name(names_of(final(self).spec_presets()))
                    &&& forall|n: Seq<char>|
                        #[trigger] with_name(final(self).spec_presets(), n) == with_name(
                            presets_of(ordered),
                            n,
                        )
                },
            forall|name: Seq<char>| final(self).file_of(name) == last_file_named(loaded@, name),
            forall|file: Seq<char>|
                final(self).owns(file) <==> (exists|n: Seq<char>| #[trigger] last_file_named(loaded@, n) == Some(file)),
    {
        let ordered = order_stages(loaded);
        let ghost o = ordered@;
        self.load_ordered(ordered);
        proof {
            assert(chain_ordered_all(o, loaded@));
            assert forall|n: Seq<char>| last_file_named(o, n) == last_file_named(loaded@, n) by {
                lemma_ordering_keeps_files(o, loaded@, n);
            }
            assert forall|file: Seq<char>|
                self.owns(file) <==> (exists|n: Seq<char>| #[trigger] last_file_named(loaded@, n) == Some(file)) by {
                if self.owns(file) {
                    let n = choose|n: Seq<char>| #[trigger] last_file_named(o, n) == Some(file);
                    lemma_ordering_keeps_files(o, loaded@, n);
                }
                if exists|n: Seq<char>| #[trigger] last_file_named(loaded@, n) == Some(file) {
                    let n = choose|n: Seq<char>| #[trigger] last_file_named(loaded@, n) == Some(file);
                    lemma_ordering_keeps_files(o, loaded@, n);
                }
            }
        }
    }

    fn load_ordered(&mut self, loaded: Vec<LoadedPreset>)
        ensures
            final(self).spec_dir() == old(self).spec_dir(),
            final(self).spec_presets().to_multiset() == presets_of(loaded@).to_multiset(),
            sorted_by_name(names_of(final(self).spec_presets())),
            forall|n: Seq<char>|
                #[trigger] with_name(final(self).spec_presets(), n) == with_name(presets_of(loaded@), n),
            forall|name: Seq<char>| final(self).file_of(name) == last_file_named(loaded@, name),
            forall|file: Seq<char>|
                final(self).owns(file) <==> (exists|n: Seq<char>| #[trigger] last_file_named(loaded@, n) == Some(file)),
    {
        proof {
            use_type_invariant(&*self);
        }
        let ghost orig = loaded@;
        let total = loaded.len();
        let mut rest = loaded;
        let mut paths: Vec<PresetFile> = Vec::new();
        let mut presets: Vec<Preset> = Vec::new();
        let mut i: usize = 0;
        proof {
            assert(orig.skip(0) == orig);
            assert(presets@ == presets_of(orig.take(0)));
        }
        while rest.len() > 0
            invariant
                i <= orig.len(),
                i + rest.len() == orig.len(),
                total == orig.len(),
                rest@ == orig.skip(i as int),
                distinct_names(paths@),
                presets@ == presets_of(orig.take(i as int)),
                forall|name: Seq<char>|
                    file_named(paths@, name) == last_file_named(orig.take(i as int), name),
            decreases rest.len(),
        {
            let entry = rest.remove(0);
            let ghost t = orig.take(i as int + 1);
            proof {
                assert(t.drop_last() == orig.take(i as int));
                assert(t.last() == entry);
                assert(rest@ == orig.skip(i as int + 1));
            }
            let LoadedPreset { file, preset } = entry;
            record_file(&mut paths, preset.name.clone(), file);
            presets.push(preset);
            proof {
                assert(presets@ == presets_of(t));
            }
            i = i + 1;
        }
        proof {
            assert(orig.take(i as int) == orig);
        }
        self.presets = sort_by_name(presets);
        self.preset_paths = paths;
        proof {
            assert forall|file: Seq<char>|
                owns_file(paths@, file) <==> (exists|n: Seq<char>| #[trigger] last_file_named(orig, n) == Some(file)) by {
                if owns_file(paths@, file) {
                    let n = choose|n: Seq<char>| #[trigger] file_named(paths@, n) == Some(file);
                    assert(last_file_named(orig, n) == Some(file));
                }
                if exists|n: Seq<char>| #[trigger] last_file_named(orig, n) == Some(file) {
                    let n = choose|n: Seq<char>| #[trigger] last_file_named(orig, n) == Some(file);
                    assert(file_named(paths@, n) == Some(file));
                }
            }
        }
    }

    pub fn preset_exists(&self, name: &str) -> (r: bool)
        ensures
            r == exists|i: int|
                0 <= i < self.spec_presets().len() && (#[trigger] self.spec_presets()[i]).name@
                    == name@,
    {
        let mut i: usize = 0;
        while i < self.presets.len()
            invariant
                i <= self.presets.len(),
                forall|j: int| 0 <= j < i ==> (#[trigger] self.presets@[j]).name@ != name@,
            decreases self.presets.len() - i,
        {
            if same_text(self.presets[i].name.as_str(), name) {
                return true;
            }
            i = i + 1;
        }
        false
    }

    pub fn get_presets(&self) -> (r: &[Preset])
        ensures
            r@ == self.spec_presets(),
    {
        self.presets.as_slice()
    }

    /// The first listed preset called `name`.
    pub fn get_preset_by_name(&self, name: &str) -> (r: Option<&Preset>)
        ensures
            match r {
                Some(p) => exists|i: int|
                    0 <= i < self.spec_presets().len() && self.spec_presets()[i] == *p
                        && p.name@ == name@ && forall|j: int|
                        0 <= j < i ==> (#[trigger] self.spec_presets()[j]).name@ != name@,
                None => forall|i: int|
                    0 <= i < self.spec_presets().len() ==> (#[trigger] self.spec_presets()[i]).name@
                        != name@,
            },
    {
        let mut i: usize = 0;
        while i < self.presets.len()
            invariant
                i <= self.presets.len(),
                forall|j: int| 0 <= j < i ==> (#[trigger] self.presets@[j]).name@ != name@,
            decreases self.presets.len() - i,
        {
            if same_text(self.presets[i].name.as_str(), name) {
                return Some(&self.presets[i]);
            }
            i = i + 1;
        }
        None
    }
}

impl Manager {
    /// The preset directory; empty for an in-memory manager.
    pub fn presets_dir(&self) -> (r: &str)
        ensures
            r@ == self.spec_dir(),
    {
        self.presets_dir.as_str()
    }

    /// The file the preset called `name` was read from, if any.
    pub fn file_for(&self, name: &str) -> (r: Option<String>)
        ensures
            match r {
                Some(f) => self.file_of(name@) == Some(f@),
                None => self.file_of(name@) is None,
            },
    {
        proof {
            use_type_invariant(self);
            lemma_file_named(self.preset_paths@, name@);
        }
        let mut i: usize = 0;
        while i < self.preset_paths.len()
            invariant
                i <= self.preset_paths.len(),
                forall|j: int| 0 <= j < i ==> (#[trigger] self.preset_paths@[j]).name@ != name@,
            decreases self.preset_paths.len() - i,
        {
            if same_text(self.preset_paths[i].name.as_str(), name) {
                proof {
                    use_type_invariant(self);
                    lemma_file_named(self.preset_paths@, name@);
                    assert(self.preset_paths@[i as int].name@ == name@);
                }
                return Some(self.preset_paths[i].file.clone());
            }
            i = i + 1;
        }
        None
    }

    /// Whether a loaded preset was read from `file`.
    fn owns_exec(&self, file: &str) -> (r: bool)
        ensures
            r == self.owns(file@),
    {
        proof {
            use_type_invariant(self);
        }
        let ghost e = self.preset_paths@;
        let mut i: usize = 0;
        while i < self.preset_paths.len()
            invariant
                e == self.preset_paths@,
                distinct_names(e),
                i <= e.len(),
                forall|j: int| 0 <= j < i ==> (#[trigger] e[j]).file@ != file@,
            decreases e.len() - i,
        {
            if same_text(self.preset_paths[i].file.as_str(), file) {
                proof {
                    lemma_file_named(e, e[i as int].name@);
                    assert(file_named(e, e[i as int].name@) == Some(file@));
                }
                return true;
            }
            i = i + 1;
        }
        proof {
            assert forall|n: Seq<char>| #[trigger] file_named(e, n) != Some(file@) by {
                lemma_file_named(e, n);
                if exists|j: int| 0 <= j < e.len() && (#[trigger] e[j]).name@ == n {
                    let j = choose|j: int| 0 <= j < e.len() && (#[trigger] e[j]).name@ == n;
                    assert(e[j].file@ != file@);
                }
            }
        }
        false
    }

    /// Whether `file` is free for a preset about to be written: not on disk
    /// and not the file of any loaded preset.
    pub fn is_unoccupied(&self, file: &str, on_disk: &Vec<String>) -> (r: bool)
        ensures
            r == self.unoccupied(file@, views_of(on_disk@)),
    {
        !contains_text(on_disk, file) && !self.owns_exec(file)
    }

    /// The file a preset called `name` is written to (see `spec_path_for`).
    /// `on_disk` lists the files present in the preset directory.
    pub fn path_for(&self, name: &str, on_disk: &Vec<String>) -> (r: String)
        ensures
            r@ == self.spec_path_for(name@, views_of(on_disk@)),
    {
        if let Some(existing) = self.file_for(name) {
            return existing;
        }
        let candidate = file_for_stem(sanitize_filename(name).as_str());
        if self.is_unoccupied(candidate.as_str(), on_disk) {
            return candidate;
        }
        let hashed = hashed_stem(name);
        let candidate = file_for_stem(hashed.as_str());
        if self.is_unoccupied(candidate.as_str(), on_disk) {
            return candidate;
        }
        let ghost h = hashed@;
        let ghost d = views_of(on_disk@);
        let mut n: u32 = 1;
        while n <= MAX_DISAMBIGUATION_ATTEMPTS
            invariant
                1 <= n <= MAX_DISAMBIGUATION_ATTEMPTS + 1,
                h == hashed@,
                h == spec_hashed_stem(name@),
                self.file_of(name@) is None,
                !self.unoccupied(json_file(spec_sanitize_filename(name@)), d),
                !self.unoccupied(json_file(h), d),
                d == views_of(on_disk@),
                self.first_free_counter(h, d, 1) == self.first_free_counter(h, d, n as nat),
            decreases MAX_DISAMBIGUATION_ATTEMPTS + 1 - n,
        {
            let numbered = numbered_file_exec(hashed.as_str(), n);
            if self.is_unoccupied(numbered.as_str(), on_disk) {
                proof {
                    assert(self.first_free_counter(h, d, n as nat) == Some(n as nat));
                }
                return numbered;
            }
            n = n + 1;
        }
        candidate
    }

    /// The file to write when saving the preset called `name`: refused for
    /// an in-memory manager, otherwise `path_for`.
    pub fn save_target(&self, name: &str, on_disk: &Vec<String>) -> (r: Result<String, PresetError>)
        ensures
            self.spec_dir().len() == 0 ==> r == Err::<String, PresetError>(PresetError::ReadOnlySave),
            self.spec_dir().len() != 0 ==> (r matches Ok(f) && f@ == self.spec_path_for(
                name@,
                views_of(on_disk@),
            )),
    {
        if self.presets_dir.as_str().is_empty() {
            return Err(PresetError::ReadOnlySave);
        }
        Ok(self.path_for(name, on_disk))
    }

    /// The file to remove when deleting the preset called `name`: only ever
    /// the file that preset was read from, and only while it still exists.
    pub fn delete_target(&self, name: &str, on_disk: &Vec<String>) -> (r: Result<
        String,
        PresetError,
    >)
        ensures
            self.spec_dir().len() == 0 ==> r == Err::<String, PresetError>(PresetError::ReadOnlyDelete),
            self.spec_dir().len() != 0 ==> match r {
                Ok(f) => self.file_of(name@) == Some(f@) && views_of(on_disk@).contains(f@),
                Err(e) => (e matches PresetError::NotFound(n) && n@ == name@) && match self.file_of(
                    name@,
                ) {
                    Some(f) => !views_of(on_disk@).contains(f),
                    None => true,
                },
            },
    {
        if self.presets_dir.as_str().is_empty() {
            return Err(PresetError::ReadOnlyDelete);
        }
        match self.file_for(name) {
            Some(f) => {
                if contains_text(on_disk, f.as_str()) {
                    Ok(f)
                } else {
                    Err(PresetError::NotFound(name.to_owned()))
                }
            },
            None => Err(PresetError::NotFound(name.to_owned())),
        }
    }
}

/// Whether `list` holds the text `s`.
pub fn contains_text(list: &Vec<String>, s: &str) -> (r: bool)
    ensures
        r == views_of(list@).contains(s@),
{
    let mut i: usize = 0;
    while i < list.len()
        invariant
            i <= list.len(),
            forall|j: int| 0 <= j < i ==> (#[trigger] list@[j])@ != s@,
        decreases list.len() - i,
    {
        if same_text(list[i].as_str(), s) {
            proof {
                assert(views_of(list@)[i as int] == s@);
            }
            return true;
        }
        i = i + 1;
    }
    proof {
        assert forall|j: int| 0 <= j < views_of(list@).len() implies views_of(list@)[j] != s@ by {
            assert(views_of(list@)[j] == list@[j]@);
        }
    }
    false
}

/// `stem.json`.
pub fn file_for_stem(stem: &str) -> (r: String)
    ensures
        r@ == json_file(stem@),
{
    let mut v = chars_of(stem);
    v.push('.');
    v.push('j');
    v.push('s');
    v.push('o');
    v.push('n');
    string_from_chars(&v)
}

/// Appends the decimal digits of `n`.
fn push_decimal(out: &mut Vec<char>, n: u32)
    ensures
        final(out)@ == old(out)@ + decimal(n as nat),
    decreases n,
{
    if n >= 10 {
        push_decimal(out, n / 10);
    }
    let d = n % 10;
    out.push(((48 + d) as u8) as char);
    proof {
        if n >= 10 {
            assert(decimal(n as nat) == decimal((n / 10) as nat).push(decimal_digit((n % 10) as nat)));
        }
    }
}

/// The `n`-th numbered fallback file for a digest stem.
fn numbered_file_exec(hashed: &str, n: u32) -> (r: String)
    ensures
        r@ == numbered_file(hashed@, n as nat),
{
    let mut v = chars_of(hashed);
    v.push('-');
    let ghost base = v@;
    push_decimal(&mut v, n);
    v.push('.');
    v.push('j');
    v.push('s');
    v.push('o');
    v.push('n');
    proof {
        assert(v@ == json_file(hashed@ + seq!['-'] + decimal(n as nat)));
    }
    string_from_chars(&v)
}

/// A preset that was loaded keeps the file it was loaded from.
pub proof fn law_known_preset_keeps_its_file(m: Manager, name: Seq<char>, on_disk: Seq<Seq<char>>)
    requires
        m.file_of(name) is Some,
    ensures
        m.spec_path_for(name, on_disk) == m.file_of(name)->0,
{
}

/// Whether every candidate file for a new preset is taken.
pub open spec fn all_candidates_taken(m: Manager, name: Seq<char>, on_disk: Seq<Seq<char>>) -> bool {
    &&& !m.unoccupied(json_file(spec_sanitize_filename(name)), on_disk)
    &&& !m.unoccupied(json_file(spec_hashed_stem(name)), on_disk)
    &&& m.first_free_counter(spec_hashed_stem(name), on_disk, 1) is None
}

proof fn lemma_first_free_counter(m: Manager, h: Seq<char>, on_disk: Seq<Seq<char>>, n: nat)
    ensures
        m.first_free_counter(h, on_disk, n) matches Some(k) ==> m.unoccupied(
            numbered_file(h, k),
            on_disk,
        ),
    decreases 1001 - n,
{
    if n <= MAX_DISAMBIGUATION_ATTEMPTS && !m.unoccupied(numbered_file(h, n), on_disk) {
        lemma_first_free_counter(m, h, on_disk, n + 1);
    }
}

/// A preset that was never loaded is given a file that is neither on disk
/// nor the file of another preset, so saving it cannot overwrite anything —
/// unless all 1002 candidate files are already taken.
pub proof fn law_new_preset_gets_an_unoccupied_file(
    m: Manager,
    name: Seq<char>,
    on_disk: Seq<Seq<char>>,
)
    requires
        m.file_of(name) is None,
        !all_candidates_taken(m, name, on_disk),
    ensures
        m.unoccupied(m.spec_path_for(name, on_disk), on_disk),
{
    lemma_first_free_counter(m, spec_hashed_stem(name), on_disk, 1);
}

/// The file last recorded for `name` is the file of some loaded preset of
/// that name.
proof fn lemma_last_file_named_source(loaded: Seq<LoadedPreset>, name: Seq<char>)
    ensures
        last_file_named(loaded, name) matches Some(f) ==> exists|k: int|
            0 <= k < loaded.len() && (#[trigger] loaded[k]).preset.name@ == name && loaded[k].file@
                == f,
    decreases loaded.len(),
{
    if loaded.len() > 0 {
        lemma_last_file_named_source(loaded.drop_last(), name);
        if loaded.last().preset.name@ != name {
            if last_file_named(loaded, name) is Some {
                let k = choose|k: int|
                    0 <= k < loaded.drop_last().len() && (#[trigger] loaded.drop_last()[k]).preset.name@
                        == name && loaded.drop_last()[k].file@ == last_file_named(loaded, name)->0;
                assert(loaded[k] == loaded.drop_last()[k]);
            }
        } else {
            assert(loaded[loaded.len() - 1] == loaded.last());
        }
    }
}

/// The value of a string of decimal digits.
pub open spec fn digits_value(s: Seq<char>) -> int
    decreases s.len(),
{
    if s.len() == 0 {
        0
    } else {
        digits_value(s.drop_last()) * 10 + (s.last() as int - 48)
    }
}

/// The decimal form of a number is made of digits `0`-`9`, starts with a
/// non-zero digit unless the number is zero, and reads back as the number.
pub proof fn law_decimal_reads_back(n: nat)
    ensures
        decimal(n).len() >= 1,
        forall|i: int| 0 <= i < decimal(n).len() ==> '0' <= #[trigger] decimal(n)[i] <= '9',
        n > 0 ==> decimal(n)[0] != '0',
        digits_value(decimal(n)) == n,
    decreases n,
{
    if n >= 10 {
        law_decimal_reads_back(n / 10);
        let d = decimal(n);
        let front = decimal(n / 10);
        assert(d.drop_last() == front);
        assert forall|i: int| 0 <= i < d.len() implies '0' <= #[trigger] d[i] <= '9' by {
            if i < front.len() {
                assert(d[i] == front[i]);
            }
        }
        assert(d[0] == front[0]);
        assert(n == (n / 10) * 10 + n % 10);
        assert(d.last() == decimal_digit((n % 10) as nat));
        assert(decimal_digit((n % 10) as nat) as int == 48 + n % 10);
        assert(digits_value(d) == digits_value(front) * 10 + (d.last() as int - 48));
    } else {
        let d = decimal(n);
        assert(d.drop_last() =~= Seq::<char>::empty());
        assert(d.last() == decimal_digit(n));
        assert(decimal_digit(n) as int == 48 + n);
        assert(digits_value(d) == digits_value(d.drop_last()) * 10 + (d.last() as int - 48));
    }
}

/// The file recorded for a name among loaded presets is that of the last
/// preset carrying the name; there is none exactly when no preset carries
/// it.
pub proof fn law_last_file_named_is_the_last_reading(loaded: Seq<LoadedPreset>, name: Seq<char>)
    ensures
        last_file_named(loaded, name) is None <==> forall|k: int|
            0 <= k < loaded.len() ==> (#[trigger] loaded[k]).preset.name@ != name,
        last_file_named(loaded, name) matches Some(f) ==> exists|k: int|
            {
                &&& 0 <= k < loaded.len()
                &&& (#[trigger] loaded[k]).preset.name@ == name
                &&& loaded[k].file@ == f
                &&& forall|l: int| k < l < loaded.len() ==> (#[trigger] loaded[l]).preset.name@ != name
            },
    decreases loaded.len(),
{
    if loaded.len() > 0 {
        let init = loaded.drop_last();
        law_last_file_named_is_the_last_reading(init, name);
        let last = loaded.len() - 1;
        assert(loaded.last() == loaded[last]);
        assert forall|k: int| 0 <= k < init.len() implies #[trigger] init[k] == loaded[k] by {}
        if loaded[last].preset.name@ != name {
            if let Some(f) = last_file_named(init, name) {
                let k = choose|k: int|
                    {
                        &&& 0 <= k < init.len()
                        &&& (#[trigger] init[k]).preset.name@ == name
                        &&& init[k].file@ == f
                        &&& forall|l: int| k < l < init.len() ==> (#[trigger] init[l]).preset.name@ != name
                    };
                assert(loaded[k] == init[k]);
                assert forall|l: int| k < l < loaded.len() implies (#[trigger] loaded[l]).preset.name@ != name by {
                    if l < init.len() {
                        assert(loaded[l] == init[l]);
                    }
                }
            } else {
                assert forall|k: int| 0 <= k < loaded.len() implies (#[trigger] loaded[k]).preset.name@ != name by {
                    if k < init.len() {
                        assert(loaded[k] == init[k]);
                    }
                }
            }
        }
    }
}

/// The counter found is the least one from `n` to 1000 whose numbered file
/// is free; none is found exactly when all of them are taken.
pub proof fn law_first_free_counter_is_the_least(m: Manager, hashed: Seq<char>, on_disk: Seq<Seq<char>>, n: nat)
    ensures
        m.first_free_counter(hashed, on_disk, n) matches Some(k) ==> {
            &&& n <= k <= MAX_DISAMBIGUATION_ATTEMPTS
            &&& m.unoccupied(numbered_file(hashed, k), on_disk)
            &&& forall|j: nat| n <= j < k ==> !m.unoccupied(#[trigger] numbered_file(hashed, j), on_disk)
        },
        m.first_free_counter(hashed, on_disk, n) is None ==> forall|j: nat|
            n <= j <= MAX_DISAMBIGUATION_ATTEMPTS ==> !m.unoccupied(#[trigger] numbered_file(hashed, j), on_disk),
    decreases 1001 - n,
{
    if n <= MAX_DISAMBIGUATION_ATTEMPTS && !m.unoccupied(numbered_file(hashed, n), on_disk) {
        law_first_free_counter_is_the_least(m, hashed, on_disk, n + 1);
        assert forall|j: nat| n <= j < n + 1 implies !m.unoccupied(#[trigger] numbered_file(hashed, j), on_disk) by {
            assert(j == n);
        }
    }
}

/// Some loaded preset is called `x`.
pub open spec fn holds_name(loaded: Seq<LoadedPreset>, x: Seq<char>) -> bool {
    exists|k: int| 0 <= k < loaded.len() && (#[trigger] loaded[k]).preset.name@ == x
}

/// The directory's presets as read again after `written` was saved: every
/// file but the one written, as before, and the written file holding the
/// saved preset.
pub open spec fn reloaded(loaded: Seq<LoadedPreset>, written: LoadedPreset) -> Seq<LoadedPreset> {
    loaded.filter(|q: LoadedPreset| q.file@ != written.file@).push(written)
}

/// A save overwrites no other preset: the file `path_for` picks for a name
/// holds no loaded preset of another name, so reading the directory again
/// gives exactly the names it had plus the saved one. (For a new name this
/// holds unless all of its candidate files are taken.) The manager is the one
/// loaded from `loaded`, whose files are distinct and all on disk.
pub proof fn law_save_keeps_other_presets(
    m: Manager,
    loaded: Seq<LoadedPreset>,
    on_disk: Seq<Seq<char>>,
    written: LoadedPreset,
)
    requires
        forall|n: Seq<char>| #[trigger] m.file_of(n) == last_file_named(loaded, n),
        forall|i: int, j: int|
            0 <= i < j < loaded.len() ==> (#[trigger] loaded[i]).file@ != (#[trigger] loaded[j]).file@,
        forall|i: int| 0 <= i < loaded.len() ==> on_disk.contains((#[trigger] loaded[i]).file@),
        written.file@ == m.spec_path_for(written.preset.name@, on_disk),
        m.file_of(written.preset.name@) is Some || !all_candidates_taken(
            m,
            written.preset.name@,
            on_disk,
        ),
    ensures
        forall|i: int|
            0 <= i < loaded.len() && (#[trigger] loaded[i]).preset.name@ != written.preset.name@
                ==> loaded[i].file@ != written.file@,
        forall|x: Seq<char>|
            #[trigger] holds_name(reloaded(loaded, written), x) <==> (x == written.preset.name@
                || holds_name(loaded, x)),
{
    let n = written.preset.name@;
    let f = written.file@;
    let pred = |q: LoadedPreset| q.file@ != f;
    assert(pred == (|q: LoadedPreset| q.file@ != written.file@));
    let filt = loaded.filter(pred);
    let r = reloaded(loaded, written);
    assert(r == filt.push(written));
    if m.file_of(n) is Some {
        lemma_last_file_named_source(loaded, n);
    } else {
        law_new_preset_gets_an_unoccupied_file(m, n, on_disk);
    }
    assert forall|i: int|
        0 <= i < loaded.len() && (#[trigger] loaded[i]).preset.name@ != n implies loaded[i].file@
        != f by {
        if m.file_of(n) is Some {
            let k = choose|k: int|
                0 <= k < loaded.len() && (#[trigger] loaded[k]).preset.name@ == n && loaded[k].file@
                    == last_file_named(loaded, n)->0;
            if i < k {
                assert(loaded[i].file@ != loaded[k].file@);
            } else if i > k {
                assert(loaded[k].file@ != loaded[i].file@);
            }
        } else {
            assert(on_disk.contains(loaded[i].file@));
        }
    }
    assert forall|x: Seq<char>| #[trigger] holds_name(r, x) <==> (x == n || holds_name(loaded, x)) by {
        if exists|k: int| 0 <= k < r.len() && (#[trigger] r[k]).preset.name@ == x {
            let k = choose|k: int| 0 <= k < r.len() && (#[trigger] r[k]).preset.name@ == x;
            if k < filt.len() {
                assert(r[k] == filt[k]);
                assert(filt.contains(filt[k]));
                loaded.lemma_filter_contains_rev(pred, filt[k]);
                let i = choose|i: int| 0 <= i < loaded.len() && loaded[i] == filt[k];
                assert(loaded[i].preset.name@ == x);
            }
        }
        if x == n {
            assert(r[r.len() - 1].preset.name@ == x);
        } else if exists|i: int| 0 <= i < loaded.len() && (#[trigger] loaded[i]).preset.name@ == x {
            let i = choose|i: int| 0 <= i < loaded.len() && (#[trigger] loaded[i]).preset.name@ == x;
            assert(pred(loaded[i]));
            loaded.lemma_filter_contains(pred, i);
            let k = choose|k: int| 0 <= k < filt.len() && filt[k] == loaded[i];
            assert(r[k] == filt[k]);
        }
    }
}

/// In entries with distinct names, the file recorded for `n` is that of the
/// entry called `n`, if there is one.
proof fn lemma_file_named(entries: Seq<PresetFile>, n: Seq<char>)
    requires
        distinct_names(entries),
    ensures
        forall|i: int|
            0 <= i < entries.len() && (#[trigger] entries[i]).name@ == n ==> file_named(entries, n)
                == Some(entries[i].file@),
        (forall|i: int| 0 <= i < entries.len() ==> (#[trigger] entries[i]).name@ != n)
            ==> file_named(entries, n) is None,
    decreases entries.len(),
{
    if entries.len() > 0 {
        let init = entries.drop_last();
        assert(distinct_names(init)) by {
            assert forall|i: int, j: int| 0 <= i < j < init.len() implies (#[trigger] init[i]).name@
                != (#[trigger] init[j]).name@ by {
                assert(init[i] == entries[i] && init[j] == entries[j]);
            }
        }
        lemma_file_named(init, n);
        assert forall|i: int|
            0 <= i < entries.len() && (#[trigger] entries[i]).name@ == n implies file_named(
            entries,
            n,
        ) == Some(entries[i].file@) by {
            if i < entries.len() - 1 {
                assert(init[i] == entries[i]);
                assert(entries.last().name@ != n);
            }
        }
        if forall|i: int| 0 <= i < entries.len() ==> (#[trigger] entries[i]).name@ != n {
            assert(entries.last() == entries[entries.len() - 1]);
            assert forall|i: int| 0 <= i < init.len() implies (#[trigger] init[i]).name@ != n by {
                assert(init[i] == entries[i]);
            }
        }
    }
}

/// Records that the preset `name` lives in `file`, replacing an earlier
/// record for the same name.
fn record_file(paths: &mut Vec<PresetFile>, name: String, file: String)
    requires
        distinct_names(old(paths)@),
    ensures
        distinct_names(final(paths)@),
        forall|n: Seq<char>|
            #[trigger] file_named(final(paths)@, n) == if n == name@ {
                Some(file@)
            } else {
                file_named(old(paths)@, n)
            },
{
    let ghost e0 = paths@;
    let mut k: usize = 0;
    while k < paths.len()
        invariant
            paths@ == e0,
            k <= paths.len(),
            forall|j: int| 0 <= j < k ==> (#[trigger] paths@[j]).name@ != name@,
        ensures
            k <= paths.len(),
            forall|j: int| 0 <= j < k ==> (#[trigger] paths@[j]).name@ != name@,
            k < paths.len() ==> paths@[k as int].name@ == name@,
        decreases paths.len() - k,
    {
        if paths[k].name == name {
            break;
        }
        k = k + 1;
    }
    let ghost found = k < paths.len();
    if k < paths.len() {
        paths.remove(k);
    }
    let ghost e1 = paths@;
    proof {
        assert forall|i: int, j: int| 0 <= i < j < e1.len() implies (#[trigger] e1[i]).name@
            != (#[trigger] e1[j]).name@ by {
            if found {
                let ii = if i < k { i } else { i + 1 };
                let jj = if j < k { j } else { j + 1 };
                assert(e1[i] == e0[ii] && e1[j] == e0[jj]);
            } else {
                assert(e1[i] == e0[i] && e1[j] == e0[j]);
            }
        }
        assert forall|i: int| 0 <= i < e1.len() implies (#[trigger] e1[i]).name@ != name@ by {
            if found {
                let ii = if i < k { i } else { i + 1 };
                assert(e1[i] == e0[ii]);
            } else {
                assert(e1[i] == e0[i]);
            }
        }
    }
    let ghost nm = name@;
    let ghost fl = file@;
    paths.push(PresetFile { name, file });
    proof {
        let e2 = paths@;
        assert(e2.drop_last() == e1);
        assert(distinct_names(e2)) by {
            assert forall|i: int, j: int| 0 <= i < j < e2.len() implies (#[trigger] e2[i]).name@
                != (#[trigger] e2[j]).name@ by {
                if j < e2.len() - 1 {
                    assert(e2[i] == e1[i] && e2[j] == e1[j]);
                } else {
                    assert(e2[i] == e1[i]);
                }
            }
        }
        assert forall|n: Seq<char>| #[trigger] file_named(e2, n) == if n == nm {
            Some(fl)
        } else {
            file_named(e0, n)
        } by {
            if n != nm {
                assert(file_named(e2, n) == file_named(e1, n));
                lemma_file_named(e0, n);
                lemma_file_named(e1, n);
                if exists|i: int| 0 <= i < e0.len() && (#[trigger] e0[i]).name@ == n {
                    let i = choose|i: int| 0 <= i < e0.len() && (#[trigger] e0[i]).name@ == n;
                    let i1 = if found && i > k { i - 1 } else { i };
                    assert(!(found && i == k));
                    assert(e1[i1] == e0[i]);
                } else {
                    assert forall|i: int| 0 <= i < e1.len() implies (#[trigger] e1[i]).name@ != n by {
                        let ii = if found && i >= k { i + 1 } else { i };
                        assert(e1[i] == e0[ii]);
                    }
                }
            }
        }
    }
}

} // verus!
