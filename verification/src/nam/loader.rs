//! The parsed `.nam` models of a folder, keyed by display name (the file
//! stem), each with its display summary extracted once at load.

use std::sync::Arc;

use vstd::prelude::*;

use crate::collation::{names_of, sort_by_name, sorted_by_name};
use crate::nam::info::{describes_fields, model_metadata, MetadataFields, ModelInfo};
use crate::text::same_text;

verus! {

/// Whether a file with this extension is a model the loader reads.
pub open spec fn spec_is_model_extension(ext: Option<Seq<char>>) -> bool {
    ext == Some("nam"@)
}

pub fn is_model_extension(ext: Option<&str>) -> (r: bool)
    ensures
        r == spec_is_model_extension(
            match ext {
                Some(e) => Some(e@),
                None => None,
            },
        ),
{
    match ext {
        Some(e) => same_text(e, "nam"),
        None => false,
    }
}

/// What `nam_rs::NamModel::from_json_str` makes of a text (a serde parse):
/// the model, or nothing where it refuses the text. A function of the text
/// alone.
pub uninterp spec fn nam_parse(json: Seq<char>) -> Option<nam_rs::NamModel>;

/// Whether a text parses as a model.
pub open spec fn nam_json_parses(json: Seq<char>) -> bool {
    nam_parse(json) is Some
}

/// The model a text parses to, where it parses.
pub open spec fn nam_model(json: Seq<char>) -> nam_rs::NamModel {
    nam_parse(json)->0
}

/// The metadata fields of the model a `.nam` text parses to.
pub open spec fn file_metadata(json: Seq<char>) -> MetadataFields {
    model_metadata(nam_model(json))
}

/// Parses a `.nam` file's text with `nam_rs::NamModel::from_json_str`; a
/// refusal comes back as the error's message. Which texts parse, and the
/// model each gives, are named, not stated.
#[verifier::external_body]
fn parse_model(json: &str) -> (r: Result<nam_rs::NamModel, String>)
    ensures
        r is Ok <==> nam_parse(json@) is Some,
        r matches Ok(m) ==> nam_parse(json@) == Some(m),
{
    nam_rs::NamModel::from_json_str(json).map_err(|e| e.to_string())
}

/// Another handle to a shared model, through `Arc::clone` (std), which
/// points at the same model.
#[verifier::external_body]
fn share(model: &Arc<nam_rs::NamModel>) -> (r: Arc<nam_rs::NamModel>)
    ensures
        r == *model,
{
    Arc::clone(model)
}

/// A copy of an optional text.
fn copy_text(t: &Option<String>) -> (r: Option<String>)
    ensures
        r == *t,
{
    match t {
        Some(s) => Some(s.clone()),
        None => None,
    }
}

/// A field-by-field copy of a summary.
fn copy_info(info: &ModelInfo) -> (r: ModelInfo)
    ensures
        r == *info,
{
    ModelInfo {
        includes_cab: info.includes_cab,
        cab_from_name: info.cab_from_name,
        gear: copy_text(&info.gear),
        tone_type: copy_text(&info.tone_type),
        modeled_by: copy_text(&info.modeled_by),
        loudness_lufs_bits: info.loudness_lufs_bits,
    }
}

/// One loaded model.
pub struct NamEntry {
    pub name: String,
    pub model: Arc<nam_rs::NamModel>,
    pub info: ModelInfo,
}

/// The names of loaded entries, in storage order.
pub open spec fn entry_names(entries: Seq<NamEntry>) -> Seq<Seq<char>> {
    entries.map_values(|e: NamEntry| e.name@)
}

/// The names of loaded entries, as strings.
pub open spec fn entry_name_strings(entries: Seq<NamEntry>) -> Seq<String> {
    entries.map_values(|e: NamEntry| e.name)
}

/// Position of the entry called `name`.
pub open spec fn position_of(entries: Seq<NamEntry>, name: Seq<char>) -> Option<int> {
    if exists|i: int| 0 <= i < entries.len() && (#[trigger] entries[i]).name@ == name {
        Some(choose|i: int| 0 <= i < entries.len() && (#[trigger] entries[i]).name@ == name)
    } else {
        None
    }
}

/// No two entries share a name.
pub open spec fn distinct_entry_names(entries: Seq<NamEntry>) -> bool {
    forall|i: int, j: int|
        0 <= i < entries.len() && 0 <= j < entries.len() && i != j ==> (#[trigger] entries[i]).name@
            != (#[trigger] entries[j]).name@
}

/// `entries` with the entry called `e.name` replaced by `e`, or `e` added
/// when there is none (a map insert).
pub open spec fn with_entry(entries: Seq<NamEntry>, e: NamEntry) -> Seq<NamEntry> {
    match position_of(entries, e.name@) {
        Some(i) => entries.update(i, e),
        None => entries.push(e),
    }
}

/// The position of the last file in `files` (name, text) called `name`
/// whose text parses.
pub open spec fn last_parsed(files: Seq<(String, String)>, name: Seq<char>) -> Option<int>
    decreases files.len(),
{
    if files.len() == 0 {
        None
    } else if files.last().0@ == name && nam_json_parses(files.last().1@) {
        Some(files.len() - 1)
    } else {
        last_parsed(files.drop_last(), name)
    }
}

/// With distinct names, the entry called `name` is the one found.
proof fn lemma_position_unique(entries: Seq<NamEntry>, name: Seq<char>, i: int)
    requires
        distinct_entry_names(entries),
        0 <= i < entries.len(),
        entries[i].name@ == name,
    ensures
        position_of(entries, name) == Some(i),
{
    assert(exists|k: int| 0 <= k < entries.len() && (#[trigger] entries[k]).name@ == name);
    let k = choose|k: int| 0 <= k < entries.len() && (#[trigger] entries[k]).name@ == name;
    assert(k == i);
}

/// Adding `e` puts it where its name is found and moves no other entry.
proof fn lemma_with_entry_positions(entries: Seq<NamEntry>, e: NamEntry, name: Seq<char>)
    requires
        distinct_entry_names(entries),
        distinct_entry_names(with_entry(entries, e)),
    ensures
        ({
            let w = with_entry(entries, e);
            &&& name == e.name@ ==> (position_of(w, name) matches Some(j) && 0 <= j < w.len()
                && w[j] == e)
            &&& name != e.name@ ==> position_of(w, name) == position_of(entries, name)
            &&& name != e.name@ ==> (position_of(entries, name) matches Some(i) ==> 0 <= i
                < entries.len() && w[i] == entries[i])
        }),
{
    let w = with_entry(entries, e);
    let p = position_of(entries, e.name@);
    let last: int = match p {
        Some(q) => q,
        None => entries.len() as int,
    };
    if let Some(q) = p {
        assert(0 <= q < entries.len() && entries[q].name@ == e.name@);
    }
    assert(w.len() == if p is Some { entries.len() } else { entries.len() + 1 });
    assert(w[last] == e);
    assert(forall|k: int| 0 <= k < entries.len() && k != last ==> w[k] == entries[k]);
    if name == e.name@ {
        lemma_position_unique(w, name, last);
    } else {
        match position_of(entries, name) {
            Some(i) => {
                assert(0 <= i < entries.len() && entries[i].name@ == name);
                assert(i != last);
                lemma_position_unique(w, name, i);
            },
            None => {
                assert forall|k: int| 0 <= k < w.len() implies (#[trigger] w[k]).name@ != name by {
                    if k != last {
                        assert(w[k] == entries[k]);
                        assert(entries[k].name@ != name);
                    }
                }
            },
        }
    }
}

/// What loading `files` over `before` leaves under `name`: the model and
/// summary of the last file of that name that parses, else the entry that
/// was there.
pub open spec fn loads_as(
    before: Seq<NamEntry>,
    after: Seq<NamEntry>,
    files: Seq<(String, String)>,
    name: Seq<char>,
) -> bool {
    match last_parsed(files, name) {
        Some(k) => match position_of(after, name) {
            Some(i) => 0 <= i < after.len() && *after[i].model == nam_model(files[k].1@)
                && describes_fields(after[i].info, file_metadata(files[k].1@), name),
            None => false,
        },
        None => position_of(after, name) == position_of(before, name) && match position_of(
            before,
            name,
        ) {
            Some(i) => 0 <= i < before.len() && after[i] == before[i],
            None => true,
        },
    }
}

/// The file `last_parsed` finds is one of `files`, of that name, that
/// parses; it finds none only when no such file is there.
proof fn lemma_last_parsed_in_range(files: Seq<(String, String)>, name: Seq<char>)
    ensures
        last_parsed(files, name) matches Some(k) ==> 0 <= k < files.len() && files[k].0@ == name
            && nam_json_parses(files[k].1@),
        last_parsed(files, name) is None ==> forall|k: int|
            0 <= k < files.len() ==> !((#[trigger] files[k]).0@ == name && nam_json_parses(
                files[k].1@,
            )),
    decreases files.len(),
{
    if files.len() > 0 {
        lemma_last_parsed_in_range(files.drop_last(), name);
        if last_parsed(files, name) is None {
            assert forall|k: int| 0 <= k < files.len() implies !((#[trigger] files[k]).0@ == name
                && nam_json_parses(files[k].1@)) by {
                if k < files.len() - 1 {
                    assert(files[k] == files.drop_last()[k]);
                }
            }
        }
    }
}

/// Loading files into an empty loader keeps a model under exactly the names
/// of the files that parse.
pub proof fn law_a_fresh_load_holds_the_parsed_names(
    after: Seq<NamEntry>,
    files: Seq<(String, String)>,
    name: Seq<char>,
)
    requires
        loads_as(Seq::<NamEntry>::empty(), after, files, name),
    ensures
        position_of(after, name) is Some <==> exists|k: int|
            0 <= k < files.len() && (#[trigger] files[k]).0@ == name && nam_json_parses(files[k].1@),
{
    lemma_last_parsed_in_range(files, name);
    if let Some(k) = last_parsed(files, name) {
        assert(files[k].0@ == name && nam_json_parses(files[k].1@));
    }
}

/// Any list holding the same strings as the names of distinctly named
/// entries holds no name twice.
proof fn lemma_listed_names_distinct(entries: Seq<NamEntry>, listed: Seq<String>)
    requires
        distinct_entry_names(entries),
        listed.to_multiset() == entry_name_strings(entries).to_multiset(),
    ensures
        forall|i: int, j: int|
            0 <= i < listed.len() && 0 <= j < listed.len() && i != j ==> (#[trigger] listed[i])@
                != (#[trigger] listed[j])@,
{
    broadcast use vstd::seq_lib::group_to_multiset_ensures;

    let e = entry_name_strings(entries);
    assert(e.no_duplicates()) by {
        assert forall|i: int, j: int| 0 <= i < e.len() && 0 <= j < e.len() && i != j implies e[i] != e[j] by {
            assert(entries[i].name@ != entries[j].name@);
        }
    }
    e.lemma_multiset_has_no_duplicates();
    listed.lemma_multiset_has_no_duplicates_conv();
    assert forall|i: int, j: int|
        0 <= i < listed.len() && 0 <= j < listed.len() && i != j implies (#[trigger] listed[i])@
        != (#[trigger] listed[j])@ by {
        let x = listed[i];
        let y = listed[j];
        assert(listed.to_multiset().count(x) > 0);
        assert(listed.to_multiset().count(y) > 0);
        assert(e.contains(x));
        assert(e.contains(y));
        let p = choose|p: int| 0 <= p < e.len() && e[p] == x;
        let q = choose|q: int| 0 <= q < e.len() && e[q] == y;
        assert(x != y);
        assert(p != q);
        assert(entries[p].name@ != entries[q].name@);
    }
}

/// Parsed models by display name.
pub struct NamLoader {
    entries: Vec<NamEntry>,
}

impl NamLoader {
    pub closed spec fn spec_entries(&self) -> Seq<NamEntry> {
        self.entries@
    }

    /// Names are unique.
    pub closed spec fn wf(&self) -> bool {
        distinct_entry_names(self.entries@)
    }

    /// A loader holding no models.
    pub fn empty() -> (r: Self)
        ensures
            r.wf(),
            r.spec_entries() == Seq::<NamEntry>::empty(),
    {
        NamLoader { entries: Vec::new() }
    }

    fn find(&self, name: &str) -> (r: Option<usize>)
        requires
            self.wf(),
        ensures
            match position_of(self.entries@, name@) {
                Some(i) => r is Some && r->0 == i && 0 <= i < self.entries@.len(),
                None => r is None,
            },
    {
        let mut i: usize = 0;
        while i < self.entries.len()
            invariant
                distinct_entry_names(self.entries@),
                i <= self.entries.len(),
                forall|j: int| 0 <= j < i ==> (#[trigger] self.entries@[j]).name@ != name@,
            decreases self.entries.len() - i,
        {
            if same_text(self.entries[i].name.as_str(), name) {
                proof {
                    assert(self.entries@[i as int].name@ == name@);
                    let k = choose|k: int|
                        0 <= k < self.entries@.len() && (#[trigger] self.entries@[k]).name@
                            == name@;
                    assert(k == i);
                }
                return Some(i);
            }
            i = i + 1;
        }
        None
    }

    /// Adds a model under `name`, replacing a model of the same name.
    pub fn insert(&mut self, entry: NamEntry)
        requires
            old(self).wf(),
        ensures
            final(self).wf(),
            final(self).spec_entries() == with_entry(old(self).spec_entries(), entry),
    {
        let ghost old_entries = self.entries@;
        match self.find(entry.name.as_str()) {
            Some(i) => {
                self.entries.set(i, entry);
                proof {
                    assert forall|a: int, b: int|
                        0 <= a < self.entries@.len() && 0 <= b < self.entries@.len() && a
                            != b implies (#[trigger] self.entries@[a]).name@
                        != (#[trigger] self.entries@[b]).name@ by {
                        if a != i && b != i {
                            assert(self.entries@[a] == old_entries[a]);
                            assert(self.entries@[b] == old_entries[b]);
                        } else if a == i {
                            assert(self.entries@[b] == old_entries[b]);
                            assert(old_entries[i as int].name@ == entry.name@);
                        } else {
                            assert(self.entries@[a] == old_entries[a]);
                            assert(old_entries[i as int].name@ == entry.name@);
                        }
                    }
                }
            },
            None => {
                self.entries.push(entry);
                proof {
                    assert forall|a: int, b: int|
                        0 <= a < self.entries@.len() && 0 <= b < self.entries@.len() && a
                            != b implies (#[trigger] self.entries@[a]).name@
                        != (#[trigger] self.entries@[b]).name@ by {
                        if a < old_entries.len() && b < old_entries.len() {
                            assert(self.entries@[a] == old_entries[a]);
                            assert(self.entries@[b] == old_entries[b]);
                        } else if a < old_entries.len() {
                            assert(self.entries@[a] == old_entries[a]);
                        } else {
                            assert(self.entries@[b] == old_entries[b]);
                        }
                    }
                }
            },
        }
    }

    /// Parses one model file's text and adds it under `name` (its file stem),
    /// with its display summary. A file that does not parse is skipped, its
    /// error returned and the loader left as it was.
    pub fn load_model(&mut self, name: String, json: &str) -> (r: Result<(), String>)
        requires
            old(self).wf(),
        ensures
            final(self).wf(),
            r is Ok <==> nam_json_parses(json@),
            r is Err ==> final(self).spec_entries() == old(self).spec_entries(),
            r is Ok ==> exists|e: NamEntry|
                {
                    &&& e.name == name
                    &&& *e.model == nam_model(json@)
                    &&& describes_fields(e.info, file_metadata(json@), name@)
                    &&& #[trigger] with_entry(old(self).spec_entries(), e)
                        == final(self).spec_entries()
                },
    {
        match parse_model(json) {
            Ok(model) => {
                let info = ModelInfo::from_model(&model, name.as_str());
                let entry = NamEntry { name, model: Arc::new(model), info };
                let ghost e = entry;
                self.insert(entry);
                proof {
                    assert(with_entry(old(self).spec_entries(), e) == self.spec_entries());
                }
                Ok(())
            },
            Err(msg) => Err(msg),
        }
    }

    /// Loads model files, each a display name (its file stem) and the
    /// file's text, in order: a later file of a name replaces an earlier
    /// one, and a file that does not parse is skipped. Gives each file's
    /// outcome, its error where it was skipped.
    pub fn load_files(&mut self, files: Vec<(String, String)>) -> (r: Vec<Result<(), String>>)
        requires
            old(self).wf(),
        ensures
            final(self).wf(),
            r@.len() == files@.len(),
            forall|k: int| 0 <= k < files@.len() ==> ((#[trigger] r@[k]) is Ok <==> nam_json_parses(files@[k].1@)),
            forall|n: Seq<char>| #[trigger] loads_as(old(self).spec_entries(), final(self).spec_entries(), files@, n),
    {
        let ghost start = self.entries@;
        let mut outcomes: Vec<Result<(), String>> = Vec::new();
        let mut i: usize = 0;
        while i < files.len()
            invariant
                i <= files.len(),
                distinct_entry_names(self.entries@),
                outcomes@.len() == i,
                forall|k: int| 0 <= k < i ==> ((#[trigger] outcomes@[k]) is Ok <==> nam_json_parses(files@[k].1@)),
                forall|n: Seq<char>| #[trigger] loads_as(start, self.entries@, files@.take(i as int), n),
            decreases files.len() - i,
        {
            let ghost prev = self.entries@;
            let name = files[i].0.clone();
            let r = self.load_model(name, files[i].1.as_str());
            proof {
                let t = files@.take(i as int + 1);
                assert(t.drop_last() == files@.take(i as int));
                assert(t.last() == files@[i as int]);
                assert forall|n: Seq<char>| #[trigger] loads_as(start, self.entries@, t, n) by {
                    assert(loads_as(start, prev, files@.take(i as int), n));
                    let f = files@[i as int];
                    if f.0@ == n && nam_json_parses(f.1@) {
                        assert(last_parsed(t, n) == Some(i as int));
                    } else {
                        assert(last_parsed(t, n) == last_parsed(files@.take(i as int), n));
                    }
                    if r is Ok {
                        let e = choose|e: NamEntry|
                            {
                                &&& e.name == files@[i as int].0
                                &&& *e.model == nam_model(files@[i as int].1@)
                                &&& describes_fields(e.info, file_metadata(files@[i as int].1@), files@[i as int].0@)
                                &&& #[trigger] with_entry(prev, e) == self.entries@
                            };
                        lemma_with_entry_positions(prev, e, n);
                        if n == f.0@ {
                            assert(t[i as int] == f);
                        } else {
                            lemma_last_parsed_in_range(files@.take(i as int), n);
                            if let Some(k) = last_parsed(t, n) {
                                assert(t[k] == files@.take(i as int)[k]);
                            }
                        }
                    } else {
                        assert(self.entries@ == prev);
                        if let Some(k) = last_parsed(t, n) {
                            lemma_last_parsed_in_range(files@.take(i as int), n);
                            assert(t[k] == files@.take(i as int)[k]);
                        }
                    }
                }
            }
            outcomes.push(r);
            i = i + 1;
        }
        proof {
            assert(files@.take(files@.len() as int) == files@);
        }
        outcomes
    }

    /// The display names of all loaded models, sorted, each once.
    pub fn available_names(&self) -> (r: Vec<String>)
        requires
            self.wf(),
        ensures
            r@.to_multiset() == entry_name_strings(self.spec_entries()).to_multiset(),
            sorted_by_name(names_of(r@)),
            forall|i: int, j: int|
                0 <= i < r@.len() && 0 <= j < r@.len() && i != j ==> (#[trigger] r@[i])@
                    != (#[trigger] r@[j])@,
    {
        let mut names: Vec<String> = Vec::new();
        let mut i: usize = 0;
        while i < self.entries.len()
            invariant
                i <= self.entries.len(),
                names@ == entry_name_strings(self.entries@.take(i as int)),
            decreases self.entries.len() - i,
        {
            names.push(self.entries[i].name.clone());
            proof {
                assert(entry_name_strings(self.entries@.take(i as int + 1)) =~= entry_name_strings(
                    self.entries@.take(i as int),
                ).push(self.entries@[i as int].name));
            }
            i = i + 1;
        }
        proof {
            assert(self.entries@.take(self.entries@.len() as int) == self.entries@);
        }
        let r = sort_by_name(names);
        proof {
            lemma_listed_names_distinct(self.entries@, r@);
        }
        r
    }

    /// The parsed model called `name`.
    pub fn get(&self, name: &str) -> (r: Option<Arc<nam_rs::NamModel>>)
        requires
            self.wf(),
        ensures
            match position_of(self.spec_entries(), name@) {
                Some(i) => r == Some(self.spec_entries()[i].model),
                None => r is None,
            },
    {
        match self.find(name) {
            Some(i) => {
                let m = share(&self.entries[i].model);

                Some(m)
            },
            None => None,
        }
    }

    /// The display summary of the model called `name`.
    pub fn info(&self, name: &str) -> (r: Option<&ModelInfo>)
        requires
            self.wf(),
        ensures
            match position_of(self.spec_entries(), name@) {
                Some(i) => r == Some(&self.spec_entries()[i].info),
                None => r is None,
            },
    {
        match self.find(name) {
            Some(i) => Some(&self.entries[i].info),
            None => None,
        }
    }

    /// Another loader with the same entries: the same names, the same
    /// (shared) models and the same summaries.
    pub fn duplicate(&self) -> (r: NamLoader)
        ensures
            r.wf() == self.wf(),
            r.spec_entries() == self.spec_entries(),
    {
        let mut entries: Vec<NamEntry> = Vec::new();
        let mut i: usize = 0;
        while i < self.entries.len()
            invariant
                i <= self.entries.len(),
                entries@ == self.entries@.take(i as int),
            decreases self.entries.len() - i,
        {
            let e = &self.entries[i];
            entries.push(NamEntry { name: e.name.clone(), model: share(&e.model), info: copy_info(&e.info) });
            proof {
                assert(self.entries@.take(i as int + 1) == self.entries@.take(i as int).push(
                    self.entries@[i as int],
                ));
            }
            i = i + 1;
        }
        proof {
            assert(self.entries@.take(self.entries@.len() as int) == self.entries@);
        }
        NamLoader { entries }
    }

    /// All loaded entries, for populating the process-wide registry.
    pub fn entries(&self) -> (r: &[NamEntry])
        ensures
            r@ == self.spec_entries(),
    {
        self.entries.as_slice()
    }
}

} // verus!
