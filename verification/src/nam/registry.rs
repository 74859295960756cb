//! Names of the parsed models available to NAM stages, and the registry
//! that stages resolve models from by name.

use std::sync::Arc;

use vstd::prelude::*;

use crate::collation::{lemma_sorted_permutation_unique, names_of, sort_by_name, sorted_by_name, with_name};
use crate::nam::info::ModelInfo;
use crate::nam::loader::{entry_name_strings, position_of, NamEntry, NamLoader};
use crate::preset::apply::lemma_views_contains_same;
use crate::preset::manager::views_of;

verus! {

/// The registered model display names, sorted.
pub fn available_names(registered: Vec<String>) -> (r: Vec<String>)
    ensures
        r@.to_multiset() == registered@.to_multiset(),
        sorted_by_name(names_of(r@)),
        forall|n: Seq<char>| #[trigger] with_name(r@, n) == with_name(registered@, n),
{
    sort_by_name(registered)
}

/// The models stages can resolve: a copy of the last loader it was filled
/// from, and nothing of any earlier one.
pub struct Registry {
    loaded: NamLoader,
}

impl Registry {
    /// What the registry holds, entry by entry.
    pub closed spec fn spec_entries(&self) -> Seq<NamEntry> {
        self.loaded.spec_entries()
    }

    pub closed spec fn wf(&self) -> bool {
        self.loaded.wf()
    }

    /// A registry holding no models.
    pub fn new() -> (r: Registry)
        ensures
            r.wf(),
            r.spec_entries() == Seq::<NamEntry>::empty(),
    {
        Registry { loaded: NamLoader::empty() }
    }

    /// Replaces everything registered by the models of `loader`: afterwards
    /// the registry holds exactly the loader's entries, so it lists, finds
    /// and describes exactly what the loader does.
    pub fn init_from_loader(&mut self, loader: &NamLoader)
        requires
            loader.wf(),
        ensures
            final(self).wf(),
            final(self).spec_entries() == loader.spec_entries(),
    {
        self.loaded = loader.duplicate();
    }

    /// A registered model by display name.
    pub fn get(&self, name: &str) -> (r: Option<Arc<nam_rs::NamModel>>)
        requires
            self.wf(),
        ensures
            match position_of(self.spec_entries(), name@) {
                Some(i) => r == Some(self.spec_entries()[i].model),
                None => r is None,
            },
    {
        self.loaded.get(name)
    }

    /// The display summary of a registered model.
    pub fn info(&self, name: &str) -> (r: Option<&ModelInfo>)
        requires
            self.wf(),
        ensures
            match position_of(self.spec_entries(), name@) {
                Some(i) => r == Some(&self.spec_entries()[i].info),
                None => r is None,
            },
    {
        self.loaded.info(name)
    }

    /// The registered model names, sorted, each once.
    pub fn available_names(&self) -> (r: Vec<String>)
        requires
            self.wf(),
        ensures
            r@.to_multiset() == entry_name_strings(self.spec_entries()).to_multiset(),
            sorted_by_name(names_of(r@)),
            forall|i: int, j: int|
                0 <= i < r@.len() && 0 <= j < r@.len() && i != j ==> (#[trigger] r@[i])@
                    != (#[trigger] r@[j])@,
    {
        self.loaded.available_names()
    }
}

/// A registry filled from a loader lists exactly the loader's names, and a
/// name is listed exactly when `get` and `info` find a model under it.
pub proof fn law_registry_lists_what_it_resolves(
    reg: Registry,
    loader: NamLoader,
    listed: Seq<String>,
    n: Seq<char>,
)
    requires
        reg.spec_entries() == loader.spec_entries(),
        listed.to_multiset() == entry_name_strings(reg.spec_entries()).to_multiset(),
    ensures
        listed.to_multiset() == entry_name_strings(loader.spec_entries()).to_multiset(),
        views_of(listed).contains(n) <==> position_of(reg.spec_entries(), n) is Some,
        position_of(reg.spec_entries(), n) == position_of(loader.spec_entries(), n),
{
    let entries = reg.spec_entries();
    let names = entry_name_strings(entries);
    lemma_views_contains_same(listed, names, n);
    let v = views_of(names);
    if v.contains(n) {
        let k = choose|k: int| 0 <= k < v.len() && v[k] == n;
        assert(entries[k].name@ == n);
    }
    if exists|i: int| 0 <= i < entries.len() && (#[trigger] entries[i]).name@ == n {
        let i = choose|i: int| 0 <= i < entries.len() && (#[trigger] entries[i]).name@ == n;
        assert(v[i] == n);
    }
}

/// A registry filled from a loader lists exactly what the loader lists:
/// the same names, in the same order.
pub proof fn law_registry_lists_the_loaders_names(
    reg: Registry,
    loader: NamLoader,
    from_registry: Seq<String>,
    from_loader: Seq<String>,
)
    requires
        reg.spec_entries() == loader.spec_entries(),
        from_registry.to_multiset() == entry_name_strings(reg.spec_entries()).to_multiset(),
        sorted_by_name(names_of(from_registry)),
        from_loader.to_multiset() == entry_name_strings(loader.spec_entries()).to_multiset(),
        sorted_by_name(names_of(from_loader)),
        forall|i: int, j: int|
            0 <= i < from_loader.len() && 0 <= j < from_loader.len() && i != j
                ==> (#[trigger] from_loader[i])@ != (#[trigger] from_loader[j])@,
    ensures
        from_registry == from_loader,
{
    lemma_sorted_permutation_unique(from_loader, from_registry);
}

} // verus!
