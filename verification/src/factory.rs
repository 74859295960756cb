//! The plugin's embedded factory content: impulse-response names and bytes,
//! and the factory preset list, each put in order.

use vstd::prelude::*;

use crate::collation::{names_of, sort_by_name, sorted_by_name, with_name};
use crate::preset::Preset;
use crate::preset::apply::lemma_views_contains_same;
use crate::preset::manager::views_of;
use crate::text::same_text;

verus! {

/// An embedded file: its relative path (with `/` separators) and its bytes.
#[derive(Debug, Clone)]
pub struct FactoryFile {
    pub name: String,
    pub data: Vec<u8>,
}

/// The names of embedded files, in order.
pub open spec fn file_names(files: Seq<FactoryFile>) -> Seq<String> {
    files.map_values(|f: FactoryFile| f.name)
}

/// The names of all embedded IR files, sorted.
pub fn factory_ir_names(files: &Vec<FactoryFile>) -> (r: Vec<String>)
    ensures
        r@.to_multiset() == file_names(files@).to_multiset(),
        sorted_by_name(names_of(r@)),
        forall|n: Seq<char>| #[trigger] with_name(r@, n) == with_name(file_names(files@), n),
{
    let mut names: Vec<String> = Vec::new();
    let mut i: usize = 0;
    while i < files.len()
        invariant
            i <= files.len(),
            names@ == file_names(files@.take(i as int)),
        decreases files.len() - i,
    {
        names.push(files[i].name.clone());
        proof {
            assert(file_names(files@.take(i as int + 1)) =~= file_names(files@.take(i as int)).push(
                files@[i as int].name,
            ));
        }
        i = i + 1;
    }
    proof {
        assert(files@.take(files@.len() as int) =~= files@);
    }
    sort_by_name(names)
}

/// Index of the first file called `name`.
pub open spec fn first_named(files: Seq<FactoryFile>, name: Seq<char>) -> Option<int> {
    if exists|i: int| 0 <= i < files.len() && (#[trigger] files[i]).name@ == name {
        Some(
            choose|i: int|
                0 <= i < files.len() && (#[trigger] files[i]).name@ == name && forall|j: int|
                    0 <= j < i ==> (#[trigger] files[j]).name@ != name,
        )
    } else {
        None
    }
}

/// The bytes of the embedded IR called `name`.
pub fn get_factory_ir(files: &Vec<FactoryFile>, name: &str) -> (r: Option<Vec<u8>>)
    ensures
        match first_named(files@, name@) {
            Some(i) => r is Some && r->0@ == files@[i].data@,
            None => r is None,
        },
{
    let mut i: usize = 0;
    while i < files.len()
        invariant
            i <= files.len(),
            forall|j: int| 0 <= j < i ==> (#[trigger] files@[j]).name@ != name@,
        decreases files.len() - i,
    {
        if same_text(files[i].name.as_str(), name) {
            proof {
                assert(0 <= i < files@.len() && files@[i as int].name@ == name@);
                let k = choose|k: int|
                    0 <= k < files@.len() && (#[trigger] files@[k]).name@ == name@ && forall|j: int|
                        0 <= j < k ==> (#[trigger] files@[j]).name@ != name@;
                assert(k == i) by {
                    if k < i {
                        assert(files@[k].name@ != name@);
                    }
                    if k > i {
                        assert(files@[i as int].name@ != name@);
                    }
                }
            }
            return Some(files[i].data.clone());
        }
        i = i + 1;
    }
    None
}

/// The factory presets in name order (the order the preset list shows).
pub fn sort_factory_presets(presets: Vec<Preset>) -> (r: Vec<Preset>)
    ensures
        r@.to_multiset() == presets@.to_multiset(),
        sorted_by_name(names_of(r@)),
        forall|n: Seq<char>| #[trigger] with_name(r@, n) == with_name(presets@, n),
{
    sort_by_name(presets)
}

/// The listed IR names and the lookup agree: a name is listed exactly when
/// `get_factory_ir` finds a file of that name.
pub proof fn law_listed_names_resolve(files: Seq<FactoryFile>, listed: Seq<String>, n: Seq<char>)
    requires
        listed.to_multiset() == file_names(files).to_multiset(),
    ensures
        views_of(listed).contains(n) <==> first_named(files, n) is Some,
{
    lemma_views_contains_same(listed, file_names(files), n);
    let v = views_of(file_names(files));
    if v.contains(n) {
        let k = choose|k: int| 0 <= k < v.len() && v[k] == n;
        assert(files[k].name@ == n);
    }
    if exists|i: int| 0 <= i < files.len() && (#[trigger] files[i]).name@ == n {
        let i = choose|i: int| 0 <= i < files.len() && (#[trigger] files[i]).name@ == n;
        assert(v[i] == n);
    }
}

} // verus!
