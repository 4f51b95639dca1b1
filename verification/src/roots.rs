//! The root detector: among the defined module types, those that no
//! recorded submodule instantiates anywhere are the design's top-level
//! modules.

use vstd::prelude::*;

use crate::defs::DefEntryView;
use crate::defs::DefinitionMap;
use crate::defs::find_index;
use crate::defs::has_key;
use crate::defs::keys_of;
use crate::defs::lemma_find_index;
use crate::defs::lemma_has_key;
use crate::str_views;

verus! {

/// Whether `t` appears as the module type of some recorded submodule.
pub open spec fn instantiated_somewhere(entries: Seq<DefEntryView>, t: Seq<char>) -> bool {
    exists|i: int, j: int|
        0 <= i < entries.len() && 0 <= j < entries[i].submodules.len()
            && entries[i].submodules[j].module_type == t
}

/// The predicate a key must meet to be a root of `entries`.
pub open spec fn is_root_pred(entries: Seq<DefEntryView>) -> spec_fn(Seq<char>) -> bool {
    |k: Seq<char>| !instantiated_somewhere(entries, k)
}

/// The top-level module names: the keys never instantiated anywhere, in
/// key order.
pub open spec fn root_names(entries: Seq<DefEntryView>) -> Seq<Seq<char>> {
    keys_of(entries).filter(is_root_pred(entries))
}

/// A module name is a top-level root iff it is a key of the map and
/// never appears as any recorded submodule's module type. A module that
/// is instantiated but never defined is not a key, so it can never be a
/// root.
pub proof fn lemma_root_characterization(entries: Seq<DefEntryView>, name: Seq<char>)
    ensures
        root_names(entries).contains(name) <==> (has_key(entries, name)
            && !instantiated_somewhere(entries, name)),
{
    let keys = keys_of(entries);
    let pred = is_root_pred(entries);
    lemma_has_key(entries, name);
    if root_names(entries).contains(name) {
        keys.lemma_filter_contains_rev(pred, name);
        let i = choose|i: int| 0 <= i < keys.len() && keys[i] == name;
        assert(entries[i].module_type == name);
        let j = choose|j: int| 0 <= j < root_names(entries).len() && root_names(entries)[j]
            == name;
        keys.lemma_filter_pred(pred, j);
    }
    if has_key(entries, name) && !instantiated_somewhere(entries, name) {
        lemma_find_index(entries, name);
        let r = find_index(entries, name);
        assert(keys[r] == name);
        keys.lemma_filter_contains(pred, r);
    }
}

/// Whether some submodule recorded anywhere in the map instantiates
/// `name`.
fn is_instantiated(defs: &DefinitionMap, name: &String) -> (r: bool)
    ensures
        r == instantiated_somewhere(defs@, name@),
{
    let ghost entries = defs@;
    let mut i: usize = 0;
    while i < defs.entries.len()
        invariant
            i <= defs.entries.len(),
            entries == defs@,
            entries.len() == defs.entries.len(),
            forall|a: int, b: int|
                0 <= a < i && 0 <= b < entries[a].submodules.len()
                    ==> entries[a].submodules[b].module_type != name@,
        decreases defs.entries.len() - i,
    {
        let subs = &defs.entries[i].submodules;
        let mut j: usize = 0;
        while j < subs.len()
            invariant
                i < defs.entries.len(),
                j <= subs.len(),
                entries == defs@,
                entries.len() == defs.entries.len(),
                subs@.len() == entries[i as int].submodules.len(),
                forall|b: int|
                    0 <= b < subs@.len() ==> entries[i as int].submodules[b] == subs@[b]@,
                forall|b: int|
                    0 <= b < j ==> entries[i as int].submodules[b].module_type != name@,
            decreases subs.len() - j,
        {
            if subs[j].module_type == *name {
                proof {
                    assert(0 <= i < entries.len() && 0 <= j < entries[i as int].submodules.len()
                        && entries[i as int].submodules[j as int].module_type == name@);
                }
                return true;
            }
            j += 1;
        }
        i += 1;
    }
    false
}

/// The top-level modules of a merged definition map: those of its keys
/// that are not instantiated by any other module, in key order.
pub fn find_top_level_modules(defs: &DefinitionMap) -> (roots: Vec<String>)
    ensures
        str_views(roots@) == root_names(defs@),
{
    let ghost entries = defs@;
    let ghost pred = is_root_pred(entries);
    let mut roots: Vec<String> = Vec::new();
    let mut i: usize = 0;
    proof {
        assert(keys_of(entries).take(0) =~= Seq::<Seq<char>>::empty());
        assert(str_views(roots@) =~= Seq::<Seq<char>>::empty());
        assert(Seq::<Seq<char>>::empty().filter(pred) =~= Seq::<Seq<char>>::empty()) by {
            reveal_with_fuel(Seq::filter, 2);
        }
    }
    while i < defs.entries.len()
        invariant
            i <= defs.entries.len(),
            entries == defs@,
            pred == is_root_pred(entries),
            entries.len() == defs.entries.len(),
            str_views(roots@) == keys_of(entries).take(i as int).filter(pred),
        decreases defs.entries.len() - i,
    {
        let ghost pre_roots = str_views(roots@);
        let ghost key = entries[i as int].module_type;
        proof {
            assert(keys_of(entries)[i as int] == key);
            assert(keys_of(entries).take(i + 1) =~= keys_of(entries).take(i as int).push(key));
            keys_of(entries).take(i as int).lemma_filter_push(key, pred);
        }
        if !is_instantiated(defs, &defs.entries[i].module_type) {
            roots.push(defs.entries[i].module_type.clone());
            proof {
                assert(str_views(roots@) =~= pre_roots.push(key));
            }
        }
        i += 1;
    }
    proof {
        assert(keys_of(entries).take(entries.len() as int) =~= keys_of(entries));
    }
    roots
}

} // verus!
