//! The definition map: for each defined module type, the ordered list of
//! submodule instantiations inside its body.
//!
//! The map is backed by a vector of entries so that key order is exactly
//! insertion order; merging per-file maps is therefore deterministic and
//! depends only on file order and each file's internal order.

use vstd::prelude::*;

use crate::Submodule;
use crate::SubmoduleView;

verus! {

/// One definition: a module type together with the ordered list of
/// submodules its body instantiates.
#[derive(Debug)]
pub struct DefEntry {
    pub module_type: String,
    pub submodules: Vec<Submodule>,
}

/// Mathematical value of a [`DefEntry`].
#[verifier::ext_equal]
pub ghost struct DefEntryView {
    pub module_type: Seq<char>,
    pub submodules: Seq<SubmoduleView>,
}

impl View for DefEntry {
    type V = DefEntryView;

    open spec fn view(&self) -> DefEntryView {
        DefEntryView {
            module_type: self.module_type@,
            submodules: Seq::new(self.submodules@.len(), |i: int| self.submodules@[i]@),
        }
    }
}

/// An ordered mapping from module type to its submodule list.
/// Keys are unique (see [`distinct_keys`]) and kept in insertion order.
#[derive(Debug)]
pub struct DefinitionMap {
    pub entries: Vec<DefEntry>,
}

impl View for DefinitionMap {
    type V = Seq<DefEntryView>;

    open spec fn view(&self) -> Seq<DefEntryView> {
        Seq::new(self.entries@.len(), |i: int| self.entries@[i]@)
    }
}

/// Index of the first entry whose key is `k`, or `-1` if there is none.
pub open spec fn find_index(entries: Seq<DefEntryView>, k: Seq<char>) -> int
    decreases entries.len(),
{
    if entries.len() == 0 {
        -1
    } else if entries[0].module_type == k {
        0
    } else {
        let r = find_index(entries.drop_first(), k);
        if r == -1 {
            -1
        } else {
            r + 1
        }
    }
}

/// Whether some entry has key `k`.
pub open spec fn has_key(entries: Seq<DefEntryView>, k: Seq<char>) -> bool {
    find_index(entries, k) >= 0
}

/// The submodule list recorded for `k`; the empty sequence when `k` is
/// not a key.
pub open spec fn subs_of(entries: Seq<DefEntryView>, k: Seq<char>) -> Seq<SubmoduleView> {
    if has_key(entries, k) {
        entries[find_index(entries, k)].submodules
    } else {
        Seq::empty()
    }
}

/// The keys, in entry order.
pub open spec fn keys_of(entries: Seq<DefEntryView>) -> Seq<Seq<char>> {
    entries.map_values(|e: DefEntryView| e.module_type)
}

/// No two entries share a key.
pub open spec fn distinct_keys(entries: Seq<DefEntryView>) -> bool {
    forall|i: int, j: int|
        0 <= i < j < entries.len() ==> entries[i].module_type != entries[j].module_type
}

/// `find_index` returns either `-1` on a sequence without the key, or
/// the position of the first entry carrying the key.
pub proof fn lemma_find_index(entries: Seq<DefEntryView>, k: Seq<char>)
    ensures
        find_index(entries, k) == -1 ==> (forall|i: int|
            0 <= i < entries.len() ==> entries[i].module_type != k),
        find_index(entries, k) != -1 ==> {
            let r = find_index(entries, k);
            &&& 0 <= r < entries.len()
            &&& entries[r].module_type == k
            &&& forall|i: int| 0 <= i < r ==> entries[i].module_type != k
        },
    decreases entries.len(),
{
    if entries.len() == 0 {
    } else if entries[0].module_type == k {
    } else {
        lemma_find_index(entries.drop_first(), k);
        assert(forall|i: int|
            1 <= i < entries.len() ==> entries[i] == entries.drop_first()[i - 1]);
    }
}

/// `has_key` holds exactly when some entry carries the key.
pub proof fn lemma_has_key(entries: Seq<DefEntryView>, k: Seq<char>)
    ensures
        has_key(entries, k) <==> exists|i: int|
            0 <= i < entries.len() && entries[i].module_type == k,
{
    lemma_find_index(entries, k);
    if find_index(entries, k) != -1 {
        assert(entries[find_index(entries, k)].module_type == k);
    }
}

/// One step of merging: fold the entry `e` into `acc`. If `acc` already
/// has the key, `e`'s submodules are appended to the end of the existing
/// list; otherwise the entry is added at the end.
pub open spec fn merge_entry(acc: Seq<DefEntryView>, e: DefEntryView) -> Seq<DefEntryView> {
    let r = find_index(acc, e.module_type);
    if r >= 0 {
        acc.update(
            r,
            DefEntryView {
                module_type: acc[r].module_type,
                submodules: acc[r].submodules + e.submodules,
            },
        )
    } else {
        acc.push(e)
    }
}

/// Merging a whole map into `acc`: its entries are folded in, in order.
pub open spec fn spec_merge(acc: Seq<DefEntryView>, incoming: Seq<DefEntryView>) -> Seq<
    DefEntryView,
>
    decreases incoming.len(),
{
    if incoming.len() == 0 {
        acc
    } else {
        spec_merge(merge_entry(acc, incoming[0]), incoming.drop_first())
    }
}

/// `find_index` looks only at the keys.
proof fn lemma_find_index_same_keys(a: Seq<DefEntryView>, b: Seq<DefEntryView>, k: Seq<char>)
    requires
        a.len() == b.len(),
        forall|i: int| 0 <= i < a.len() ==> a[i].module_type == b[i].module_type,
    ensures
        find_index(a, k) == find_index(b, k),
    decreases a.len(),
{
    if a.len() > 0 {
        lemma_find_index_same_keys(a.drop_first(), b.drop_first(), k);
        assert(forall|i: int| 0 <= i < a.len() - 1 ==> a.drop_first()[i] == a[i + 1]);
        assert(forall|i: int| 0 <= i < b.len() - 1 ==> b.drop_first()[i] == b[i + 1]);
    }
}

/// How `find_index` behaves on a sequence extended at the end.
proof fn lemma_find_index_push(acc: Seq<DefEntryView>, e: DefEntryView, k: Seq<char>)
    ensures
        find_index(acc.push(e), k) == if has_key(acc, k) {
            find_index(acc, k)
        } else if e.module_type == k {
            acc.len() as int
        } else {
            -1
        },
    decreases acc.len(),
{
    reveal_with_fuel(find_index, 3);
    if acc.len() == 0 {
        assert(acc.push(e)[0] == e);
    } else {
        assert(acc.push(e)[0] == acc[0]);
        lemma_find_index_push(acc.drop_first(), e, k);
        assert(acc.push(e).drop_first() =~= acc.drop_first().push(e));
        if acc[0].module_type == k {
            assert(find_index(acc.push(e), k) == 0);
            assert(find_index(acc, k) == 0);
        } else {
            let rp = find_index(acc.drop_first().push(e), k);
            assert(find_index(acc.push(e), k) == if rp == -1 {
                -1
            } else {
                rp + 1
            });
            let rd = find_index(acc.drop_first(), k);
            assert(find_index(acc, k) == if rd == -1 {
                -1
            } else {
                rd + 1
            });
        }
    }
}

/// Folding one entry in keeps the keys distinct.
pub proof fn lemma_merge_entry_distinct(acc: Seq<DefEntryView>, e: DefEntryView)
    requires
        distinct_keys(acc),
    ensures
        distinct_keys(merge_entry(acc, e)),
{
    lemma_find_index(acc, e.module_type);
    let r = find_index(acc, e.module_type);
    if r >= 0 {
        let m = merge_entry(acc, e);
        assert(forall|i: int| 0 <= i < m.len() ==> m[i].module_type == acc[i].module_type);
    }
}

/// Merging keeps the keys distinct.
pub proof fn lemma_merge_distinct(acc: Seq<DefEntryView>, incoming: Seq<DefEntryView>)
    requires
        distinct_keys(acc),
    ensures
        distinct_keys(spec_merge(acc, incoming)),
    decreases incoming.len(),
{
    if incoming.len() > 0 {
        lemma_merge_entry_distinct(acc, incoming[0]);
        lemma_merge_distinct(merge_entry(acc, incoming[0]), incoming.drop_first());
    }
}

/// What one folding step does to the list recorded for an arbitrary key
/// `k`: `e`'s list lands at the end of `k`'s list when `e` carries that
/// key, and nothing changes otherwise.
proof fn lemma_merge_entry_subs(acc: Seq<DefEntryView>, e: DefEntryView, k: Seq<char>)
    ensures
        has_key(merge_entry(acc, e), k) <==> (has_key(acc, k) || e.module_type == k),
        e.module_type == k ==> subs_of(merge_entry(acc, e), k) == subs_of(acc, k) + e.submodules,
        e.module_type != k ==> subs_of(merge_entry(acc, e), k) == subs_of(acc, k),
{
    let m = merge_entry(acc, e);
    let r = find_index(acc, e.module_type);
    lemma_find_index(acc, e.module_type);
    lemma_find_index(acc, k);
    if r >= 0 {
        assert(m.len() == acc.len());
        assert(forall|i: int| 0 <= i < m.len() ==> m[i].module_type == acc[i].module_type);
        lemma_find_index_same_keys(m, acc, k);
        lemma_find_index(m, k);
        if e.module_type == k {
            assert(find_index(m, k) == r);
        } else {
            if has_key(acc, k) {
                assert(find_index(acc, k) != r);
                assert(m[find_index(m, k)] == acc[find_index(acc, k)]);
            }
        }
    } else {
        lemma_find_index_push(acc, e, k);
        if e.module_type == k {
            if has_key(acc, k) {
                assert(false);
            }
            assert(subs_of(acc, k) == Seq::<SubmoduleView>::empty());
            assert(m[acc.len() as int] == e);
            assert(subs_of(m, k) == e.submodules);
            assert(Seq::<SubmoduleView>::empty() + e.submodules =~= e.submodules);
        } else {
            if has_key(acc, k) {
                assert(m[find_index(acc, k)] == acc[find_index(acc, k)]);
            }
        }
    }
}

/// The merge law: for every key, the merged map's list is the
/// accumulator's list followed by the incoming map's list, where a map
/// without the key contributes the empty list; and the merged map has a
/// key exactly when one of the two has it. In particular, two files that
/// each define the same module end up with one entry holding the first
/// file's list followed by the second file's.
pub proof fn lemma_merge_concatenates(
    acc: Seq<DefEntryView>,
    incoming: Seq<DefEntryView>,
    k: Seq<char>,
)
    requires
        distinct_keys(incoming),
    ensures
        has_key(spec_merge(acc, incoming), k) <==> (has_key(acc, k) || has_key(incoming, k)),
        subs_of(spec_merge(acc, incoming), k) == subs_of(acc, k) + subs_of(incoming, k),
    decreases incoming.len(),
{
    if incoming.len() == 0 {
        lemma_find_index(incoming, k);
        assert(subs_of(incoming, k) == Seq::<SubmoduleView>::empty());
        assert(subs_of(acc, k) + Seq::<SubmoduleView>::empty() =~= subs_of(acc, k));
    } else {
        let e = incoming[0];
        let acc1 = merge_entry(acc, e);
        let rest = incoming.drop_first();
        assert(distinct_keys(rest)) by {
            assert(forall|i: int| 0 <= i < rest.len() ==> rest[i] == incoming[i + 1]);
        }
        lemma_merge_entry_subs(acc, e, k);
        lemma_merge_concatenates(acc1, rest, k);
        lemma_find_index(rest, k);
        lemma_find_index(incoming, k);
        assert(forall|i: int| 0 <= i < rest.len() ==> rest[i] == incoming[i + 1]);
        if e.module_type == k {
            assert(!has_key(rest, k)) by {
                if has_key(rest, k) {
                    assert(incoming[find_index(rest, k) + 1].module_type == k);
                }
            }
            assert(subs_of(rest, k) == Seq::<SubmoduleView>::empty());
            assert(find_index(incoming, k) == 0);
            assert(subs_of(incoming, k) == e.submodules);
            assert(subs_of(acc1, k) + Seq::<SubmoduleView>::empty() =~= subs_of(acc1, k));
            assert(subs_of(acc, k) + subs_of(incoming, k) == subs_of(acc, k) + e.submodules);
        } else {
            assert(find_index(incoming, k) == if find_index(rest, k) == -1 {
                -1
            } else {
                find_index(rest, k) + 1
            });
            if has_key(incoming, k) {
                assert(incoming[find_index(incoming, k)] == rest[find_index(rest, k)]);
                assert(subs_of(incoming, k) == subs_of(rest, k));
            } else {
                assert(subs_of(incoming, k) == subs_of(rest, k));
            }
        }
    }
}

impl DefinitionMap {
    /// The empty map.
    pub fn new() -> (r: DefinitionMap)
        ensures
            r@ =~= Seq::<DefEntryView>::empty(),
    {
        DefinitionMap { entries: Vec::new() }
    }

    /// Linear scan for `name`; returns the index of its entry.
    pub fn find_entry(&self, name: &String) -> (r: Option<usize>)
        ensures
            match r {
                Some(i) => i as int == find_index(self@, name@) && i < self@.len()
                    && self@[i as int].module_type == name@,
                None => !has_key(self@, name@),
            },
    {
        let ghost entries = self@;
        let mut i: usize = 0;
        while i < self.entries.len()
            invariant
                0 <= i <= self.entries.len(),
                entries == self@,
                entries.len() == self.entries.len(),
                forall|j: int| 0 <= j < i ==> entries[j].module_type != name@,
            decreases self.entries.len() - i,
        {
            if self.entries[i].module_type == *name {
                proof {
                    lemma_find_index(entries, name@);
                    assert(entries[i as int].module_type == name@);
                    let r = find_index(entries, name@);
                    assert(r != -1);
                    assert(!(r < i as int)) by {
                        if r < i as int {
                            assert(entries[r].module_type == name@);
                        }
                    }
                    assert(r == i as int);
                }
                return Some(i);
            }
            i += 1;
        }
        proof {
            lemma_find_index(entries, name@);
        }
        None
    }

    /// Fold another map (one file's definitions) into this one, entry by
    /// entry in the incoming map's order: a known key has the incoming
    /// list appended to its own, a new key is added at the end.
    pub fn merge_from(&mut self, other: DefinitionMap)
        ensures
            final(self)@ == spec_merge(old(self)@, other@),
            distinct_keys(old(self)@) ==> distinct_keys(final(self)@),
    {
        let ghost orig_self = self@;
        let ghost orig_other = other@;
        let mut incoming = other;
        while incoming.entries.len() > 0
            invariant
                spec_merge(orig_self, orig_other) == spec_merge(self@, incoming@),
            decreases incoming.entries.len(),
        {
            let ghost pre_self = self@;
            let ghost pre_in = incoming@;
            let mut e = incoming.entries.remove(0);
            let ghost e_view = e@;
            proof {
                assert(e_view == pre_in[0]);
                assert(incoming@ =~= pre_in.drop_first());
            }
            let r = self.find_entry(&e.module_type);
            match r {
                Some(i) => {
                    let entry = &mut self.entries[i];
                    entry.submodules.append(&mut e.submodules);
                    proof {
                        assert(self@ =~~= merge_entry(pre_self, e_view));
                    }
                },
                None => {
                    self.entries.push(e);
                    proof {
                        assert(self@ =~~= merge_entry(pre_self, e_view));
                    }
                },
            }
            proof {
                assert(spec_merge(pre_self, pre_in) == spec_merge(self@, incoming@));
            }
        }
        proof {
            assert(incoming@.len() == 0);
            assert(spec_merge(self@, incoming@) == self@);
            if distinct_keys(orig_self) {
                lemma_merge_distinct(orig_self, orig_other);
            }
        }
    }
}

} // verus!
