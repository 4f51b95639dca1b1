//! The instance expander: it turns a module type into a fully expanded
//! instance tree, re-materializing every instantiation site separately
//! (no sharing, no memoization), and cuts a module type that reappears
//! in its own ancestry so that a cyclic definition graph still expands
//! to a finite tree instead of recursing without bound.

use vstd::prelude::*;

use crate::Design;
use crate::InstanceNode;
use crate::SubmoduleView;
use crate::defs::DefEntryView;
use crate::defs::DefinitionMap;
use crate::defs::find_index;
use crate::defs::has_key;
use crate::defs::keys_of;
use crate::defs::lemma_find_index;
use crate::defs::subs_of;
use crate::roots::find_top_level_modules;
use crate::roots::root_names;
use crate::str_views;

verus! {

/// The set of defined module types.
pub open spec fn key_set(entries: Seq<DefEntryView>) -> Set<Seq<char>> {
    keys_of(entries).to_set()
}

/// How many defined module types are not yet on the ancestry path; the
/// expansion's termination measure.
pub open spec fn remaining(entries: Seq<DefEntryView>, ancestry: Set<Seq<char>>) -> nat {
    key_set(entries).difference(ancestry).len()
}

/// Every submodule list is short enough for a child count to fit in the
/// complexity field.
pub open spec fn bounded_lists(entries: Seq<DefEntryView>) -> bool {
    forall|i: int| 0 <= i < entries.len() ==> #[trigger] entries[i].submodules.len() + 1
        <= u32::MAX
}

/// What it means for `n` to be the expansion of an instantiation of
/// `ty` named `inst`, with the module types in `ancestry` already open
/// on the path from the root: a defined type not on the path expands
/// each recorded submodule in order, each expanded independently of its
/// sibling sites; an undefined type, or one reappearing in its own
/// ancestry, is a leaf. Every node's complexity is one more than its
/// child count.
pub open spec fn is_expansion(
    entries: Seq<DefEntryView>,
    ancestry: Set<Seq<char>>,
    inst: Seq<char>,
    ty: Seq<char>,
    n: InstanceNode,
) -> bool
    decreases n,
{
    &&& n.instance_name@ == inst
    &&& n.module_type@ == ty
    &&& n.complexity as int == n.children@.len() + 1
    &&& if has_key(entries, ty) && !ancestry.contains(ty) {
        let subs = subs_of(entries, ty);
        &&& n.children@.len() == subs.len()
        &&& forall|i: int|
            0 <= i < n.children@.len() ==> is_expansion(
                entries,
                ancestry.insert(ty),
                subs[i].instance_name,
                subs[i].module_type,
                #[trigger] n.children@[i],
            )
    } else {
        n.children@.len() == 0
    }
}

/// Opening a defined module type that is not yet on the path strictly
/// shrinks the set of types still available for deeper expansion.
pub proof fn lemma_remaining_decreases(
    entries: Seq<DefEntryView>,
    ancestry: Set<Seq<char>>,
    ty: Seq<char>,
)
    requires
        has_key(entries, ty),
        !ancestry.contains(ty),
    ensures
        remaining(entries, ancestry.insert(ty)) < remaining(entries, ancestry),
{
    broadcast use vstd::set::group_set_axioms;

    let ks = key_set(entries);
    vstd::seq_lib::seq_to_set_is_finite(keys_of(entries));
    lemma_find_index(entries, ty);
    let r = find_index(entries, ty);
    assert(keys_of(entries)[r] == ty);
    assert(keys_of(entries).contains(ty));
    assert(ks.contains(ty));
    let d = ks.difference(ancestry);
    let d2 = ks.difference(ancestry.insert(ty));
    assert(d.contains(ty));
    assert(d2 =~= d.remove(ty));
    assert(d.len() == d.remove(ty).len() + 1);
}

/// Whether every node of the tree under `n`, leaves included, carries a
/// complexity of exactly one more than its child count.
pub open spec fn complexity_consistent(n: InstanceNode) -> bool
    decreases n,
{
    &&& n.complexity as int == n.children@.len() + 1
    &&& forall|i: int|
        0 <= i < n.children@.len() ==> complexity_consistent(#[trigger] n.children@[i])
}

/// Every node of an expanded tree, a leaf included, has complexity one
/// more than its child count; in particular a leaf has complexity one.
pub proof fn lemma_expansion_complexity(
    entries: Seq<DefEntryView>,
    ancestry: Set<Seq<char>>,
    inst: Seq<char>,
    ty: Seq<char>,
    n: InstanceNode,
)
    requires
        is_expansion(entries, ancestry, inst, ty, n),
    ensures
        complexity_consistent(n),
    decreases n,
{
    if has_key(entries, ty) && !ancestry.contains(ty) {
        let subs = subs_of(entries, ty);
        assert forall|i: int| 0 <= i < n.children@.len() implies complexity_consistent(
            #[trigger] n.children@[i],
        ) by {
            lemma_expansion_complexity(
                entries,
                ancestry.insert(ty),
                subs[i].instance_name,
                subs[i].module_type,
                n.children@[i],
            );
        }
    }
}

/// Whether two instance trees agree node for node: same names, same
/// complexity, same shape.
pub open spec fn same_tree(m: InstanceNode, n: InstanceNode) -> bool
    decreases m,
{
    &&& m.instance_name@ == n.instance_name@
    &&& m.module_type@ == n.module_type@
    &&& m.complexity == n.complexity
    &&& m.children@.len() == n.children@.len()
    &&& forall|i: int|
        0 <= i < m.children@.len() ==> same_tree(#[trigger] m.children@[i], n.children@[i])
}

/// Expansion is deterministic: two nodes that both expand the same
/// instantiation under the same ancestry are the same tree, so the
/// expansion relation pins the output down completely.
pub proof fn lemma_expansion_deterministic(
    entries: Seq<DefEntryView>,
    ancestry: Set<Seq<char>>,
    inst: Seq<char>,
    ty: Seq<char>,
    m: InstanceNode,
    n: InstanceNode,
)
    requires
        is_expansion(entries, ancestry, inst, ty, m),
        is_expansion(entries, ancestry, inst, ty, n),
    ensures
        same_tree(m, n),
    decreases m,
{
    if has_key(entries, ty) && !ancestry.contains(ty) {
        let subs = subs_of(entries, ty);
        assert forall|i: int| 0 <= i < m.children@.len() implies same_tree(
            #[trigger] m.children@[i],
            n.children@[i],
        ) by {
            lemma_expansion_deterministic(
                entries,
                ancestry.insert(ty),
                subs[i].instance_name,
                subs[i].module_type,
                m.children@[i],
                n.children@[i],
            );
        }
    }
}

/// An instantiation whose module type is nowhere defined expands to a
/// leaf — no children, complexity one — never to an error.
pub proof fn lemma_undefined_expands_to_leaf(
    entries: Seq<DefEntryView>,
    ancestry: Set<Seq<char>>,
    inst: Seq<char>,
    ty: Seq<char>,
    n: InstanceNode,
)
    requires
        is_expansion(entries, ancestry, inst, ty, n),
        !has_key(entries, ty),
    ensures
        n.children@.len() == 0,
        n.complexity == 1,
{
}

/// A module type that reappears in its own ancestry is cut off as a
/// leaf rather than expanded further.
pub proof fn lemma_cycle_cut(
    entries: Seq<DefEntryView>,
    ancestry: Set<Seq<char>>,
    inst: Seq<char>,
    ty: Seq<char>,
    n: InstanceNode,
)
    requires
        is_expansion(entries, ancestry, inst, ty, n),
        ancestry.contains(ty),
    ensures
        n.children@.len() == 0,
        n.complexity == 1,
{
}

/// A self-instantiating module expands to a bounded tree: the root has
/// exactly one child, and that child is a leaf, because the module's
/// type is already on its own ancestry path.
pub proof fn lemma_self_cycle_is_bounded(
    entries: Seq<DefEntryView>,
    inst: Seq<char>,
    a: Seq<char>,
    sub_inst: Seq<char>,
    n: InstanceNode,
)
    requires
        has_key(entries, a),
        subs_of(entries, a) == seq![SubmoduleView { instance_name: sub_inst, module_type: a }],
        is_expansion(entries, Set::empty(), inst, a, n),
    ensures
        n.children@.len() == 1,
        n.complexity == 2,
        n.children@[0].module_type@ == a,
        n.children@[0].children@.len() == 0,
        n.children@[0].complexity == 1,
{
    broadcast use vstd::set::group_set_axioms;

    assert(!Set::<Seq<char>>::empty().contains(a));
    assert(is_expansion(
        entries,
        Set::<Seq<char>>::empty().insert(a),
        sub_inst,
        a,
        n.children@[0],
    ));
    assert(Set::<Seq<char>>::empty().insert(a).contains(a));
}

/// Re-used modules are expanded independently at every instantiation
/// site: when `a`'s body instantiates `b` twice and `b`'s body
/// instantiates the undefined type `c` twice, the expansion of `a` has
/// two `b` children and each of them has two `c` leaf children — four
/// separately materialized leaves in all.
pub proof fn lemma_reuse_expands_independently(
    entries: Seq<DefEntryView>,
    inst: Seq<char>,
    a: Seq<char>,
    b: Seq<char>,
    c: Seq<char>,
    b1: SubmoduleView,
    b2: SubmoduleView,
    c1: SubmoduleView,
    c2: SubmoduleView,
    n: InstanceNode,
)
    requires
        a != b,
        has_key(entries, a),
        has_key(entries, b),
        !has_key(entries, c),
        b1.module_type == b,
        b2.module_type == b,
        c1.module_type == c,
        c2.module_type == c,
        subs_of(entries, a) == seq![b1, b2],
        subs_of(entries, b) == seq![c1, c2],
        is_expansion(entries, Set::empty(), inst, a, n),
    ensures
        n.children@.len() == 2,
        n.complexity == 3,
        forall|i: int|
            0 <= i < 2 ==> {
                let mid = #[trigger] n.children@[i];
                &&& mid.module_type@ == b
                &&& mid.children@.len() == 2
                &&& mid.complexity == 3
                &&& forall|j: int|
                    0 <= j < 2 ==> {
                        let leaf = #[trigger] mid.children@[j];
                        &&& leaf.module_type@ == c
                        &&& leaf.children@.len() == 0
                        &&& leaf.complexity == 1
                    }
            },
{
    broadcast use vstd::set::group_set_axioms;

    let empty = Set::<Seq<char>>::empty();
    assert(!empty.contains(a));
    assert(n.children@.len() == 2);
    let anc_a = empty.insert(a);
    assert forall|i: int| 0 <= i < 2 implies {
        let mid = #[trigger] n.children@[i];
        &&& mid.module_type@ == b
        &&& mid.children@.len() == 2
        &&& mid.complexity == 3
        &&& forall|j: int|
            0 <= j < 2 ==> {
                let leaf = #[trigger] mid.children@[j];
                &&& leaf.module_type@ == c
                &&& leaf.children@.len() == 0
                &&& leaf.complexity == 1
            }
    } by {
        let mid = n.children@[i];
        assert(is_expansion(entries, anc_a, subs_of(entries, a)[i].instance_name, b, mid));
        assert(!anc_a.contains(b));
        let anc_b = anc_a.insert(b);
        assert(mid.children@.len() == 2);
        assert forall|j: int| 0 <= j < 2 implies {
            let leaf = #[trigger] mid.children@[j];
            &&& leaf.module_type@ == c
            &&& leaf.children@.len() == 0
            &&& leaf.complexity == 1
        } by {
            let leaf = mid.children@[j];
            assert(is_expansion(entries, anc_b, subs_of(entries, b)[j].instance_name, c, leaf));
        }
    }
}

/// Whether `target` is one of `names`.
fn contains_name(names: &Vec<String>, target: &String) -> (r: bool)
    ensures
        r == str_views(names@).to_set().contains(target@),
{
    broadcast use vstd::set::group_set_axioms;

    let mut i: usize = 0;
    while i < names.len()
        invariant
            i <= names@.len(),
            forall|j: int| 0 <= j < i ==> names@[j]@ != target@,
        decreases names@.len() - i,
    {
        if names[i] == *target {
            proof {
                assert(str_views(names@)[i as int] == target@);
                assert(str_views(names@).contains(target@));
            }
            return true;
        }
        i += 1;
    }
    proof {
        assert(forall|j: int| 0 <= j < str_views(names@).len() ==> str_views(names@)[j]
            != target@);
        assert(!str_views(names@).contains(target@));
    }
    false
}

/// A copy of a stack of names, element by element.
fn clone_names(names: &Vec<String>) -> (r: Vec<String>)
    ensures
        str_views(r@) == str_views(names@),
{
    let mut r: Vec<String> = Vec::new();
    let mut i: usize = 0;
    while i < names.len()
        invariant
            i <= names@.len(),
            r@.len() == i,
            forall|j: int| 0 <= j < i ==> r@[j]@ == names@[j]@,
        decreases names@.len() - i,
    {
        r.push(names[i].clone());
        i += 1;
    }
    proof {
        assert(str_views(r@) =~= str_views(names@));
    }
    r
}

/// Expand one instantiation, with `ancestry` holding the module types
/// already open on the path from the root.
fn expand_node(
    defs: &DefinitionMap,
    ancestry: &Vec<String>,
    instance_name: String,
    module_type: String,
) -> (node: InstanceNode)
    requires
        bounded_lists(defs@),
    ensures
        is_expansion(defs@, str_views(ancestry@).to_set(), instance_name@, module_type@, node),
    decreases remaining(defs@, str_views(ancestry@).to_set()),
{
    let ghost anc = str_views(ancestry@).to_set();
    let r = defs.find_entry(&module_type);
    let on_path = contains_name(ancestry, &module_type);
    if r.is_some() && !on_path {
        let idx = r.unwrap();
        let ghost subs = subs_of(defs@, module_type@);
        proof {
            assert(has_key(defs@, module_type@));
            assert(subs == defs@[idx as int].submodules);
            lemma_remaining_decreases(defs@, anc, module_type@);
        }
        let mut extended = clone_names(ancestry);
        extended.push(module_type.clone());
        let ghost anc2 = str_views(extended@).to_set();
        proof {
            assert(str_views(extended@) =~= str_views(ancestry@).push(module_type@));
            str_views(ancestry@).lemma_push_to_set_commute(module_type@);
            assert(anc2 =~= anc.insert(module_type@));
            assert(remaining(defs@, anc2) < remaining(defs@, anc));
        }
        let subs_len = defs.entries[idx].submodules.len();
        let mut children: Vec<InstanceNode> = Vec::new();
        let mut j: usize = 0;
        while j < subs_len
            invariant
                j <= subs_len,
                bounded_lists(defs@),
                idx < defs.entries@.len(),
                defs@.len() == defs.entries@.len(),
                subs == defs@[idx as int].submodules,
                subs.len() == subs_len,
                subs_len == defs.entries@[idx as int].submodules@.len(),
                anc == str_views(ancestry@).to_set(),
                anc2 == str_views(extended@).to_set(),
                anc2 == anc.insert(module_type@),
                remaining(defs@, anc2) < remaining(defs@, anc),
                children@.len() == j,
                forall|b: int|
                    0 <= b < j ==> is_expansion(
                        defs@,
                        anc2,
                        subs[b].instance_name,
                        subs[b].module_type,
                        #[trigger] children@[b],
                    ),
            decreases subs_len - j,
        {
            let sub = &defs.entries[idx].submodules[j];
            proof {
                assert(sub@ == subs[j as int]);
            }
            let child = expand_node(
                defs,
                &extended,
                sub.instance_name.clone(),
                sub.module_type.clone(),
            );
            children.push(child);
            j += 1;
        }
        proof {
            assert(defs@[idx as int].submodules.len() + 1 <= u32::MAX);
            assert(children@.len() + 1 <= u32::MAX);
        }
        let complexity = children.len() as u32 + 1;
        InstanceNode { instance_name, module_type, complexity, children }
    } else {
        InstanceNode {
            instance_name,
            module_type,
            complexity: 1,
            children: Vec::new(),
        }
    }
}

/// Expand `module_type` into a fully materialized instance tree named
/// `instance_name`. An undefined module type yields a leaf; a module
/// type reached again inside its own expansion is cut off as a leaf
/// rather than expanded without bound.
///
/// Every instantiation site is expanded separately, so the node count
/// of the result — and with it heap use — can grow exponentially with
/// hierarchy depth when module types are heavily re-used, and the
/// recursion depth equals the hierarchy depth. Callers handing this
/// function deep, highly re-used designs carry that cost.
pub fn build_instance_node(
    defs: &DefinitionMap,
    instance_name: String,
    module_type: String,
) -> (node: InstanceNode)
    requires
        bounded_lists(defs@),
    ensures
        is_expansion(defs@, Set::empty(), instance_name@, module_type@, node),
{
    broadcast use vstd::set::group_set_axioms;

    let ancestry: Vec<String> = Vec::new();
    proof {
        assert(str_views(ancestry@) =~= Seq::<Seq<char>>::empty());
        assert(str_views(ancestry@).to_set() =~= Set::<Seq<char>>::empty());
    }
    expand_node(defs, &ancestry, instance_name, module_type)
}

/// Whether every submodule list is short enough to expand; callers can
/// test [`bounded_lists`] with this before building trees.
pub fn lists_bounded(defs: &DefinitionMap) -> (b: bool)
    ensures
        b == bounded_lists(defs@),
{
    let mut i: usize = 0;
    while i < defs.entries.len()
        invariant
            i <= defs.entries@.len(),
            defs@.len() == defs.entries@.len(),
            forall|j: int| 0 <= j < i ==> #[trigger] defs@[j].submodules.len() + 1 <= u32::MAX,
        decreases defs.entries@.len() - i,
    {
        if defs.entries[i].submodules.len() >= (u32::MAX as usize) {
            proof {
                assert(defs@[i as int].submodules.len() >= u32::MAX);
                assert(!(defs@[i as int].submodules.len() + 1 <= u32::MAX));
            }
            return false;
        }
        i += 1;
    }
    true
}

/// Expand the whole design: one tree per top-level module, each root
/// instance named after its module type, in root order.
pub fn build_design(defs: &DefinitionMap) -> (design: Design)
    requires
        bounded_lists(defs@),
    ensures
        design.top_instances@.len() == root_names(defs@).len(),
        forall|i: int|
            0 <= i < design.top_instances@.len() ==> is_expansion(
                defs@,
                Set::empty(),
                root_names(defs@)[i],
                root_names(defs@)[i],
                #[trigger] design.top_instances@[i],
            ),
{
    let roots = find_top_level_modules(defs);
    let mut top_instances: Vec<InstanceNode> = Vec::new();
    let mut i: usize = 0;
    while i < roots.len()
        invariant
            i <= roots@.len(),
            bounded_lists(defs@),
            str_views(roots@) == root_names(defs@),
            top_instances@.len() == i,
            forall|b: int|
                0 <= b < i ==> is_expansion(
                    defs@,
                    Set::empty(),
                    root_names(defs@)[b],
                    root_names(defs@)[b],
                    #[trigger] top_instances@[b],
                ),
        decreases roots@.len() - i,
    {
        let name = roots[i].clone();
        let self_name = roots[i].clone();
        proof {
            assert(name@ == root_names(defs@)[i as int]);
        }
        let node = build_instance_node(defs, self_name, name);
        top_instances.push(node);
        i += 1;
    }
    Design { top_instances }
}

} // verus!
