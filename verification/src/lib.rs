//! Verified core of a hardware-design hierarchy explorer.
//!
//! The crate turns per-file records of module definitions and the
//! instantiations inside them into a forest of concrete instance trees:
//! it collects definitions from a file's syntax events, merges the
//! per-file maps in file order, detects the top-level modules (defined
//! but never instantiated), and expands each top-level module into an
//! instance tree annotated with a per-node complexity score.

use vstd::prelude::*;

pub mod collect;
pub mod defs;
pub mod expand;
pub mod roots;

verus! {

/// The character sequences of a sequence of strings.
pub open spec fn str_views(s: Seq<String>) -> Seq<Seq<char>> {
    s.map_values(|x: String| x@)
}

/// One instantiation statement inside a module body: the instance's own
/// name and the name of the module type being instantiated.
#[derive(Debug)]
pub struct Submodule {
    pub instance_name: String,
    pub module_type: String,
}

/// Mathematical value of a [`Submodule`]: both names as character sequences.
#[verifier::ext_equal]
pub ghost struct SubmoduleView {
    pub instance_name: Seq<char>,
    pub module_type: Seq<char>,
}

impl View for Submodule {
    type V = SubmoduleView;

    open spec fn view(&self) -> SubmoduleView {
        SubmoduleView { instance_name: self.instance_name@, module_type: self.module_type@ }
    }
}

/// A node of the expanded instance hierarchy: a concrete instance of a
/// module type, its children in the source order of the instantiations
/// inside the module's body, and a complexity score of one more than
/// the number of children (one for a leaf).
#[derive(Debug)]
pub struct InstanceNode {
    pub instance_name: String,
    pub module_type: String,
    pub complexity: u32,
    pub children: Vec<InstanceNode>,
}

/// The output forest: one fully expanded instance tree per top-level
/// module, in root order.
#[derive(Debug)]
pub struct Design {
    pub top_instances: Vec<InstanceNode>,
}

/// The event sequences of a sequence of files.
pub open spec fn file_views(files: Seq<Vec<collect::SyntaxEvent>>) -> Seq<
    Seq<collect::SyntaxEvent>,
> {
    files.map_values(|f: Vec<collect::SyntaxEvent>| f@)
}

/// The one definition map obtained by collecting each file's events and
/// merging the per-file maps in file order.
pub open spec fn merged_entries(files: Seq<Seq<collect::SyntaxEvent>>) -> Seq<
    defs::DefEntryView,
>
    decreases files.len(),
{
    if files.len() == 0 {
        Seq::empty()
    } else {
        defs::spec_merge(
            merged_entries(files.drop_last()),
            collect::collected_entries(files.last()),
        )
    }
}

/// The merged definition map of a vector of files' event vectors.
pub open spec fn merged_view(files: Seq<Vec<collect::SyntaxEvent>>) -> Seq<defs::DefEntryView> {
    merged_entries(file_views(files))
}

/// A merged definition map never carries two entries for one module
/// type, however many files define it: duplicate definitions are folded
/// into one entry, not flagged.
pub proof fn lemma_merged_entries_distinct(files: Seq<Seq<collect::SyntaxEvent>>)
    ensures
        defs::distinct_keys(merged_entries(files)),
    decreases files.len(),
{
    if files.len() > 0 {
        lemma_merged_entries_distinct(files.drop_last());
        defs::lemma_merge_distinct(
            merged_entries(files.drop_last()),
            collect::collected_entries(files.last()),
        );
    }
}

/// The whole pipeline after parsing: collect each file's definitions,
/// merge the per-file maps in file order, and expand every top-level
/// module of the merged map into an instance tree. `None` exactly when
/// some merged submodule list is too long for a complexity score, in
/// which case no forest is built.
pub fn elaborate_design(files: &Vec<Vec<collect::SyntaxEvent>>) -> (r: Option<Design>)
    ensures
        match r {
            Some(design) => expand::bounded_lists(merged_view(files@))
                && design.top_instances@.len() == roots::root_names(merged_view(files@)).len()
                && forall|i: int|
                0 <= i < design.top_instances@.len() ==> expand::is_expansion(
                    merged_view(files@),
                    Set::empty(),
                    roots::root_names(merged_view(files@))[i],
                    roots::root_names(merged_view(files@))[i],
                    #[trigger] design.top_instances@[i],
                ),
            None => !expand::bounded_lists(merged_view(files@)),
        },
{
    let mut all_defs = defs::DefinitionMap::new();
    let mut i: usize = 0;
    proof {
        assert(file_views(files@).take(0) =~= Seq::<Seq<collect::SyntaxEvent>>::empty());
    }
    while i < files.len()
        invariant
            i <= files@.len(),
            all_defs@ == merged_entries(file_views(files@).take(i as int)),
        decreases files@.len() - i,
    {
        let file_defs = collect::collect_definitions(&files[i]);
        all_defs.merge_from(file_defs);
        proof {
            assert(file_views(files@).take(i + 1).drop_last() =~= file_views(files@).take(
                i as int,
            ));
            assert(file_views(files@).take(i + 1).last() == files@[i as int]@);
        }
        i += 1;
    }
    proof {
        assert(file_views(files@).take(files@.len() as int) =~= file_views(files@));
    }
    if !expand::lists_bounded(&all_defs) {
        return None;
    }
    Some(expand::build_design(&all_defs))
}

} // verus!
