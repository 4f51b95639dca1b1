//! The definition collector: it walks one file's ordered sequence of
//! syntax events and records, per module definition, the ordered list of
//! submodule instantiations inside it.
//!
//! The walk is tolerant of local oddities by design: a declaration or an
//! instantiation whose name could not be resolved is skipped silently,
//! an instantiation outside any open module body is dropped, and a
//! module end with no module open is a no-op. No error is ever produced.

use vstd::prelude::*;

use crate::Submodule;
use crate::SubmoduleView;
use crate::defs::DefEntry;
use crate::defs::DefEntryView;
use crate::defs::DefinitionMap;
use crate::defs::distinct_keys;
use crate::defs::find_index;
use crate::defs::has_key;
use crate::defs::lemma_find_index;
use crate::str_views;

verus! {

/// One syntax event of a file, in source order, as handed over by the
/// syntax source. A `None` name records that identifier resolution
/// failed for that node.
#[derive(Debug)]
pub enum SyntaxEvent {
    /// A module declaration opens; its resolved name, if resolution
    /// succeeded.
    ModuleStart { name: Option<String> },
    /// A module instantiation; the resolved instance name and module
    /// type, if both resolutions succeeded.
    Instantiation { submodule: Option<Submodule> },
    /// The end of the innermost open module body.
    ModuleEnd,
}

/// Mathematical value of a [`SyntaxEvent`].
pub ghost enum SyntaxEventView {
    ModuleStart { name: Option<Seq<char>> },
    Instantiation { submodule: Option<SubmoduleView> },
    ModuleEnd,
}

impl View for SyntaxEvent {
    type V = SyntaxEventView;

    open spec fn view(&self) -> SyntaxEventView {
        match self {
            SyntaxEvent::ModuleStart { name: n } => SyntaxEventView::ModuleStart {
                name: match n {
                    Some(s) => Some(s@),
                    None => None,
                },
            },
            SyntaxEvent::Instantiation { submodule: sub } => SyntaxEventView::Instantiation {
                submodule: match sub {
                    Some(s) => Some(s@),
                    None => None,
                },
            },
            SyntaxEvent::ModuleEnd => SyntaxEventView::ModuleEnd,
        }
    }
}

/// The collector's state: the entries recorded so far and the stack of
/// currently open module names, innermost last.
#[verifier::ext_equal]
pub ghost struct CollectorState {
    pub entries: Seq<DefEntryView>,
    pub scopes: Seq<Seq<char>>,
}

/// The collector's starting state: nothing recorded, no module open.
pub open spec fn collect_init() -> CollectorState {
    CollectorState { entries: Seq::empty(), scopes: Seq::empty() }
}

/// What one syntax event does to the collector's state.
pub open spec fn collect_step(st: CollectorState, ev: SyntaxEventView) -> CollectorState {
    match ev {
        SyntaxEventView::ModuleStart { name: None } => st,
        SyntaxEventView::ModuleStart { name: Some(n) } => CollectorState {
            entries: if has_key(st.entries, n) {
                st.entries
            } else {
                st.entries.push(DefEntryView { module_type: n, submodules: Seq::empty() })
            },
            scopes: st.scopes.push(n),
        },
        SyntaxEventView::Instantiation { submodule: None } => st,
        SyntaxEventView::Instantiation { submodule: Some(sub) } => {
            if st.scopes.len() == 0 {
                st
            } else {
                let parent = st.scopes.last();
                let r = find_index(st.entries, parent);
                if r >= 0 {
                    CollectorState {
                        entries: st.entries.update(
                            r,
                            DefEntryView {
                                module_type: st.entries[r].module_type,
                                submodules: st.entries[r].submodules.push(sub),
                            },
                        ),
                        scopes: st.scopes,
                    }
                } else {
                    st
                }
            }
        },
        SyntaxEventView::ModuleEnd => {
            if st.scopes.len() == 0 {
                st
            } else {
                CollectorState { entries: st.entries, scopes: st.scopes.drop_last() }
            }
        },
    }
}

/// The collector's state after a whole sequence of events.
pub open spec fn collect_fold(events: Seq<SyntaxEventView>) -> CollectorState
    decreases events.len(),
{
    if events.len() == 0 {
        collect_init()
    } else {
        collect_step(collect_fold(events.drop_last()), events.last())
    }
}

/// The mathematical values of a sequence of syntax events.
pub open spec fn event_views(events: Seq<SyntaxEvent>) -> Seq<SyntaxEventView> {
    events.map_values(|e: SyntaxEvent| e@)
}

/// The definition entries collected from one file's events.
pub open spec fn collected_entries(events: Seq<SyntaxEvent>) -> Seq<DefEntryView> {
    collect_fold(event_views(events)).entries
}

/// Collection never records two entries with the same key.
pub proof fn lemma_collect_fold_distinct(events: Seq<SyntaxEventView>)
    ensures
        distinct_keys(collect_fold(events).entries),
    decreases events.len(),
{
    if events.len() > 0 {
        lemma_collect_fold_distinct(events.drop_last());
        let st = collect_fold(events.drop_last());
        let next = collect_step(st, events.last());
        match events.last() {
            SyntaxEventView::ModuleStart { name: Some(n) } => {
                if !has_key(st.entries, n) {
                    lemma_find_index(st.entries, n);
                }
            },
            SyntaxEventView::Instantiation { submodule: Some(sub) } => {
                if st.scopes.len() > 0 {
                    lemma_find_index(st.entries, st.scopes.last());
                }
                assert(forall|i: int|
                    0 <= i < next.entries.len() ==> next.entries[i].module_type
                        == st.entries[i].module_type);
            },
            _ => {},
        }
    }
}

/// Walk one file's events and build its definition map.
pub fn collect_definitions(events: &Vec<SyntaxEvent>) -> (defs: DefinitionMap)
    ensures
        defs@ == collected_entries(events@),
        distinct_keys(defs@),
{
    let mut defs = DefinitionMap::new();
    let mut scopes: Vec<String> = Vec::new();
    let mut i: usize = 0;
    proof {
        assert(event_views(events@).take(0) =~= Seq::<SyntaxEventView>::empty());
    }
    while i < events.len()
        invariant
            i <= events@.len(),
            defs@ == collect_fold(event_views(events@).take(i as int)).entries,
            str_views(scopes@) == collect_fold(event_views(events@).take(i as int)).scopes,
        decreases events@.len() - i,
    {
        let ghost evs = event_views(events@);
        let ghost st = collect_fold(evs.take(i as int));
        proof {
            assert(evs.take(i + 1).drop_last() =~= evs.take(i as int));
            assert(evs.take(i + 1).last() == events@[i as int]@);
        }
        match &events[i] {
            SyntaxEvent::ModuleStart { name } => {
                match name {
                    Some(n) => {
                        let r = defs.find_entry(n);
                        if r.is_none() {
                            let ghost pre = defs@;
                            defs.entries.push(
                                DefEntry { module_type: n.clone(), submodules: Vec::new() },
                            );
                            proof {
                                assert(defs@ =~~= pre.push(
                                    DefEntryView { module_type: n@, submodules: Seq::empty() },
                                ));
                            }
                        }
                        scopes.push(n.clone());
                        proof {
                            assert(str_views(scopes@) =~= st.scopes.push(n@));
                        }
                    },
                    None => {},
                }
            },
            SyntaxEvent::Instantiation { submodule } => {
                match submodule {
                    Some(sub) => {
                        if scopes.len() > 0 {
                            let parent = &scopes[scopes.len() - 1];
                            proof {
                                assert(parent@ == st.scopes.last());
                            }
                            let r = defs.find_entry(parent);
                            match r {
                                Some(j) => {
                                    let ghost pre = defs@;
                                    let copied = Submodule {
                                        instance_name: sub.instance_name.clone(),
                                        module_type: sub.module_type.clone(),
                                    };
                                    proof {
                                        assert(copied@ == sub@);
                                    }
                                    let entry = &mut defs.entries[j];
                                    entry.submodules.push(copied);
                                    proof {
                                        assert(defs@ =~~= pre.update(
                                            j as int,
                                            DefEntryView {
                                                module_type: pre[j as int].module_type,
                                                submodules: pre[j as int].submodules.push(sub@),
                                            },
                                        ));
                                    }
                                },
                                None => {},
                            }
                        }
                    },
                    None => {},
                }
            },
            SyntaxEvent::ModuleEnd => {
                if scopes.len() > 0 {
                    scopes.pop();
                    proof {
                        assert(str_views(scopes@) =~= st.scopes.drop_last());
                    }
                }
            },
        }
        i += 1;
        proof {
            assert(defs@ == collect_fold(evs.take(i as int)).entries);
            assert(str_views(scopes@) == collect_fold(evs.take(i as int)).scopes);
        }
    }
    proof {
        assert(event_views(events@).take(events@.len() as int) =~= event_views(events@));
        lemma_collect_fold_distinct(event_views(events@));
    }
    defs
}

} // verus!
