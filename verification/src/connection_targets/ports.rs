//! Targets grouped by port number, and the per-subsystem summaries built
//! from them.

use crate::connection_targets::target::{dedup, dedup_targets, extend_targets, views, ConnectionTarget, TargetView};
use std::collections::BTreeMap;
use vstd::prelude::*;
use vstd::std_specs::iter::IteratorSpec;

verus! {

broadcast use vstd::laws_cmp::group_laws_cmp;

/// Targets grouped by port number.
pub type PortTargets = BTreeMap<u32, Vec<ConnectionTarget>>;

/// A port grouping taken by value.
pub open spec fn pt_view(pm: Map<u32, Vec<ConnectionTarget>>) -> Map<u32, Seq<TargetView>> {
    pm.map_values(|v: Vec<ConnectionTarget>| views(v@))
}

/// The targets grouped under `port`, if any.
pub open spec fn port_lookup(s: Map<u32, Seq<TargetView>>, port: u32) -> Option<Seq<TargetView>> {
    if s.contains_key(port) {
        Some(s[port])
    } else {
        None
    }
}

/// `targets` added to the group of `port`, which is created when missing.
pub open spec fn port_extend(s: Map<u32, Seq<TargetView>>, port: u32, targets: Seq<TargetView>) -> Map<u32, Seq<TargetView>> {
    match port_lookup(s, port) {
        Some(g) => s.insert(port, g + targets),
        None => s.insert(port, targets),
    }
}

/// The group of `port` replaced by `targets`, or created.
pub open spec fn port_insert(s: Map<u32, Seq<TargetView>>, port: u32, targets: Seq<TargetView>) -> Map<u32, Seq<TargetView>> {
    s.insert(port, targets)
}

/// Every group de-duplicated.
pub open spec fn port_dedup_all(s: Map<u32, Seq<TargetView>>) -> Map<u32, Seq<TargetView>> {
    s.map_values(|g: Seq<TargetView>| dedup(g))
}

/// The targets grouped under `port`, if any.
pub fn port_get(pm: &PortTargets, port: u32) -> (r: Option<&Vec<ConnectionTarget>>)
    ensures
        match r {
            Some(v) => port_lookup(pt_view(pm@), port) == Some(views(v@)),
            None => port_lookup(pt_view(pm@), port) is None,
        },
{
    pm.get(&port)
}

/// Adds copies of `targets` to the group of `port`.
pub fn port_extend_exec(pm: &mut PortTargets, port: u32, targets: &[ConnectionTarget])
    ensures
        pt_view(final(pm)@) == port_extend(pt_view(old(pm)@), port, views(targets@)),
{
    let mut group: Vec<ConnectionTarget> = Vec::new();
    assert(views(Seq::<ConnectionTarget>::empty()) =~= Seq::<TargetView>::empty());
    match pm.get(&port) {
        Some(g) => {
            extend_targets(&mut group, g.as_slice());
        },
        None => {},
    }
    extend_targets(&mut group, targets);
    pm.insert(port, group);
    assert(pt_view(pm@) =~= port_extend(pt_view(old(pm)@), port, views(targets@)));
}

/// Sets the group of `port` to `targets`.
pub fn port_insert_exec(pm: &mut PortTargets, port: u32, targets: Vec<ConnectionTarget>)
    ensures
        pt_view(final(pm)@) == port_insert(pt_view(old(pm)@), port, views(targets@)),
{
    pm.insert(port, targets);
    assert(pt_view(pm@) =~= port_insert(pt_view(old(pm)@), port, views(targets@)));
}

/// De-duplicates every group.
pub fn port_dedup_all_exec(pm: PortTargets) -> (r: PortTargets)
    ensures
        pt_view(r@) == port_dedup_all(pt_view(pm@)),
{
    let mut r: PortTargets = BTreeMap::new();
    let keys = pm.keys();
    let ghost ks = keys.remaining();
    proof {
        assert(ks.unref().to_set() == pm@.dom());
    }
    for port in it: keys
        invariant
            it.seq() == ks,
            ks.unref().to_set() == pm@.dom(),
            forall|i: int| 0 <= i < it.index() ==> #[trigger] r@.contains_key(*ks[i]),
            forall|k: u32| #[trigger] r@.contains_key(k) ==> pm@.contains_key(k) && views(r@[k]@) == dedup(views(pm@[k]@)),
    {
        let p: u32 = *port;
        assert(pm@.dom().contains(p)) by {
            assert(ks.unref()[it.index()] == p);
        }
        let g = pm.get(&p).unwrap();
        let mut group: Vec<ConnectionTarget> = Vec::new();
        extend_targets(&mut group, g.as_slice());
        assert(views(Seq::<ConnectionTarget>::empty()) + views(g@) =~= views(g@));
        let d = dedup_targets(group);
        r.insert(p, d);
    }
    assert forall|k: u32| pm@.contains_key(k) implies #[trigger] r@.contains_key(k) by {
        assert(ks.unref().to_set().contains(k));
        let i = choose|i: int| 0 <= i < ks.unref().len() && ks.unref()[i] == k;
        assert(r@.contains_key(*ks[i]));
    }
    assert(pt_view(r@) =~= port_dedup_all(pt_view(pm@)));
    r
}

/// What a subsystem exposes at its boundary: the targets reaching each
/// input port from inside and each output port from inside.
pub struct ChildSubsystemSummary {
    pub incoming_by_port: PortTargets,
    pub outgoing_by_port: PortTargets,
}

/// What the system around a subsystem connects to its ports.
pub struct ParentSubsystemContext {
    pub incoming_by_port: PortTargets,
    pub outgoing_by_port: PortTargets,
}

/// A port grouping pair taken by value.
pub struct SummaryView {
    pub incoming: Map<u32, Seq<TargetView>>,
    pub outgoing: Map<u32, Seq<TargetView>>,
}

impl View for ChildSubsystemSummary {
    type V = SummaryView;

    open spec fn view(&self) -> SummaryView {
        SummaryView { incoming: pt_view(self.incoming_by_port@), outgoing: pt_view(self.outgoing_by_port@) }
    }
}

impl View for ParentSubsystemContext {
    type V = SummaryView;

    open spec fn view(&self) -> SummaryView {
        SummaryView { incoming: pt_view(self.incoming_by_port@), outgoing: pt_view(self.outgoing_by_port@) }
    }
}

} // verus!
