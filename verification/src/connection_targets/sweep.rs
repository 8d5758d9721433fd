//! One system's line targets driven to a fixpoint: sweeps downstream that
//! recompute each line from its source block, and sweeps upstream that merge
//! names and test points flowing back from each line's destination.


use crate::connection_targets::graph::{block_by_sid, boundary_port, boundary_port_index, full_block_path, full_path, lookup_block};
use crate::connection_targets::ports::{port_get, port_lookup, ChildSubsystemSummary, ParentSubsystemContext, SummaryView};
use crate::connection_targets::propagation::{apply_local_line_metadata, apply_source_port_testpoint, base_line_spec, base_line_targets, boundary_spec, boundary_targets, local_meta, merge_spec, merge_upstream_metadata, source_testpoint};
use crate::connection_targets::routing::{bus_creator_spec, bus_creator_targets, bus_selector_spec, bus_selector_targets, demux_spec, demux_targets, demux_up_spec, demux_upstream_targets, downstream_spec, downstream_targets, lt_view, mux_spec, mux_targets, mux_up_spec, mux_upstream_targets};
use crate::connection_targets::target::{clone_targets, dedup, dedup_targets, targets_eq, views, ConnectionTarget, TargetView};
use crate::model::{Block, Line, System};
use crate::text::str_eq;
use vstd::pervasive::VecAdditionalExecFns;
use vstd::prelude::*;

verus! {

/// Where a system is being resolved: the system, its path below the model,
/// the model name, what the enclosing system connects to its ports, and the
/// summaries of the subsystems already resolved inside it (by SID).
pub struct Scope {
    pub system: System,
    pub path: Seq<Seq<char>>,
    pub model: Seq<char>,
    pub parent: Option<SummaryView>,
    pub children: Seq<(Seq<char>, SummaryView)>,
}

/// The subsystem summaries resolved so far, by the SID of their block.
pub type ChildSummaries = Vec<(String, ChildSubsystemSummary)>;

/// Subsystem summaries taken by value.
pub open spec fn children_view(c: Seq<(String, ChildSubsystemSummary)>) -> Seq<(Seq<char>, SummaryView)> {
    c.map_values(|e: (String, ChildSubsystemSummary)| (e.0@, e.1@))
}

/// The summary last recorded for `sid`.
pub open spec fn child_lookup(c: Seq<(Seq<char>, SummaryView)>, sid: Seq<char>) -> Option<SummaryView>
    decreases c.len(),
{
    if c.len() == 0 {
        None
    } else if c.last().0 == sid {
        Some(c.last().1)
    } else {
        child_lookup(c.drop_last(), sid)
    }
}

/// The summary last recorded for `sid`.
pub fn child_get<'a>(c: &'a ChildSummaries, sid: &str) -> (r: Option<&'a ChildSubsystemSummary>)
    ensures
        match r {
            Some(s) => child_lookup(children_view(c@), sid@) == Some(s@),
            None => child_lookup(children_view(c@), sid@) is None,
        },
{
    let ghost cv = children_view(c@);
    let mut k: usize = c.len();
    assert(cv.take(k as int) =~= cv);
    while k > 0
        invariant
            k <= c@.len(),
            cv == children_view(c@),
            child_lookup(cv, sid@) == child_lookup(cv.take(k as int), sid@),
        decreases k,
    {
        assert(cv.take(k as int).drop_last() =~= cv.take(k - 1));
        assert(cv.take(k as int).last() == (c@[k - 1].0@, c@[k - 1].1@));
        if str_eq(c[k - 1].0.as_str(), sid) {
            return Some(&c[k - 1].1);
        }
        k = k - 1;
    }
    None
}

/// The enclosing system's context, taken by value.
pub open spec fn parent_view(p: Option<&ParentSubsystemContext>) -> Option<SummaryView> {
    match p {
        Some(c) => Some(c@),
        None => None,
    }
}

/// Whether a block of this type forwards the targets of other lines.
pub open spec fn is_routing_type(ty: Seq<char>) -> bool {
    ty == "BusCreator"@ || ty == "BusSelector"@ || ty == "Mux"@ || ty == "Demux"@ || ty
        == "Inport"@ || ty == "SubSystem"@ || ty == "Reference"@
}

/// The targets a line gets from its source block, before its own metadata
/// is laid on: what the routing block forwards, what the enclosing system
/// feeds an Inport, what a resolved subsystem passes out of an output, and
/// otherwise the line's base target.
pub open spec fn forwarded(sc: Scope, lt: Seq<Seq<TargetView>>, line: Line, block: Block, src_sid: Seq<char>, src_port: u32) -> Seq<TargetView> {
    let ty = block.block_type@;
    let base = base_line_spec(sc.system, sc.path, sc.model, line);
    if ty == "BusCreator"@ {
        bus_creator_spec(sc.system, block, lt)
    } else if ty == "BusSelector"@ {
        bus_selector_spec(sc.system, block, line, lt)
    } else if ty == "Mux"@ {
        mux_spec(sc.system, block, lt)
    } else if ty == "Demux"@ {
        demux_spec(sc.system, block, src_port, lt)
    } else if ty == "Inport"@ {
        match sc.parent {
            Some(p) => match port_lookup(p.incoming, boundary_port(block)) {
                Some(ts) => boundary_spec(ts, full_path(sc.model, sc.path, block.name@)),
                None => base,
            },
            None => base,
        }
    } else if ty == "SubSystem"@ || ty == "Reference"@ {
        match child_lookup(sc.children, src_sid) {
            Some(s) => match port_lookup(s.outgoing, src_port) {
                Some(ts) => ts,
                None => base,
            },
            None => base,
        }
    } else {
        base
    }
}

/// The new targets of line `i` in a downstream sweep: none when the line has
/// no source block in the system; otherwise what its source block forwards,
/// with the line's own metadata and source test point laid on when the
/// block routes signals, de-duplicated.
pub open spec fn down_new(sc: Scope, lt: Seq<Seq<TargetView>>, i: int) -> Option<Seq<TargetView>> {
    let line = sc.system.lines@[i];
    match line.src {
        None => None,
        Some(src) => match block_by_sid(sc.system.blocks@, src.sid@) {
            None => None,
            Some(b) => {
                let block = sc.system.blocks@[b];
                let raw = forwarded(sc, lt, line, block, src.sid@, src.port_index);
                let adjusted = if is_routing_type(block.block_type@) {
                    source_testpoint(block, line, local_meta(line, raw))
                } else {
                    raw
                };
                Some(dedup(adjusted))
            },
        },
    }
}

/// The line targets after one downstream sweep from line `i` on, each line
/// recomputed from the targets as they stand when it is reached.
pub open spec fn sweep_down_from(sc: Scope, lt: Seq<Seq<TargetView>>, i: int) -> Seq<Seq<TargetView>>
    decreases sc.system.lines@.len() - i,
{
    if i < 0 || i >= sc.system.lines@.len() {
        lt
    } else {
        let next = match down_new(sc, lt, i) {
            Some(v) => lt.update(i, v),
            None => lt,
        };
        sweep_down_from(sc, next, i + 1)
    }
}

/// Downstream sweeps until nothing changes, at most `fuel` of them.
pub open spec fn propagate_down(sc: Scope, lt: Seq<Seq<TargetView>>, fuel: nat) -> Seq<Seq<TargetView>>
    decreases fuel,
{
    if fuel == 0 {
        lt
    } else {
        let next = sweep_down_from(sc, lt, 0);
        if next == lt {
            lt
        } else {
            propagate_down(sc, next, (fuel - 1) as nat)
        }
    }
}

/// What flows back to a line from its destination block: what a routing
/// block's outputs carry for it, what the enclosing system receives from
/// an Outport, or what a resolved subsystem reports for the input.
pub open spec fn upstream_spec(system: System, parent: Option<SummaryView>, children: Seq<(Seq<char>, SummaryView)>, lt: Seq<Seq<TargetView>>, line: Line, block: Block) -> Seq<TargetView> {
    let ty = block.block_type@;
    if ty == "BusCreator"@ || ty == "BusSelector"@ || ty == "Inport"@ {
        downstream_spec(system, block, lt)
    } else if ty == "Mux"@ {
        mux_up_spec(system, block, line, lt)
    } else if ty == "Demux"@ {
        demux_up_spec(system, block, lt)
    } else if ty == "Outport"@ {
        match parent {
            Some(p) => match port_lookup(p.outgoing, boundary_port(block)) {
                Some(ts) => ts,
                None => Seq::empty(),
            },
            None => Seq::empty(),
        }
    } else if ty == "SubSystem"@ || ty == "Reference"@ {
        let sid = match block.sid {
            Some(s) => s@,
            None => Seq::empty(),
        };
        match child_lookup(children, sid) {
            Some(s) => match line.dst {
                Some(d) => match port_lookup(s.incoming, d.port_index) {
                    Some(ts) => ts,
                    None => Seq::empty(),
                },
                None => Seq::empty(),
            },
            None => Seq::empty(),
        }
    } else {
        Seq::empty()
    }
}

/// The new targets of line `i` in an upstream sweep: none when the line has
/// no destination block in the system or nothing flows back; otherwise its
/// targets with what flows back merged in (across paths at subsystem and
/// Outport boundaries).
pub open spec fn up_new(sc: Scope, lt: Seq<Seq<TargetView>>, i: int) -> Option<Seq<TargetView>> {
    let line = sc.system.lines@[i];
    match line.dst {
        None => None,
        Some(dst) => match block_by_sid(sc.system.blocks@, dst.sid@) {
            None => None,
            Some(b) => {
                let block = sc.system.blocks@[b];
                let ps = upstream_spec(sc.system, sc.parent, sc.children, lt, line, block);
                let ty = block.block_type@;
                if ps.len() == 0 {
                    None
                } else {
                    Some(
                        merge_spec(
                            line,
                            lt[i],
                            ps,
                            ty == "SubSystem"@ || ty == "Reference"@ || ty == "Outport"@,
                        ),
                    )
                }
            },
        },
    }
}

/// The line targets after one upstream sweep from line `i` on.
pub open spec fn sweep_up_from(sc: Scope, lt: Seq<Seq<TargetView>>, i: int) -> Seq<Seq<TargetView>>
    decreases sc.system.lines@.len() - i,
{
    if i < 0 || i >= sc.system.lines@.len() {
        lt
    } else {
        let next = match up_new(sc, lt, i) {
            Some(v) => lt.update(i, v),
            None => lt,
        };
        sweep_up_from(sc, next, i + 1)
    }
}

/// Upstream sweeps until nothing changes, at most `fuel` of them.
pub open spec fn propagate_up(sc: Scope, lt: Seq<Seq<TargetView>>, fuel: nat) -> Seq<Seq<TargetView>>
    decreases fuel,
{
    if fuel == 0 {
        lt
    } else {
        let next = sweep_up_from(sc, lt, 0);
        if next == lt {
            lt
        } else {
            propagate_up(sc, next, (fuel - 1) as nat)
        }
    }
}

/// The scope of the given arguments.
pub open spec fn scope_of(system: System, system_path: Seq<String>, model: Seq<char>, parent: Option<&ParentSubsystemContext>, children: Seq<(String, ChildSubsystemSummary)>) -> Scope {
    Scope {
        system,
        path: system_path.map_values(|s: String| s@),
        model,
        parent: parent_view(parent),
        children: children_view(children),
    }
}

/// The targets a line gets from its source block, before its own metadata.
fn forwarded_exec(
    system: &System,
    model_name: &String,
    system_path: &Vec<String>,
    parent: Option<&ParentSubsystemContext>,
    children: &ChildSummaries,
    lt: &Vec<Vec<ConnectionTarget>>,
    line: &Line,
    block: &Block,
    src_sid: &String,
    src_port: u32,
) -> (r: Vec<ConnectionTarget>)
    requires
        lt@.len() == system.lines@.len(),
    ensures
        views(r@) == forwarded(
            scope_of(*system, system_path@, model_name@, parent, children@),
            lt_view(lt@),
            *line,
            *block,
            src_sid@,
            src_port,
        ),
{
    let ty = block.block_type.as_str();
    if str_eq(ty, "BusCreator") {
        bus_creator_targets(system, block, lt)
    } else if str_eq(ty, "BusSelector") {
        bus_selector_targets(system, block, line, lt)
    } else if str_eq(ty, "Mux") {
        mux_targets(system, block, lt)
    } else if str_eq(ty, "Demux") {
        demux_targets(system, block, src_port, lt)
    } else if str_eq(ty, "Inport") {
        match parent {
            Some(p) => match port_get(&p.incoming_by_port, boundary_port_index(block)) {
                Some(ts) => {
                    let bp = full_block_path(model_name, system_path, block.name.as_str());
                    boundary_targets(ts, &bp)
                },
                None => base_line_targets(system, model_name, system_path, line),
            },
            None => base_line_targets(system, model_name, system_path, line),
        }
    } else if str_eq(ty, "SubSystem") || str_eq(ty, "Reference") {
        match child_get(children, src_sid.as_str()) {
            Some(s) => match port_get(&s.outgoing_by_port, src_port) {
                Some(ts) => clone_targets(ts.as_slice()),
                None => base_line_targets(system, model_name, system_path, line),
            },
            None => base_line_targets(system, model_name, system_path, line),
        }
    } else {
        base_line_targets(system, model_name, system_path, line)
    }
}

/// The new targets of line `i` in a downstream sweep.
fn line_step_down(
    system: &System,
    model_name: &String,
    system_path: &Vec<String>,
    parent: Option<&ParentSubsystemContext>,
    children: &ChildSummaries,
    lt: &Vec<Vec<ConnectionTarget>>,
    i: usize,
) -> (r: Option<Vec<ConnectionTarget>>)
    requires
        lt@.len() == system.lines@.len(),
        i < system.lines@.len(),
    ensures
        match r {
            Some(v) => down_new(
                scope_of(*system, system_path@, model_name@, parent, children@),
                lt_view(lt@),
                i as int,
            ) == Some(views(v@)),
            None => down_new(
                scope_of(*system, system_path@, model_name@, parent, children@),
                lt_view(lt@),
                i as int,
            ) is None,
        },
{
    let line = &system.lines[i];
    let src = match &line.src {
        Some(s) => s,
        None => return None,
    };
    let b = match lookup_block(system, src.sid.as_str()) {
        Some(b) => b,
        None => return None,
    };
    let block = &system.blocks[b];
    let mut ts = forwarded_exec(
        system,
        model_name,
        system_path,
        parent,
        children,
        lt,
        line,
        block,
        &src.sid,
        src.port_index,
    );
    let ty = block.block_type.as_str();
    if str_eq(ty, "BusCreator") || str_eq(ty, "BusSelector") || str_eq(ty, "Mux") || str_eq(
        ty,
        "Demux",
    ) || str_eq(ty, "Inport") || str_eq(ty, "SubSystem") || str_eq(ty, "Reference") {
        apply_local_line_metadata(line, &mut ts);
        apply_source_port_testpoint(block, line, &mut ts);
    }
    Some(dedup_targets(ts))
}

/// Line targets with line `i` replaced.
proof fn lemma_lt_view_update(lt: Seq<Vec<ConnectionTarget>>, i: int, v: Vec<ConnectionTarget>)
    requires
        0 <= i < lt.len(),
    ensures
        lt_view(lt.update(i, v)) == lt_view(lt).update(i, views(v@)),
{
    assert(lt_view(lt.update(i, v)) =~= lt_view(lt).update(i, views(v@)));
}

/// One downstream sweep; says whether any line changed.
fn sweep_down(
    system: &System,
    model_name: &String,
    system_path: &Vec<String>,
    parent: Option<&ParentSubsystemContext>,
    children: &ChildSummaries,
    lt: &mut Vec<Vec<ConnectionTarget>>,
) -> (changed: bool)
    requires
        old(lt)@.len() == system.lines@.len(),
    ensures
        final(lt)@.len() == system.lines@.len(),
        lt_view(final(lt)@) == sweep_down_from(
            scope_of(*system, system_path@, model_name@, parent, children@),
            lt_view(old(lt)@),
            0,
        ),
        changed == (lt_view(final(lt)@) != lt_view(old(lt)@)),
{
    let ghost sc = scope_of(*system, system_path@, model_name@, parent, children@);
    let ghost start = lt_view(lt@);
    let mut changed = false;
    let mut i: usize = 0;
    while i < system.lines.len()
        invariant
            i <= system.lines@.len(),
            lt@.len() == system.lines@.len(),
            sc == scope_of(*system, system_path@, model_name@, parent, children@),
            sweep_down_from(sc, start, 0) == sweep_down_from(sc, lt_view(lt@), i as int),
            start.len() == system.lines@.len(),
            forall|j: int| i <= j < start.len() ==> #[trigger] lt_view(lt@)[j] == start[j],
            !changed ==> lt_view(lt@) == start,
            changed ==> exists|j: int| 0 <= j < i && #[trigger] lt_view(lt@)[j] != start[j],
        decreases system.lines@.len() - i,
    {
        let ghost cur = lt_view(lt@);
        match line_step_down(system, model_name, system_path, parent, children, lt, i) {
            Some(d) => {
                assert(cur[i as int] == views(lt@[i as int]@));
                if !targets_eq(&d, &lt[i]) {
                    proof {
                        lemma_lt_view_update(lt@, i as int, d);
                    }
                    lt.set(i, d);
                    changed = true;
                    assert(lt_view(lt@)[i as int] != start[i as int]);
                } else {
                    assert(cur.update(i as int, views(d@)) =~= cur);
                }
            },
            None => {},
        }
        i = i + 1;
    }
    proof {
        if changed {
            let j = choose|j: int| 0 <= j < i && #[trigger] lt_view(lt@)[j] != start[j];
            assert(lt_view(lt@)[j] != start[j]);
        }
    }
    changed
}

/// Downstream sweeps until nothing changes, at most eight of them.
pub fn propagate_line_targets(
    system: &System,
    model_name: &String,
    system_path: &Vec<String>,
    parent: Option<&ParentSubsystemContext>,
    children: &ChildSummaries,
    lt: &mut Vec<Vec<ConnectionTarget>>,
)
    requires
        old(lt)@.len() == system.lines@.len(),
    ensures
        final(lt)@.len() == system.lines@.len(),
        lt_view(final(lt)@) == propagate_down(
            scope_of(*system, system_path@, model_name@, parent, children@),
            lt_view(old(lt)@),
            8,
        ),
{
    let ghost sc = scope_of(*system, system_path@, model_name@, parent, children@);
    let mut fuel: usize = 8;
    while fuel > 0
        invariant
            fuel <= 8,
            lt@.len() == system.lines@.len(),
            sc == scope_of(*system, system_path@, model_name@, parent, children@),
            propagate_down(sc, lt_view(old(lt)@), 8) == propagate_down(
                sc,
                lt_view(lt@),
                fuel as nat,
            ),
        decreases fuel,
    {
        let changed = sweep_down(system, model_name, system_path, parent, children, lt);
        if changed {
            fuel = fuel - 1;
        } else {
            fuel = 0;
        }
    }
}

/// What flows back to a line from its destination block.
fn upstream_propagated_targets(
    system: &System,
    parent: Option<&ParentSubsystemContext>,
    children: &ChildSummaries,
    lt: &Vec<Vec<ConnectionTarget>>,
    line: &Line,
    block: &Block,
) -> (r: Vec<ConnectionTarget>)
    requires
        lt@.len() == system.lines@.len(),
    ensures
        views(r@) == upstream_spec(
            *system,
            parent_view(parent),
            children_view(children@),
            lt_view(lt@),
            *line,
            *block,
        ),
{
    let ty = block.block_type.as_str();
    if str_eq(ty, "BusCreator") || str_eq(ty, "BusSelector") || str_eq(ty, "Inport") {
        downstream_targets(system, block, lt)
    } else if str_eq(ty, "Mux") {
        mux_upstream_targets(system, block, line, lt)
    } else if str_eq(ty, "Demux") {
        demux_upstream_targets(system, block, lt)
    } else if str_eq(ty, "Outport") {
        match parent {
            Some(p) => match port_get(&p.outgoing_by_port, boundary_port_index(block)) {
                Some(ts) => clone_targets(ts.as_slice()),
                None => {
                    assert(views(Seq::<ConnectionTarget>::empty()) =~= Seq::<TargetView>::empty());
                    Vec::new()
                },
            },
            None => {
                assert(views(Seq::<ConnectionTarget>::empty()) =~= Seq::<TargetView>::empty());
                Vec::new()
            },
        }
    } else if str_eq(ty, "SubSystem") || str_eq(ty, "Reference") {
        let found = match &block.sid {
            Some(s) => child_get(children, s.as_str()),
            None => {
                proof {
                    reveal_strlit("");
                }
                assert(""@ =~= Seq::<char>::empty());
                child_get(children, "")
            },
        };
        match found {
            Some(s) => match &line.dst {
                Some(d) => match port_get(&s.incoming_by_port, d.port_index) {
                    Some(ts) => clone_targets(ts.as_slice()),
                    None => {
                        assert(views(Seq::<ConnectionTarget>::empty())
                            =~= Seq::<TargetView>::empty());
                        Vec::new()
                    },
                },
                None => {
                    assert(views(Seq::<ConnectionTarget>::empty()) =~= Seq::<TargetView>::empty());
                    Vec::new()
                },
            },
            None => {
                assert(views(Seq::<ConnectionTarget>::empty()) =~= Seq::<TargetView>::empty());
                Vec::new()
            },
        }
    } else {
        assert(views(Seq::<ConnectionTarget>::empty()) =~= Seq::<TargetView>::empty());
        Vec::new()
    }
}

/// The new targets of line `i` in an upstream sweep.
fn line_step_up(
    system: &System,
    parent: Option<&ParentSubsystemContext>,
    children: &ChildSummaries,
    lt: &Vec<Vec<ConnectionTarget>>,
    i: usize,
) -> (r: Option<Vec<ConnectionTarget>>)
    requires
        lt@.len() == system.lines@.len(),
        i < system.lines@.len(),
    ensures
        forall|sc: Scope|
            sc.system == *system && sc.parent == parent_view(parent) && sc.children
                == children_view(children@) ==> match r {
                Some(v) => #[trigger] up_new(sc, lt_view(lt@), i as int) == Some(views(v@)),
                None => up_new(sc, lt_view(lt@), i as int) is None,
            },
{
    let line = &system.lines[i];
    let dst = match &line.dst {
        Some(d) => d,
        None => return None,
    };
    let b = match lookup_block(system, dst.sid.as_str()) {
        Some(b) => b,
        None => return None,
    };
    let block = &system.blocks[b];
    let ps = upstream_propagated_targets(system, parent, children, lt, line, block);
    if ps.len() == 0 {
        assert(views(ps@).len() == 0);
        return None;
    }
    let ty = block.block_type.as_str();
    let cross = str_eq(ty, "SubSystem") || str_eq(ty, "Reference") || str_eq(ty, "Outport");
    assert(lt_view(lt@)[i as int] == views(lt@[i as int]@));
    Some(merge_upstream_metadata(line, &lt[i], &ps, cross))
}

/// One upstream sweep; says whether any line changed.
fn sweep_up(
    system: &System,
    model_name: &String,
    system_path: &Vec<String>,
    parent: Option<&ParentSubsystemContext>,
    children: &ChildSummaries,
    lt: &mut Vec<Vec<ConnectionTarget>>,
) -> (changed: bool)
    requires
        old(lt)@.len() == system.lines@.len(),
    ensures
        final(lt)@.len() == system.lines@.len(),
        lt_view(final(lt)@) == sweep_up_from(
            scope_of(*system, system_path@, model_name@, parent, children@),
            lt_view(old(lt)@),
            0,
        ),
        changed == (lt_view(final(lt)@) != lt_view(old(lt)@)),
{
    let ghost sc = scope_of(*system, system_path@, model_name@, parent, children@);
    let ghost start = lt_view(lt@);
    let mut changed = false;
    let mut i: usize = 0;
    while i < system.lines.len()
        invariant
            i <= system.lines@.len(),
            lt@.len() == system.lines@.len(),
            sc == scope_of(*system, system_path@, model_name@, parent, children@),
            sweep_up_from(sc, start, 0) == sweep_up_from(sc, lt_view(lt@), i as int),
            start.len() == system.lines@.len(),
            forall|j: int| i <= j < start.len() ==> #[trigger] lt_view(lt@)[j] == start[j],
            !changed ==> lt_view(lt@) == start,
            changed ==> exists|j: int| 0 <= j < i && #[trigger] lt_view(lt@)[j] != start[j],
        decreases system.lines@.len() - i,
    {
        let ghost cur = lt_view(lt@);
        let step = line_step_up(system, parent, children, lt, i);
        assert(up_new(sc, cur, i as int) == up_new(sc, cur, i as int));
        match step {
            Some(d) => {
                assert(cur[i as int] == views(lt@[i as int]@));
                if !targets_eq(&d, &lt[i]) {
                    proof {
                        lemma_lt_view_update(lt@, i as int, d);
                    }
                    lt.set(i, d);
                    changed = true;
                    assert(lt_view(lt@)[i as int] != start[i as int]);
                } else {
                    assert(cur.update(i as int, views(d@)) =~= cur);
                }
            },
            None => {},
        }
        i = i + 1;
    }
    proof {
        if changed {
            let j = choose|j: int| 0 <= j < i && #[trigger] lt_view(lt@)[j] != start[j];
            assert(lt_view(lt@)[j] != start[j]);
        }
    }
    changed
}

/// Upstream sweeps until nothing changes, at most eight of them.
pub fn propagate_line_metadata_upward(
    system: &System,
    model_name: &String,
    system_path: &Vec<String>,
    parent: Option<&ParentSubsystemContext>,
    children: &ChildSummaries,
    lt: &mut Vec<Vec<ConnectionTarget>>,
)
    requires
        old(lt)@.len() == system.lines@.len(),
    ensures
        final(lt)@.len() == system.lines@.len(),
        lt_view(final(lt)@) == propagate_up(
            scope_of(*system, system_path@, model_name@, parent, children@),
            lt_view(old(lt)@),
            8,
        ),
{
    let ghost sc = scope_of(*system, system_path@, model_name@, parent, children@);
    let mut fuel: usize = 8;
    while fuel > 0
        invariant
            fuel <= 8,
            lt@.len() == system.lines@.len(),
            sc == scope_of(*system, system_path@, model_name@, parent, children@),
            propagate_up(sc, lt_view(old(lt)@), 8) == propagate_up(sc, lt_view(lt@), fuel as nat),
        decreases fuel,
    {
        let changed = sweep_up(system, model_name, system_path, parent, children, lt);
        if changed {
            fuel = fuel - 1;
        } else {
            fuel = 0;
        }
    }
}

} // verus!
