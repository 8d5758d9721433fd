//! The targets a subsystem block and the system inside it exchange at their
//! common boundary, grouped by port number.

use crate::connection_targets::graph::{
    boundary_port, boundary_port_index, full_block_path, full_path, incoming_lines,
    incoming_lines_for_block, line_reaches, line_targets_block_sid, outgoing_line_indices_for_block,
    outgoing_lines,
};
use crate::connection_targets::ports::{
    port_dedup_all, port_dedup_all_exec, port_extend, port_extend_exec, port_insert,
    port_insert_exec, pt_view, PortTargets,
};
use crate::connection_targets::propagation::{boundary_spec, boundary_targets};
use crate::connection_targets::routing::{
    downstream_spec, downstream_targets, gather_at, gather_at_exec, lt_view,
};
use crate::connection_targets::target::{
    dedup, dedup_targets, lemma_views_push, views, ConnectionTarget, TargetView,
};
use crate::model::{Block, Line, System};
use crate::text::str_eq;
use std::collections::BTreeMap;
use vstd::prelude::*;

verus! {

/// The input port of the block with SID `sid` that a line ends at: its own
/// destination's port when that is the block, else 1 (a branch ends there).
pub open spec fn port_at(line: Line, sid: Seq<char>) -> u32 {
    match line.dst {
        Some(d) => if d.sid@ == sid {
            d.port_index
        } else {
            1
        },
        None => 1,
    }
}

/// The targets of the first `n` lines ending at the block with SID `sid`,
/// grouped by the input port they arrive at.
pub open spec fn incoming_groups(lines: Seq<Line>, lt: Seq<Seq<TargetView>>, sid: Seq<char>, n: int) -> Map<u32, Seq<TargetView>>
    decreases n,
{
    if n <= 0 {
        Map::empty()
    } else if line_reaches(lines[n - 1], sid) {
        port_extend(incoming_groups(lines, lt, sid, n - 1), port_at(lines[n - 1], sid), lt[n - 1])
    } else {
        incoming_groups(lines, lt, sid, n - 1)
    }
}

/// What the system around a subsystem block feeds each of its inputs.
pub open spec fn incoming_by_port_spec(system: System, block: Block, lt: Seq<Seq<TargetView>>) -> Map<u32, Seq<TargetView>> {
    match block.sid {
        None => Map::empty(),
        Some(s) => port_dedup_all(
            incoming_groups(system.lines@, lt, s@, system.lines@.len() as int),
        ),
    }
}

/// What the system around a subsystem block feeds each of its inputs.
pub fn incoming_targets_by_port(system: &System, block: &Block, lt: &Vec<Vec<ConnectionTarget>>) -> (r: PortTargets)
    requires
        lt@.len() == system.lines@.len(),
    ensures
        pt_view(r@) == incoming_by_port_spec(*system, *block, lt_view(lt@)),
{
    let mut by_port: PortTargets = BTreeMap::new();
    let sid = match &block.sid {
        Some(s) => s,
        None => {
            assert(pt_view(by_port@) =~= Map::<u32, Seq<TargetView>>::empty());
            return by_port;
        },
    };
    assert(pt_view(by_port@) =~= Map::<u32, Seq<TargetView>>::empty());
    let mut n: usize = 0;
    while n < system.lines.len()
        invariant
            n <= system.lines@.len(),
            lt@.len() == system.lines@.len(),
            pt_view(by_port@) == incoming_groups(system.lines@, lt_view(lt@), sid@, n as int),
        decreases system.lines@.len() - n,
    {
        let line = &system.lines[n];
        if line_targets_block_sid(line, sid.as_str()) {
            let port = match &line.dst {
                Some(d) => if str_eq(d.sid.as_str(), sid.as_str()) {
                    d.port_index
                } else {
                    1
                },
                None => 1,
            };
            assert(lt_view(lt@)[n as int] == views(lt@[n as int]@));
            port_extend_exec(&mut by_port, port, lt[n].as_slice());
        }
        n = n + 1;
    }
    port_dedup_all_exec(by_port)
}

/// The targets of the lines at the given positions, grouped by the output
/// port they leave from (1 for a line without a source).
pub open spec fn outgoing_groups(lines: Seq<Line>, lt: Seq<Seq<TargetView>>, idxs: Seq<int>) -> Map<u32, Seq<TargetView>>
    decreases idxs.len(),
{
    if idxs.len() == 0 {
        Map::empty()
    } else {
        let k = idxs.last();
        let port = match lines[k].src {
            Some(s) => s.port_index,
            None => 1,
        };
        port_extend(outgoing_groups(lines, lt, idxs.drop_last()), port, lt[k])
    }
}

/// What the system around a subsystem block receives from each of its
/// outputs.
pub open spec fn outgoing_by_port_spec(system: System, block: Block, lt: Seq<Seq<TargetView>>) -> Map<u32, Seq<TargetView>> {
    port_dedup_all(outgoing_groups(system.lines@, lt, outgoing_lines(system, block)))
}

/// What the system around a subsystem block receives from each of its
/// outputs.
pub fn outgoing_targets_by_port(system: &System, block: &Block, lt: &Vec<Vec<ConnectionTarget>>) -> (r: PortTargets)
    requires
        lt@.len() == system.lines@.len(),
    ensures
        pt_view(r@) == outgoing_by_port_spec(*system, *block, lt_view(lt@)),
{
    let idxs = outgoing_line_indices_for_block(system, block);
    let ghost ix = idxs@.map_values(|i: usize| i as int);
    let mut by_port: PortTargets = BTreeMap::new();
    assert(pt_view(by_port@) =~= outgoing_groups(system.lines@, lt_view(lt@), ix.take(0)));
    let mut k: usize = 0;
    while k < idxs.len()
        invariant
            k <= idxs@.len(),
            lt@.len() == system.lines@.len(),
            forall|j: int| 0 <= j < idxs@.len() ==> #[trigger] idxs@[j] < system.lines@.len(),
            ix == idxs@.map_values(|i: usize| i as int),
            pt_view(by_port@) == outgoing_groups(system.lines@, lt_view(lt@), ix.take(k as int)),
        decreases idxs@.len() - k,
    {
        let idx = idxs[k];
        let port = match &system.lines[idx].src {
            Some(s) => s.port_index,
            None => 1,
        };
        assert(ix.take(k + 1).drop_last() =~= ix.take(k as int));
        assert(lt_view(lt@)[idx as int] == views(lt@[idx as int]@));
        port_extend_exec(&mut by_port, port, lt[idx].as_slice());
        k = k + 1;
    }
    assert(ix.take(idxs@.len() as int) =~= ix);
    port_dedup_all_exec(by_port)
}

/// What the first `n` Inport blocks of a system pass inward, by port
/// number: the de-duplicated targets of the lines leaving each Inport that
/// has any (a later Inport with the same number replaces an earlier one).
pub open spec fn child_in_groups(system: System, lt: Seq<Seq<TargetView>>, n: int) -> Map<u32, Seq<TargetView>>
    decreases n,
{
    if n <= 0 {
        Map::empty()
    } else {
        let prev = child_in_groups(system, lt, n - 1);
        let b = system.blocks@[n - 1];
        if b.block_type@ == "Inport"@ {
            let ts = downstream_spec(system, b, lt);
            if ts.len() > 0 {
                port_insert(prev, boundary_port(b), dedup(ts))
            } else {
                prev
            }
        } else {
            prev
        }
    }
}

/// What the Inport blocks of a system pass inward, by port number.
pub open spec fn child_incoming_spec(system: System, lt: Seq<Seq<TargetView>>) -> Map<u32, Seq<TargetView>> {
    child_in_groups(system, lt, system.blocks@.len() as int)
}

/// What the Inport blocks of a system pass inward, by port number.
pub fn child_incoming_targets_by_port(system: &System, lt: &Vec<Vec<ConnectionTarget>>) -> (r: PortTargets)
    requires
        lt@.len() == system.lines@.len(),
    ensures
        pt_view(r@) == child_incoming_spec(*system, lt_view(lt@)),
{
    let mut by_port: PortTargets = BTreeMap::new();
    assert(pt_view(by_port@) =~= Map::<u32, Seq<TargetView>>::empty());
    let mut n: usize = 0;
    while n < system.blocks.len()
        invariant
            n <= system.blocks@.len(),
            lt@.len() == system.lines@.len(),
            pt_view(by_port@) == child_in_groups(*system, lt_view(lt@), n as int),
        decreases system.blocks@.len() - n,
    {
        let b = &system.blocks[n];
        if str_eq(b.block_type.as_str(), "Inport") {
            let ts = downstream_targets(system, b, lt);
            if ts.len() > 0 {
                let port = boundary_port_index(b);
                let d = dedup_targets(ts);
                port_insert_exec(&mut by_port, port, d);
            }
        }
        n = n + 1;
    }
    by_port
}

/// The paths of the first `n` Inport blocks of a system.
pub open spec fn inport_paths(system: System, system_path: Seq<Seq<char>>, model: Seq<char>, n: int) -> Seq<Seq<char>>
    decreases n,
{
    if n <= 0 {
        Seq::empty()
    } else {
        let prev = inport_paths(system, system_path, model, n - 1);
        let b = system.blocks@[n - 1];
        if b.block_type@ == "Inport"@ {
            prev.push(full_path(model, system_path, b.name@))
        } else {
            prev
        }
    }
}

/// The targets of `ts` whose path is not in `paths`.
pub open spec fn without_paths(ts: Seq<TargetView>, paths: Seq<Seq<char>>) -> Seq<TargetView>
    decreases ts.len(),
{
    if ts.len() == 0 {
        Seq::empty()
    } else {
        let rest = without_paths(ts.drop_last(), paths);
        if paths.contains(ts.last().path) {
            rest
        } else {
            rest.push(ts.last())
        }
    }
}

/// What the first `n` Outport blocks of a system pass outward, by port
/// number: the targets reaching each Outport, without those that are only
/// the system's own Inports, seen at the Outport boundary (a later Outport
/// with the same number replaces an earlier one).
pub open spec fn child_out_groups(system: System, system_path: Seq<Seq<char>>, model: Seq<char>, lt: Seq<Seq<TargetView>>, n: int) -> Map<u32, Seq<TargetView>>
    decreases n,
{
    if n <= 0 {
        Map::empty()
    } else {
        let prev = child_out_groups(system, system_path, model, lt, n - 1);
        let b = system.blocks@[n - 1];
        if b.block_type@ == "Outport"@ {
            let ts = without_paths(
                gather_at(system.lines@, lt, incoming_lines(system, b)),
                inport_paths(system, system_path, model, system.blocks@.len() as int),
            );
            if ts.len() > 0 {
                port_insert(
                    prev,
                    boundary_port(b),
                    boundary_spec(ts, full_path(model, system_path, b.name@)),
                )
            } else {
                prev
            }
        } else {
            prev
        }
    }
}

/// What the Outport blocks of a system pass outward, by port number.
pub open spec fn child_outgoing_spec(system: System, system_path: Seq<Seq<char>>, model: Seq<char>, lt: Seq<Seq<TargetView>>) -> Map<u32, Seq<TargetView>> {
    child_out_groups(system, system_path, model, lt, system.blocks@.len() as int)
}

/// Whether `p` is one of `paths`.
fn contains_path(paths: &Vec<String>, p: &String) -> (r: bool)
    ensures
        r == paths@.map_values(|s: String| s@).contains(p@),
{
    let ghost ps = paths@.map_values(|s: String| s@);
    let mut i: usize = 0;
    while i < paths.len()
        invariant
            i <= paths@.len(),
            ps == paths@.map_values(|s: String| s@),
            forall|k: int| 0 <= k < i ==> ps[k] != p@,
        decreases paths@.len() - i,
    {
        if paths[i].eq(p) {
            assert(ps[i as int] == p@);
            return true;
        }
        i = i + 1;
    }
    false
}

/// What the Outport blocks of a system pass outward, by port number.
pub fn child_outgoing_targets_by_port(system: &System, model_name: &String, system_path: &Vec<String>, lt: &Vec<Vec<ConnectionTarget>>) -> (r: PortTargets)
    requires
        lt@.len() == system.lines@.len(),
    ensures
        pt_view(r@) == child_outgoing_spec(
            *system,
            system_path@.map_values(|s: String| s@),
            model_name@,
            lt_view(lt@),
        ),
{
    let ghost sp = system_path@.map_values(|s: String| s@);
    let mut paths: Vec<String> = Vec::new();
    let mut n: usize = 0;
    assert(paths@.map_values(|s: String| s@) =~= Seq::<Seq<char>>::empty());
    while n < system.blocks.len()
        invariant
            n <= system.blocks@.len(),
            sp == system_path@.map_values(|s: String| s@),
            paths@.map_values(|s: String| s@) == inport_paths(*system, sp, model_name@, n as int),
        decreases system.blocks@.len() - n,
    {
        let b = &system.blocks[n];
        if str_eq(b.block_type.as_str(), "Inport") {
            let p = full_block_path(model_name, system_path, b.name.as_str());
            let ghost before = paths@;
            paths.push(p);
            assert(paths@.map_values(|s: String| s@) =~= before.map_values(|s: String| s@).push(
                p@,
            ));
        }
        n = n + 1;
    }
    let ghost all_inports = paths@.map_values(|s: String| s@);
    let mut by_port: PortTargets = BTreeMap::new();
    assert(pt_view(by_port@) =~= Map::<u32, Seq<TargetView>>::empty());
    let mut n: usize = 0;
    while n < system.blocks.len()
        invariant
            n <= system.blocks@.len(),
            lt@.len() == system.lines@.len(),
            sp == system_path@.map_values(|s: String| s@),
            all_inports == paths@.map_values(|s: String| s@),
            all_inports == inport_paths(*system, sp, model_name@, system.blocks@.len() as int),
            pt_view(by_port@) == child_out_groups(*system, sp, model_name@, lt_view(lt@), n as int),
        decreases system.blocks@.len() - n,
    {
        let b = &system.blocks[n];
        if str_eq(b.block_type.as_str(), "Outport") {
            let idxs = incoming_lines_for_block(system, b);
            let gathered = gather_at_exec(system, lt, &idxs);
            let mut kept: Vec<ConnectionTarget> = Vec::new();
            let mut j: usize = 0;
            assert(views(kept@) =~= without_paths(views(gathered@.take(0)), all_inports));
            while j < gathered.len()
                invariant
                    j <= gathered@.len(),
                    all_inports == paths@.map_values(|s: String| s@),
                    views(kept@) == without_paths(views(gathered@.take(j as int)), all_inports),
                decreases gathered@.len() - j,
            {
                proof {
                    assert(views(gathered@.take(j + 1)).drop_last() =~= views(
                        gathered@.take(j as int),
                    ));
                    assert(views(gathered@.take(j + 1)).last() == gathered@[j as int]@);
                }
                if !contains_path(&paths, &gathered[j].path) {
                    let y = gathered[j].duplicate();
                    proof {
                        lemma_views_push(kept@, y);
                    }
                    kept.push(y);
                }
                j = j + 1;
            }
            assert(gathered@.take(gathered@.len() as int) =~= gathered@);
            if kept.len() > 0 {
                assert(views(kept@).len() > 0);
                let port = boundary_port_index(b);
                let bp = full_block_path(model_name, system_path, b.name.as_str());
                let ts = boundary_targets(&kept, &bp);
                port_insert_exec(&mut by_port, port, ts);
            } else {
                assert(views(kept@).len() == 0);
            }
        }
        n = n + 1;
    }
    by_port
}

} // verus!
