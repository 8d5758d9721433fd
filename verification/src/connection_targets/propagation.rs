//! The targets a line starts with and how names and test points are laid
//! onto them: resolve hints, the line's own metadata, the source port's test
//! point, and metadata flowing back upstream.

use crate::connection_targets::graph::{block_by_sid, full_block_path, full_path, lookup_block, output_port_count, output_ports};
use crate::connection_targets::metadata::{explicit_line_name, explicit_line_signal_name, line_has_testpoint_prop, line_testpoint, port_testpoint, port_testpoint_spec, resolve_index, resolve_index_value, set_signal_name_only, set_signal_resolve, with_signal_name, with_signal_resolve};
use crate::connection_targets::target::{clone_opt_string, dedup, dedup_targets, lemma_views_push, opt_str, views, ConnectionTarget, ConnectionTargetOrigin, ConnectionTargetResolve, ResolveView, TargetView};
use crate::model::{Block, Line, System};
use crate::text::str_eq;
use vstd::prelude::*;

verus! {

/// The input index of a mux that `line` ends at, if it ends at a mux.
pub open spec fn mux_input_of(system: System, line: Line) -> Option<u32> {
    match line.dst {
        Some(d) => match block_by_sid(system.blocks@, d.sid@) {
            Some(b) => if system.blocks@[b].block_type@ == "Mux"@ {
                Some(d.port_index)
            } else {
                None
            },
            None => None,
        },
        None => None,
    }
}

/// The resolve hint a line gives its source target: its own name, else the
/// mux input it ends at, else the target's element index when it has no
/// hint yet.
pub open spec fn resolve_hint(system: System, line: Line, t: TargetView) -> TargetView {
    match explicit_line_name(line) {
        Some(n) => with_signal_resolve(t, Some(n)),
        None => match mux_input_of(system, line) {
            Some(i) => TargetView { resolve: Some(ResolveView::Index(i)), ..t },
            None => match (t.resolve, t.element_index) {
                (None, Some(e)) => TargetView { resolve: Some(ResolveView::Index(e)), ..t },
                _ => t,
            },
        },
    }
}

/// Sets the resolve hint the line gives the target.
pub fn apply_line_resolve_hint(system: &System, line: &Line, target: &mut ConnectionTarget)
    ensures
        final(target)@ == resolve_hint(*system, *line, old(target)@),
{
    let name = explicit_line_signal_name(line);
    if name.is_some() {
        set_signal_resolve(target, name);
        return;
    }
    if let Some(d) = &line.dst {
        if let Some(b) = lookup_block(system, d.sid.as_str()) {
            if str_eq(system.blocks[b].block_type.as_str(), "Mux") {
                target.resolve = Some(ConnectionTargetResolve::Index(d.port_index));
                return;
            }
        }
    }
    if target.resolve.is_none() {
        if let Some(e) = target.element_index {
            target.resolve = Some(ConnectionTargetResolve::Index(e));
        }
    }
}

/// The target a line starts with at its source block: the block's path,
/// signals only, the line's name, a test point when the source port or the
/// line has one, the output index when the block has several outputs, and
/// the line's resolve hint.  None when the line has no source or the source
/// block is not in the system.
pub open spec fn base_line_spec(system: System, system_path: Seq<Seq<char>>, model: Seq<char>, line: Line) -> Seq<TargetView> {
    match line.src {
        None => Seq::empty(),
        Some(src) => match block_by_sid(system.blocks@, src.sid@) {
            None => Seq::empty(),
            Some(b) => {
                let block = system.blocks@[b];
                let t0 = TargetView {
                    path: full_path(model, system_path, block.name@),
                    signal_name: None,
                    resolve: None,
                    element_index: if src.port_type@ == "out"@ && output_ports(block) > 1 {
                        Some(src.port_index)
                    } else {
                        None
                    },
                    origin: ConnectionTargetOrigin::SourceBlock,
                    signals_only: true,
                    testpoint: port_testpoint_spec(block, src.port_type@, src.port_index)
                        || line_has_testpoint_prop(line),
                };
                seq![resolve_hint(system, line, with_signal_name(t0, explicit_line_name(line)))]
            },
        },
    }
}

/// The target a line starts with at its source block.
pub fn base_line_targets(system: &System, model_name: &String, system_path: &Vec<String>, line: &Line) -> (r: Vec<ConnectionTarget>)
    ensures
        views(r@) == base_line_spec(*system, system_path@.map_values(|s: String| s@), model_name@, *line),
{
    let src = match &line.src {
        Some(s) => s,
        None => {
            assert(views(Seq::<ConnectionTarget>::empty()) =~= Seq::<TargetView>::empty());
            return Vec::new();
        },
    };
    let b = match lookup_block(system, src.sid.as_str()) {
        Some(b) => b,
        None => {
            assert(views(Seq::<ConnectionTarget>::empty()) =~= Seq::<TargetView>::empty());
            return Vec::new();
        },
    };
    let block = &system.blocks[b];
    let mut target = ConnectionTarget::new(
        full_block_path(model_name, system_path, block.name.as_str()),
        ConnectionTargetOrigin::SourceBlock,
    );
    target.signals_only = true;
    target.testpoint = port_testpoint(block, src.port_type.as_str(), src.port_index) || line_testpoint(
        line,
    );
    if str_eq(src.port_type.as_str(), "out") && output_port_count(block) > 1 {
        target.element_index = Some(src.port_index);
    }
    set_signal_name_only(&mut target, explicit_line_signal_name(line));
    apply_line_resolve_hint(system, line, &mut target);
    let mut r: Vec<ConnectionTarget> = Vec::new();
    r.push(target);
    assert(views(r@) =~= seq![r@[0]@]);
    r
}

/// A target after the line's own metadata is laid on it: the line's name
/// (else the target's own), a `Signal` hint for that name when the target
/// has no hint, and the line's test point.
pub open spec fn local_one(line: Line, t: TargetView) -> TargetView {
    let explicit = explicit_line_name(line);
    let t1 = with_signal_name(
        t,
        match explicit {
            Some(n) => Some(n),
            None => t.signal_name,
        },
    );
    let t2 = if t1.resolve is None {
        with_signal_resolve(t1, explicit)
    } else {
        t1
    };
    TargetView { testpoint: t2.testpoint || line_has_testpoint_prop(line), ..t2 }
}

/// [`local_one`] applied to each target.
pub open spec fn local_meta(line: Line, ts: Seq<TargetView>) -> Seq<TargetView>
    decreases ts.len(),
{
    if ts.len() == 0 {
        Seq::empty()
    } else {
        local_meta(line, ts.drop_last()).push(local_one(line, ts.last()))
    }
}

/// Lays the line's own metadata on each target.
pub fn apply_local_line_metadata(line: &Line, targets: &mut Vec<ConnectionTarget>)
    ensures
        views(final(targets)@) == local_meta(*line, views(old(targets)@)),
{
    let explicit = explicit_line_signal_name(line);
    let tp = line_testpoint(line);
    let mut out: Vec<ConnectionTarget> = Vec::new();
    let mut j: usize = 0;
    assert(views(out@) =~= local_meta(*line, views(targets@.take(0))));
    while j < targets.len()
        invariant
            j <= targets@.len(),
            targets@ == old(targets)@,
            opt_str(explicit) == explicit_line_name(*line),
            tp == line_has_testpoint_prop(*line),
            views(out@) == local_meta(*line, views(targets@.take(j as int))),
        decreases targets@.len() - j,
    {
        proof {
            assert(views(targets@.take(j + 1)).drop_last() =~= views(targets@.take(j as int)));
            assert(views(targets@.take(j + 1)).last() == targets@[j as int]@);
        }
        let mut y = targets[j].duplicate();
        let next = match &explicit {
            Some(n) => Some(n.clone()),
            None => clone_opt_string(&y.signal_name),
        };
        set_signal_name_only(&mut y, next);
        if y.resolve.is_none() {
            set_signal_resolve(&mut y, clone_opt_string(&explicit));
        }
        y.testpoint = y.testpoint || tp;
        proof {
            lemma_views_push(out@, y);
        }
        out.push(y);
        j = j + 1;
    }
    assert(targets@.take(targets@.len() as int) =~= targets@);
    *targets = out;
}

/// Every target with its test point set.
pub open spec fn all_testpoint(ts: Seq<TargetView>) -> Seq<TargetView>
    decreases ts.len(),
{
    if ts.len() == 0 {
        Seq::empty()
    } else {
        all_testpoint(ts.drop_last()).push(TargetView { testpoint: true, ..ts.last() })
    }
}

/// The targets with a test point set on each when the port the line leaves
/// `block` from is a test point.
pub open spec fn source_testpoint(block: Block, line: Line, ts: Seq<TargetView>) -> Seq<TargetView> {
    match line.src {
        Some(src) => if port_testpoint_spec(block, src.port_type@, src.port_index) {
            all_testpoint(ts)
        } else {
            ts
        },
        None => ts,
    }
}

/// Marks every target as a test point when the line's source port is one.
pub fn apply_source_port_testpoint(block: &Block, line: &Line, targets: &mut Vec<ConnectionTarget>)
    ensures
        views(final(targets)@) == source_testpoint(*block, *line, views(old(targets)@)),
{
    let src = match &line.src {
        Some(s) => s,
        None => return,
    };
    if !port_testpoint(block, src.port_type.as_str(), src.port_index) {
        return;
    }
    let mut out: Vec<ConnectionTarget> = Vec::new();
    let mut j: usize = 0;
    assert(views(out@) =~= all_testpoint(views(targets@.take(0))));
    while j < targets.len()
        invariant
            j <= targets@.len(),
            targets@ == old(targets)@,
            views(out@) == all_testpoint(views(targets@.take(j as int))),
        decreases targets@.len() - j,
    {
        proof {
            assert(views(targets@.take(j + 1)).drop_last() =~= views(targets@.take(j as int)));
            assert(views(targets@.take(j + 1)).last() == targets@[j as int]@);
        }
        let mut y = targets[j].duplicate();
        y.testpoint = true;
        proof {
            lemma_views_push(out@, y);
        }
        out.push(y);
        j = j + 1;
    }
    assert(targets@.take(targets@.len() as int) =~= targets@);
    *targets = out;
}

/// Every target moved to `path`.
pub open spec fn with_path_all(ts: Seq<TargetView>, path: Seq<char>) -> Seq<TargetView>
    decreases ts.len(),
{
    if ts.len() == 0 {
        Seq::empty()
    } else {
        with_path_all(ts.drop_last(), path).push(TargetView { path, ..ts.last() })
    }
}

/// The targets seen at a subsystem boundary block: the targets themselves
/// and a copy of each at the boundary block's own path, de-duplicated.
pub open spec fn boundary_spec(ts: Seq<TargetView>, path: Seq<char>) -> Seq<TargetView> {
    dedup(ts + with_path_all(ts, path))
}

/// The targets seen at a subsystem boundary block at `path`.
pub fn boundary_targets(targets: &Vec<ConnectionTarget>, path: &String) -> (r: Vec<ConnectionTarget>)
    ensures
        views(r@) == boundary_spec(views(targets@), path@),
{
    let mut combined: Vec<ConnectionTarget> = Vec::new();
    let mut j: usize = 0;
    while j < targets.len()
        invariant
            j <= targets@.len(),
            views(combined@) == views(targets@.take(j as int)),
        decreases targets@.len() - j,
    {
        let y = targets[j].duplicate();
        proof {
            lemma_views_push(combined@, y);
            assert(targets@.take(j + 1) =~= targets@.take(j as int).push(targets@[j as int]));
            lemma_views_push(targets@.take(j as int), targets@[j as int]);
        }
        combined.push(y);
        j = j + 1;
    }
    assert(targets@.take(targets@.len() as int) =~= targets@);
    let ghost base = views(combined@);
    let mut k: usize = 0;
    assert(views(combined@) =~= base + with_path_all(views(targets@.take(0)), path@));
    while k < targets.len()
        invariant
            k <= targets@.len(),
            base == views(targets@),
            views(combined@) == base + with_path_all(views(targets@.take(k as int)), path@),
        decreases targets@.len() - k,
    {
        proof {
            assert(views(targets@.take(k + 1)).drop_last() =~= views(targets@.take(k as int)));
            assert(views(targets@.take(k + 1)).last() == targets@[k as int]@);
        }
        let mut y = targets[k].duplicate();
        y.path = path.clone();
        proof {
            lemma_views_push(combined@, y);
        }
        combined.push(y);
        k = k + 1;
    }
    assert(targets@.take(targets@.len() as int) =~= targets@);
    dedup_targets(combined)
}

/// How many targets of `ts` have the path `p`.
pub open spec fn path_count(ts: Seq<TargetView>, p: Seq<char>) -> nat
    decreases ts.len(),
{
    if ts.len() == 0 {
        0
    } else {
        path_count(ts.drop_last(), p) + if ts.last().path == p {
            1nat
        } else {
            0nat
        }
    }
}

/// How many targets of `ts` have the path `p`.
pub fn path_count_exec(ts: &Vec<ConnectionTarget>, p: &String) -> (r: usize)
    ensures
        r as nat == path_count(views(ts@), p@),
{
    let mut n: usize = 0;
    let mut j: usize = 0;
    while j < ts.len()
        invariant
            j <= ts@.len(),
            n <= j,
            n as nat == path_count(views(ts@.take(j as int)), p@),
        decreases ts@.len() - j,
    {
        proof {
            assert(views(ts@.take(j + 1)).drop_last() =~= views(ts@.take(j as int)));
            assert(views(ts@.take(j + 1)).last() == ts@[j as int]@);
        }
        if ts[j].path.eq(p) {
            n = n + 1;
        }
        j = j + 1;
    }
    assert(ts@.take(ts@.len() as int) =~= ts@);
    n
}

/// Whether metadata flowing back on `prop` belongs to the target `cur`:
/// when both select an element by index, the indices agree; otherwise the
/// paths agree (or any path will do when `cross` is set) and, on the same
/// path, the element indices do not contradict each other; an indexed
/// candidate matches an unindexed target only when that target is alone on
/// its path (`same_path` counts the targets on it).
pub open spec fn paths_match(cur: TargetView, prop: TargetView, same_path: nat, cross: bool) -> bool {
    match (resolve_index(cur.resolve), resolve_index(prop.resolve)) {
        (Some(a), Some(b)) => a == b,
        _ => if cur.path != prop.path {
            cross
        } else {
            match (cur.element_index, prop.element_index) {
                (_, None) => true,
                (Some(a), Some(b)) => a == b,
                (None, Some(_)) => same_path <= 1,
            }
        },
    }
}

/// Whether metadata flowing back on `prop` belongs to `cur`.
pub fn metadata_paths_match(cur: &ConnectionTarget, prop: &ConnectionTarget, same_path: usize, cross: bool) -> (r: bool)
    ensures
        r == paths_match(cur@, prop@, same_path as nat, cross),
{
    match (resolve_index_value(&cur.resolve), resolve_index_value(&prop.resolve)) {
        (Some(a), Some(b)) => return a == b,
        _ => {},
    }
    if !cur.path.eq(&prop.path) {
        return cross;
    }
    match (cur.element_index, prop.element_index) {
        (_, None) => true,
        (Some(a), Some(b)) => a == b,
        (None, Some(_)) => same_path <= 1,
    }
}

/// Whether some candidate of `ps` belongs to `t`.
pub open spec fn any_match(ps: Seq<TargetView>, t: TargetView, n: nat, cross: bool) -> bool
    decreases ps.len(),
{
    if ps.len() == 0 {
        false
    } else {
        any_match(ps.drop_last(), t, n, cross) || paths_match(t, ps.last(), n, cross)
    }
}

/// Whether some candidate of `ps` that belongs to `t` is a test point.
pub open spec fn any_match_testpoint(ps: Seq<TargetView>, t: TargetView, n: nat, cross: bool) -> bool
    decreases ps.len(),
{
    if ps.len() == 0 {
        false
    } else {
        any_match_testpoint(ps.drop_last(), t, n, cross) || (paths_match(t, ps.last(), n, cross)
            && ps.last().testpoint)
    }
}

/// The signal name of the first candidate of `ps` that belongs to `t` and
/// has one.
pub open spec fn first_match_name(ps: Seq<TargetView>, t: TargetView, n: nat, cross: bool) -> Option<Seq<char>>
    decreases ps.len(),
{
    if ps.len() == 0 {
        None
    } else {
        match first_match_name(ps.drop_last(), t, n, cross) {
            Some(x) => Some(x),
            None => if paths_match(t, ps.last(), n, cross) {
                ps.last().signal_name
            } else {
                None
            },
        }
    }
}

/// A target of a line after metadata flowing back on `ps` is merged into
/// it: when some candidate belongs to it, it takes the line's own name, else
/// the first name flowing back, else keeps its own, and it becomes a test
/// point when the line, itself or a matching candidate is one.
pub open spec fn merge_one(line: Line, ps: Seq<TargetView>, t: TargetView, n: nat, cross: bool) -> TargetView {
    if !any_match(ps, t, n, cross) {
        t
    } else {
        let named = with_signal_name(
            t,
            match explicit_line_name(line) {
                Some(e) => Some(e),
                None => match first_match_name(ps, t, n, cross) {
                    Some(p) => Some(p),
                    None => t.signal_name,
                },
            },
        );
        TargetView {
            testpoint: line_has_testpoint_prop(line) || t.testpoint || any_match_testpoint(
                ps,
                t,
                n,
                cross,
            ),
            ..named
        }
    }
}

/// [`merge_one`] applied to the first `k` targets of `cur`, each with the
/// number of targets of `cur` on its path.
pub open spec fn merge_prefix(line: Line, cur: Seq<TargetView>, ps: Seq<TargetView>, cross: bool, k: int) -> Seq<TargetView>
    decreases k,
{
    if k <= 0 {
        Seq::empty()
    } else {
        merge_prefix(line, cur, ps, cross, k - 1).push(
            merge_one(line, ps, cur[k - 1], path_count(cur, cur[k - 1].path), cross),
        )
    }
}

/// The targets of a line after metadata flowing back from downstream is
/// merged into them, de-duplicated.
pub open spec fn merge_spec(line: Line, cur: Seq<TargetView>, ps: Seq<TargetView>, cross: bool) -> Seq<TargetView> {
    dedup(merge_prefix(line, cur, ps, cross, cur.len() as int))
}

/// Merges `ps` into one target.
fn merge_one_exec(line: &Line, explicit: &Option<String>, tp: bool, ps: &Vec<ConnectionTarget>, t: &ConnectionTarget, n: usize, cross: bool) -> (r: ConnectionTarget)
    requires
        opt_str(*explicit) == explicit_line_name(*line),
        tp == line_has_testpoint_prop(*line),
    ensures
        r@ == merge_one(*line, views(ps@), t@, n as nat, cross),
{
    let mut any = false;
    let mut any_tp = false;
    let mut name: Option<String> = None;
    let mut j: usize = 0;
    while j < ps.len()
        invariant
            j <= ps@.len(),
            any == any_match(views(ps@.take(j as int)), t@, n as nat, cross),
            any_tp == any_match_testpoint(views(ps@.take(j as int)), t@, n as nat, cross),
            opt_str(name) == first_match_name(views(ps@.take(j as int)), t@, n as nat, cross),
        decreases ps@.len() - j,
    {
        proof {
            assert(views(ps@.take(j + 1)).drop_last() =~= views(ps@.take(j as int)));
            assert(views(ps@.take(j + 1)).last() == ps@[j as int]@);
        }
        if metadata_paths_match(t, &ps[j], n, cross) {
            any = true;
            if ps[j].testpoint {
                any_tp = true;
            }
            if name.is_none() {
                name = clone_opt_string(&ps[j].signal_name);
            }
        }
        j = j + 1;
    }
    assert(ps@.take(ps@.len() as int) =~= ps@);
    let mut y = t.duplicate();
    if !any {
        return y;
    }
    let next = match explicit {
        Some(e) => Some(e.clone()),
        None => match name {
            Some(p) => Some(p),
            None => clone_opt_string(&t.signal_name),
        },
    };
    set_signal_name_only(&mut y, next);
    y.testpoint = tp || t.testpoint || any_tp;
    y
}

/// The targets of a line after metadata flowing back on `ps` is merged into
/// them; `cross` lets metadata cross between paths (at subsystem and
/// Outport boundaries).
pub fn merge_upstream_metadata(line: &Line, cur: &Vec<ConnectionTarget>, ps: &Vec<ConnectionTarget>, cross: bool) -> (r: Vec<ConnectionTarget>)
    ensures
        views(r@) == merge_spec(*line, views(cur@), views(ps@), cross),
{
    let explicit = explicit_line_signal_name(line);
    let tp = line_testpoint(line);
    let mut merged: Vec<ConnectionTarget> = Vec::new();
    let mut j: usize = 0;
    while j < cur.len()
        invariant
            j <= cur@.len(),
            opt_str(explicit) == explicit_line_name(*line),
            tp == line_has_testpoint_prop(*line),
            views(merged@) == merge_prefix(*line, views(cur@), views(ps@), cross, j as int),
        decreases cur@.len() - j,
    {
        let n = path_count_exec(cur, &cur[j].path);
        let y = merge_one_exec(line, &explicit, tp, ps, &cur[j], n, cross);
        proof {
            lemma_views_push(merged@, y);
            assert(views(cur@)[j as int] == cur@[j as int]@);
        }
        merged.push(y);
        j = j + 1;
    }
    dedup_targets(merged)
}

} // verus!
