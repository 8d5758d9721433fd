//! How a resolved signal line is labelled and classified for drawing.

use crate::connection_targets::metadata::{resolve_signal, resolve_signal_value, trimmed_nonempty};
use crate::connection_targets::target::{clone_opt_string, opt_str, views, ConnectionTarget, ConnectionTargetOrigin, TargetView};
use crate::model::Line;
use crate::text::{chars_of, string_of, trim_chars};
use vstd::prelude::*;

verus! {

/// Whether some target of the line is a test point.
pub open spec fn has_testpoint(ts: Seq<TargetView>) -> bool {
    exists|i: int| 0 <= i < ts.len() && #[trigger] ts[i].testpoint
}

/// Whether some target of the line is a test point.
pub fn line_has_testpoint(targets: &[ConnectionTarget]) -> (r: bool)
    ensures
        r == has_testpoint(views(targets@)),
{
    let ghost v = views(targets@);
    let mut i: usize = 0;
    while i < targets.len()
        invariant
            i <= targets@.len(),
            v == views(targets@),
            forall|k: int| 0 <= k < i ==> !(#[trigger] v[k]).testpoint,
        decreases targets@.len() - i,
    {
        if targets[i].testpoint {
            assert(v[i as int].testpoint);
            return true;
        }
        i = i + 1;
    }
    false
}

/// Whether the line carries a bus: its targets resolve by at least two
/// different signal names.
pub open spec fn is_bus(ts: Seq<TargetView>) -> bool {
    exists|i: int, j: int|
        0 <= i < ts.len() && 0 <= j < ts.len() && (#[trigger] resolve_signal(ts[i].resolve)) is Some
            && (#[trigger] resolve_signal(ts[j].resolve)) is Some && resolve_signal(ts[i].resolve)
            != resolve_signal(ts[j].resolve)
}

/// Whether the line carries a bus.
pub fn is_bus_line(targets: &[ConnectionTarget]) -> (r: bool)
    ensures
        r == is_bus(views(targets@)),
{
    let ghost v = views(targets@);
    let mut first: Option<&str> = None;
    let mut i: usize = 0;
    while i < targets.len()
        invariant
            i <= targets@.len(),
            v == views(targets@),
            match first {
                None => forall|k: int| 0 <= k < i ==> (#[trigger] resolve_signal(v[k].resolve)) is None,
                Some(f) => (exists|k: int| 0 <= k < i && #[trigger] resolve_signal(v[k].resolve) == Some(f@))
                    && forall|k: int|
                    0 <= k < i && (#[trigger] resolve_signal(v[k].resolve)) is Some ==> resolve_signal(
                        v[k].resolve,
                    ) == Some(f@),
            },
        decreases targets@.len() - i,
    {
        match resolve_signal_value(&targets[i].resolve) {
            Some(s) => {
                assert(resolve_signal(v[i as int].resolve) == Some(s@));
                match first {
                    None => {
                        first = Some(s);
                    },
                    Some(f) => {
                        if !crate::text::str_eq(f, s) {
                            let ghost k = choose|k: int| 0 <= k < i && #[trigger] resolve_signal(v[k].resolve) == Some(f@);
                            assert(resolve_signal(v[k].resolve) != resolve_signal(v[i as int].resolve));
                            return true;
                        }
                    },
                }
            },
            None => {},
        }
        i = i + 1;
    }
    proof {
        if is_bus(v) {
            let (a, b) = choose|a: int, b: int|
                0 <= a < v.len() && 0 <= b < v.len() && (#[trigger] resolve_signal(v[a].resolve)) is Some
                    && (#[trigger] resolve_signal(v[b].resolve)) is Some && resolve_signal(v[a].resolve)
                    != resolve_signal(v[b].resolve);
            assert(resolve_signal(v[a].resolve) is Some);
            assert(resolve_signal(v[b].resolve) is Some);
        }
    }
    false
}

/// Whether some target of the line comes through a mux.
pub open spec fn is_mux(ts: Seq<TargetView>) -> bool {
    exists|i: int| 0 <= i < ts.len() && (#[trigger] ts[i]).origin == ConnectionTargetOrigin::Mux
}

/// Whether some target of the line comes through a mux.
pub fn is_mux_line(targets: &[ConnectionTarget]) -> (r: bool)
    ensures
        r == is_mux(views(targets@)),
{
    let ghost v = views(targets@);
    let mut i: usize = 0;
    while i < targets.len()
        invariant
            i <= targets@.len(),
            v == views(targets@),
            forall|k: int| 0 <= k < i ==> (#[trigger] v[k]).origin != ConnectionTargetOrigin::Mux,
        decreases targets@.len() - i,
    {
        if targets[i].origin == ConnectionTargetOrigin::Mux {
            assert(v[i as int].origin == ConnectionTargetOrigin::Mux);
            return true;
        }
        i = i + 1;
    }
    false
}

/// Whether a target may lend the line its signal name: it carries signals
/// and did not come through a mux or bus creator.
pub open spec fn lends_name(t: TargetView) -> bool {
    t.signals_only && t.origin != ConnectionTargetOrigin::Mux && t.origin
        != ConnectionTargetOrigin::BusCreator
}

/// The signal name of the first target that may lend one and has one.
pub open spec fn first_lent_name(ts: Seq<TargetView>) -> Option<Seq<char>>
    decreases ts.len(),
{
    if ts.len() == 0 {
        None
    } else {
        match first_lent_name(ts.drop_last()) {
            Some(n) => Some(n),
            None => if lends_name(ts.last()) {
                ts.last().signal_name
            } else {
                None
            },
        }
    }
}

/// The label drawn on a line: its own name (trimmed), else — unless it
/// carries a bus or comes through a mux — the first signal name a target
/// lends it.
pub open spec fn line_label(line: Line, ts: Seq<TargetView>) -> Option<Seq<char>> {
    match trimmed_nonempty_opt(opt_str(line.name)) {
        Some(n) => Some(n),
        None => if is_bus(ts) || is_mux(ts) {
            None
        } else {
            first_lent_name(ts)
        },
    }
}

/// An optional name trimmed, blank names dropped.
pub open spec fn trimmed_nonempty_opt(o: Option<Seq<char>>) -> Option<Seq<char>> {
    match o {
        Some(n) => trimmed_nonempty(n),
        None => None,
    }
}

/// The label drawn on a line.
pub fn resolved_line_label(line: &Line, targets: &[ConnectionTarget]) -> (r: Option<String>)
    ensures
        opt_str(r) == line_label(*line, views(targets@)),
{
    if let Some(name) = &line.name {
        let cs = chars_of(name.as_str());
        let t = trim_chars(cs.as_slice());
        if t.len() > 0 {
            return Some(string_of(t.as_slice()));
        }
    }
    if is_bus_line(targets) || is_mux_line(targets) {
        return None;
    }
    let mut i: usize = 0;
    while i < targets.len()
        invariant
            i <= targets@.len(),
            first_lent_name(views(targets@.take(i as int))) is None,
            !is_bus(views(targets@)),
            !is_mux(views(targets@)),
            trimmed_nonempty_opt(opt_str(line.name)) is None,
        decreases targets@.len() - i,
    {
        proof {
            assert(views(targets@.take(i + 1)).drop_last() =~= views(targets@.take(i as int)));
            assert(views(targets@.take(i + 1)).last() == targets@[i as int]@);
        }
        let t = &targets[i];
        if t.signals_only && t.origin != ConnectionTargetOrigin::Mux && t.origin
            != ConnectionTargetOrigin::BusCreator {
            if t.signal_name.is_some() {
                proof {
                    assert(first_lent_name(views(targets@.take(i + 1))) == opt_str(t.signal_name));
                    assert(views(targets@).take(i + 1) =~= views(targets@.take(i + 1)));
                    lemma_first_lent_prefix(views(targets@), i as int + 1);
                }
                return clone_opt_string(&t.signal_name);
            }
        }
        i = i + 1;
    }
    assert(targets@.take(targets@.len() as int) =~= targets@);
    None
}

proof fn lemma_first_lent_prefix(ts: Seq<TargetView>, k: int)
    requires
        0 <= k <= ts.len(),
        first_lent_name(ts.take(k)) is Some,
    ensures
        first_lent_name(ts) == first_lent_name(ts.take(k)),
    decreases ts.len() - k,
{
    if k < ts.len() {
        assert(ts.take(k + 1).drop_last() =~= ts.take(k));
        lemma_first_lent_prefix(ts, k + 1);
    } else {
        assert(ts.take(k) =~= ts);
    }
}

} // verus!
