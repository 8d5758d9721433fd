//! Signal names, test points and resolve hints carried on a target.

use crate::connection_targets::target::{opt_resolve, opt_str, ConnectionTarget, ConnectionTargetResolve, ResolveView, TargetView};
use crate::model::{Block, Line, Port};
use crate::properties::{prop, property_get};
use crate::text::{ascii_lower_seq, chars_eq, chars_eq_ignore_ascii_case, chars_of, normalize_ws_chars, normalized_segment, str_eq, string_of, trim, trim_char_ends, trim_chars, trim_end_char, trim_start_char};
use vstd::prelude::*;

verus! {

/// `s` trimmed, or `None` when nothing is left.
pub open spec fn trimmed_nonempty(s: Seq<char>) -> Option<Seq<char>> {
    if trim(s).len() == 0 {
        None
    } else {
        Some(trim(s))
    }
}

/// A name as the model spells it, made canonical: trimmed, blank names
/// dropped and inner white space collapsed.
pub open spec fn canonical_name(o: Option<Seq<char>>) -> Option<Seq<char>> {
    match o {
        Some(n) => match trimmed_nonempty(n) {
            Some(t) => normalized_segment(t),
            None => None,
        },
        None => None,
    }
}

/// The canonical form of a name that may be missing.
pub fn canonical_name_exec(o: Option<&String>) -> (r: Option<String>)
    ensures
        opt_str(r) == canonical_name(match o {
            Some(s) => Some(s@),
            None => None,
        }),
{
    match o {
        Some(s) => {
            let cs = chars_of(s.as_str());
            let t = trim_chars(cs.as_slice());
            if t.len() == 0 {
                None
            } else {
                let n = normalize_ws_chars(t.as_slice());
                if n.len() == 0 {
                    None
                } else {
                    Some(string_of(n.as_slice()))
                }
            }
        },
        None => None,
    }
}

/// The name written on the line itself, in canonical form.
pub open spec fn explicit_line_name(line: Line) -> Option<Seq<char>> {
    canonical_name(opt_str(line.name))
}

/// The name written on the line itself, in canonical form.
pub fn explicit_line_signal_name(line: &Line) -> (r: Option<String>)
    ensures
        opt_str(r) == explicit_line_name(*line),
{
    canonical_name_exec(line.name.as_ref())
}

/// A property value that switches a flag on (`on`, `true`, `1`, `On`,
/// `True`, surrounded by any white space).
pub open spec fn is_on_flag(v: Seq<char>) -> bool {
    let t = trim(v);
    t == "on"@ || t == "true"@ || t == "1"@ || t == "On"@ || t == "True"@
}

/// Whether `v` switches a flag on.
pub fn on_flag(v: &str) -> (r: bool)
    ensures
        r == is_on_flag(v@),
{
    let cs = chars_of(v);
    let t = trim_chars(cs.as_slice());
    chars_eq(t.as_slice(), chars_of("on").as_slice()) || chars_eq(
        t.as_slice(),
        chars_of("true").as_slice(),
    ) || chars_eq(t.as_slice(), chars_of("1").as_slice()) || chars_eq(
        t.as_slice(),
        chars_of("On").as_slice(),
    ) || chars_eq(t.as_slice(), chars_of("True").as_slice())
}

/// Whether the line's own `TestPoint` property is switched on.
pub open spec fn line_has_testpoint_prop(line: Line) -> bool {
    match prop(line.properties, "TestPoint"@) {
        Some(v) => is_on_flag(v),
        None => false,
    }
}

/// Whether the line's own `TestPoint` property is switched on.
pub fn line_testpoint(line: &Line) -> (r: bool)
    ensures
        r == line_has_testpoint_prop(*line),
{
    match property_get(&line.properties, "TestPoint") {
        Some(v) => on_flag(v.as_str()),
        None => false,
    }
}

/// Whether `p` is the port of the given type and index (a port without an
/// index counts as index 0).
pub open spec fn port_matches(p: Port, port_type: Seq<char>, port_index: u32) -> bool {
    p.port_type@ == port_type && (match p.index {
        Some(i) => i,
        None => 0u32,
    }) == port_index
}

/// The first port from position `k` on that matches.
pub open spec fn first_port_from(ports: Seq<Port>, port_type: Seq<char>, port_index: u32, k: int) -> Option<int>
    decreases ports.len() - k,
{
    if k < 0 || k >= ports.len() {
        None
    } else if port_matches(ports[k], port_type, port_index) {
        Some(k)
    } else {
        first_port_from(ports, port_type, port_index, k + 1)
    }
}

/// The position of the block's first port of the given type and index.
pub open spec fn find_port(block: Block, port_type: Seq<char>, port_index: u32) -> Option<int> {
    first_port_from(block.ports@, port_type, port_index, 0)
}

/// The position of the block's first port of the given type and index.
pub fn find_port_exec(block: &Block, port_type: &str, port_index: u32) -> (r: Option<usize>)
    ensures
        match r {
            Some(i) => find_port(*block, port_type@, port_index) == Some(i as int),
            None => find_port(*block, port_type@, port_index) is None,
        },
        r matches Some(i) ==> i < block.ports@.len(),
{
    let mut k: usize = 0;
    while k < block.ports.len()
        invariant
            k <= block.ports@.len(),
            find_port(*block, port_type@, port_index) == first_port_from(
                block.ports@,
                port_type@,
                port_index,
                k as int,
            ),
        decreases block.ports@.len() - k,
    {
        let p = &block.ports[k];
        let idx = match p.index {
            Some(i) => i,
            None => 0,
        };
        if str_eq(p.port_type.as_str(), port_type) && idx == port_index {
            return Some(k);
        }
        k = k + 1;
    }
    None
}

/// The name a port carries in its `Name` (or `name`) property, in canonical
/// form.
pub open spec fn port_name(p: Port) -> Option<Seq<char>> {
    let raw = match prop(p.properties, "Name"@) {
        Some(v) => Some(v),
        None => prop(p.properties, "name"@),
    };
    canonical_name(raw)
}

/// The canonical name of the block's port of the given type and index.
pub open spec fn port_signal_name_spec(block: Block, port_type: Seq<char>, port_index: u32) -> Option<Seq<char>> {
    match find_port(block, port_type, port_index) {
        Some(i) => port_name(block.ports@[i]),
        None => None,
    }
}

/// The canonical name of the block's port of the given type and index.
pub fn port_signal_name(block: &Block, port_type: &str, port_index: u32) -> (r: Option<String>)
    ensures
        opt_str(r) == port_signal_name_spec(*block, port_type@, port_index),
{
    match find_port_exec(block, port_type, port_index) {
        Some(i) => {
            let p = &block.ports[i];
            let raw = match property_get(&p.properties, "Name") {
                Some(v) => Some(v),
                None => property_get(&p.properties, "name"),
            };
            canonical_name_exec(raw)
        },
        None => None,
    }
}

/// Whether the block's port of the given type and index is a test point.
pub open spec fn port_testpoint_spec(block: Block, port_type: Seq<char>, port_index: u32) -> bool {
    match find_port(block, port_type, port_index) {
        Some(i) => match prop(block.ports@[i].properties, "TestPoint"@) {
            Some(v) => is_on_flag(v),
            None => false,
        },
        None => false,
    }
}

/// Whether the block's port of the given type and index is a test point.
pub fn port_testpoint(block: &Block, port_type: &str, port_index: u32) -> (r: bool)
    ensures
        r == port_testpoint_spec(*block, port_type@, port_index),
{
    match find_port_exec(block, port_type, port_index) {
        Some(i) => match property_get(&block.ports[i].properties, "TestPoint") {
            Some(v) => on_flag(v.as_str()),
            None => false,
        },
        None => false,
    }
}

/// A signal name as a resolve key: trimmed, stripped of the angle brackets
/// of a propagated name (`<name>`) and canonical.
pub open spec fn resolve_key(s: Seq<char>) -> Option<Seq<char>> {
    normalized_segment(trim_end_char(trim_start_char(trim(s), '<'), '>'))
}

/// A signal name as a resolve key.
pub fn normalize_resolve_signal(s: &str) -> (r: Option<String>)
    ensures
        opt_str(r) == resolve_key(s@),
{
    let cs = chars_of(s);
    let t = trim_chars(cs.as_slice());
    let u = trim_char_ends(t.as_slice(), '<', '>');
    let n = normalize_ws_chars(u.as_slice());
    if n.len() == 0 {
        None
    } else {
        Some(string_of(n.as_slice()))
    }
}

/// Whether two signal names are the same resolve key, ignoring ASCII case.
pub open spec fn signal_keys_match_spec(left: Seq<char>, right: Seq<char>) -> bool {
    match (resolve_key(left), resolve_key(right)) {
        (Some(l), Some(r)) => ascii_lower_seq(l) == ascii_lower_seq(r),
        _ => false,
    }
}

/// Whether two signal names are the same resolve key, ignoring ASCII case.
pub fn signal_keys_match(left: &str, right: &str) -> (r: bool)
    ensures
        r == signal_keys_match_spec(left@, right@),
{
    let l = match normalize_resolve_signal(left) {
        Some(l) => l,
        None => return false,
    };
    let r = match normalize_resolve_signal(right) {
        Some(r) => r,
        None => return false,
    };
    let lc = chars_of(l.as_str());
    let rc = chars_of(r.as_str());
    chars_eq_ignore_ascii_case(lc.as_slice(), rc.as_slice())
}

/// The signal name of a `Signal` resolve hint.
pub open spec fn resolve_signal(r: Option<ResolveView>) -> Option<Seq<char>> {
    match r {
        Some(ResolveView::Signal(s)) => Some(s),
        _ => None,
    }
}

/// The signal name of a `Signal` resolve hint.
pub fn resolve_signal_value(r: &Option<ConnectionTargetResolve>) -> (v: Option<&str>)
    ensures
        match v {
            Some(s) => resolve_signal(opt_resolve(*r)) == Some(s@),
            None => resolve_signal(opt_resolve(*r)) is None,
        },
{
    match r {
        Some(ConnectionTargetResolve::Signal(s)) => Some(s.as_str()),
        _ => None,
    }
}

/// The element index a resolve hint selects: an `Index` hint, or the port
/// index of a dashboard target path.
pub open spec fn resolve_index(r: Option<ResolveView>) -> Option<u32> {
    match r {
        Some(ResolveView::Index(i)) => Some(i),
        Some(ResolveView::TargetPath(p)) => p.port_index,
        _ => None,
    }
}

/// The element index a resolve hint selects.
pub fn resolve_index_value(r: &Option<ConnectionTargetResolve>) -> (v: Option<u32>)
    ensures
        v == resolve_index(opt_resolve(*r)),
{
    match r {
        Some(ConnectionTargetResolve::Index(i)) => Some(*i),
        Some(ConnectionTargetResolve::TargetPath(p)) => p.port_index,
        _ => None,
    }
}

/// Whether the target's `Signal` resolve hint names `selected`.
pub open spec fn matches_resolve_signal_spec(t: TargetView, selected: Seq<char>) -> bool {
    match resolve_signal(t.resolve) {
        Some(s) => signal_keys_match_spec(s, selected),
        None => false,
    }
}

/// Whether the target's `Signal` resolve hint names `selected`.
pub fn matches_resolve_signal(t: &ConnectionTarget, selected: &str) -> (r: bool)
    ensures
        r == matches_resolve_signal_spec(t@, selected@),
{
    match resolve_signal_value(&t.resolve) {
        Some(s) => signal_keys_match(s, selected),
        None => false,
    }
}

/// The target with its signal name set to the canonical form of `name`.
pub open spec fn with_signal_name(t: TargetView, name: Option<Seq<char>>) -> TargetView {
    TargetView {
        signal_name: match name {
            Some(n) => normalized_segment(n),
            None => None,
        },
        ..t
    }
}

/// Sets the target's signal name to the canonical form of `name`.
pub fn set_signal_name_only(target: &mut ConnectionTarget, name: Option<String>)
    ensures
        final(target)@ == with_signal_name(old(target)@, opt_str(name)),
{
    target.signal_name = match name {
        Some(n) => {
            let cs = chars_of(n.as_str());
            let v = normalize_ws_chars(cs.as_slice());
            if v.len() == 0 {
                None
            } else {
                Some(string_of(v.as_slice()))
            }
        },
        None => None,
    };
}

/// The target with a `Signal` resolve hint for `name`, or none when `name`
/// gives no resolve key.
pub open spec fn with_signal_resolve(t: TargetView, name: Option<Seq<char>>) -> TargetView {
    TargetView {
        resolve: match name {
            Some(n) => match resolve_key(n) {
                Some(k) => Some(ResolveView::Signal(k)),
                None => None,
            },
            None => None,
        },
        ..t
    }
}

/// Sets the target's resolve hint to a `Signal` hint for `name`.
pub fn set_signal_resolve(target: &mut ConnectionTarget, name: Option<String>)
    ensures
        final(target)@ == with_signal_resolve(old(target)@, opt_str(name)),
{
    target.resolve = match name {
        Some(n) => match normalize_resolve_signal(n.as_str()) {
            Some(k) => Some(ConnectionTargetResolve::Signal(k)),
            None => None,
        },
        None => None,
    };
}

} // verus!
