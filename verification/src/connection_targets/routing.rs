//! How the signal-routing blocks (bus creator and selector, mux, demux)
//! forward targets along the lines that pass through them, downstream and
//! back upstream.

use crate::connection_targets::graph::{incoming_lines, incoming_lines_for_block, line_position, line_position_exec, outgoing_line_indices_for_block, outgoing_lines};
use crate::connection_targets::metadata::{resolve_key, explicit_line_name, explicit_line_signal_name, matches_resolve_signal, matches_resolve_signal_spec, port_signal_name, port_signal_name_spec, resolve_signal, resolve_signal_value, set_signal_name_only, set_signal_resolve, signal_keys_match, signal_keys_match_spec, with_signal_name, with_signal_resolve};
use crate::connection_targets::target::{clone_opt_string, extend_targets, lemma_views_push, opt_str, views, ConnectionTarget, ConnectionTargetOrigin, ConnectionTargetResolve, ResolveView, TargetView};
use crate::connection_targets::topology::push_chars;
use crate::model::{Block, Line, System};
use crate::text::{all_digits, ascii_lower, ascii_lower_seq, chars_of, decimal, decimal_chars, is_digit, is_ws, lemma_parse_decimal, normalize_ws, normalized_segment, parse_unsigned, squash_ws, string_of, trim, trim_end, trim_end_char, trim_start, trim_start_char};
use vstd::prelude::*;

verus! {

/// Line targets taken by value.
pub open spec fn lt_view(lt: Seq<Vec<ConnectionTarget>>) -> Seq<Seq<TargetView>> {
    lt.map_values(|v: Vec<ConnectionTarget>| views(v@))
}

/// The targets of the lines at the given positions, each line located again
/// by its identity, concatenated in order.
pub open spec fn gather_at(lines: Seq<Line>, lt: Seq<Seq<TargetView>>, idxs: Seq<int>) -> Seq<TargetView>
    decreases idxs.len(),
{
    if idxs.len() == 0 {
        Seq::empty()
    } else {
        gather_at(lines, lt, idxs.drop_last()) + lt[line_position(lines, idxs.last())]
    }
}

/// The targets of the lines at the given positions, concatenated in order.
pub open spec fn gather_direct(lt: Seq<Seq<TargetView>>, idxs: Seq<int>) -> Seq<TargetView>
    decreases idxs.len(),
{
    if idxs.len() == 0 {
        Seq::empty()
    } else {
        gather_direct(lt, idxs.drop_last()) + lt[idxs.last()]
    }
}

/// The input port a line ends at (1 when it has no destination of its own).
pub open spec fn input_of(line: Line) -> u32 {
    match line.dst {
        Some(d) => d.port_index,
        None => 1,
    }
}

/// `signal<n>`, the default name of the n-th bus element.
pub open spec fn default_signal_name(n: u32) -> Seq<char> {
    "signal"@ + decimal(n as nat)
}

/// `signal<n>`.
pub fn default_signal_name_exec(n: u32) -> (r: String)
    ensures
        r@ == default_signal_name(n),
{
    let mut v = chars_of("signal");
    let d = decimal_chars(n as u64);
    push_chars(&mut v, d.as_slice());
    string_of(v.as_slice())
}

/// Whether `s` is `signal` followed by the decimal numeral of `n`, the name
/// that tells the `n`-th unnamed bus element apart from every other.
pub open spec fn names_element(s: Seq<char>, n: u32) -> bool {
    &&& s.len() > 6
    &&& s.take(6) == seq!['s', 'i', 'g', 'n', 'a', 'l']
    &&& parse_unsigned(s.skip(6), u32::MAX as int) == Some(n as int)
}

proof fn lemma_squash_plain(s: Seq<char>, started: bool)
    requires
        forall|i: int| 0 <= i < s.len() ==> !is_ws(#[trigger] s[i]),
    ensures
        squash_ws(s, started, false) == s,
    decreases s.len(),
{
    if s.len() > 0 {
        assert(!is_ws(s[0]));
        lemma_squash_plain(s.drop_first(), true);
        assert(seq![s[0]] + s.drop_first() =~= s);
        assert(Seq::<char>::empty() + seq![s[0]] =~= seq![s[0]]);
    }
}

proof fn lemma_default_name_plain(n: u32)
    ensures
        names_element(default_signal_name(n), n),
        forall|i: int| 0 <= i < default_signal_name(n).len() ==> !is_ws(#[trigger] default_signal_name(n)[i]),
        default_signal_name(n)[0] == 's',
        is_digit(default_signal_name(n).last()),
{
    reveal_strlit("signal");
    let d = decimal(n as nat);
    let s = default_signal_name(n);
    lemma_parse_decimal(n as nat);
    assert(s.take(6) =~= seq!['s', 'i', 'g', 'n', 'a', 'l']);
    assert(s.skip(6) =~= d);
    assert forall|i: int| 0 <= i < s.len() implies !is_ws(#[trigger] s[i]) by {
        if i >= 6 {
            assert(s[i] == d[i - 6]);
            assert(is_digit(d[i - 6]));
        }
    }
    assert(s.last() == d.last());
    assert(is_digit(d[d.len() - 1]));
}

/// The name `signal<n>` of the `n`-th unnamed bus element reads back as
/// `signal` and the number `n`, so elements at different positions get
/// different names, and as a resolve key it stays as it is.
pub proof fn lemma_default_signal_names(n: u32, m: u32)
    ensures
        names_element(default_signal_name(n), n),
        n != m ==> default_signal_name(n) != default_signal_name(m),
        resolve_key(default_signal_name(n)) == Some(default_signal_name(n)),
{
    lemma_default_name_plain(n);
    lemma_default_name_plain(m);
    let s = default_signal_name(n);
    assert(trim_start(s) == s);
    assert(trim_end(s) == s);
    assert(trim(s) == s);
    assert(trim_start_char(s, '<') == s);
    assert(trim_end_char(s, '>') == s);
    lemma_squash_plain(s, false);
    assert(normalize_ws(s) == s);
    assert(normalized_segment(s) == Some(s));
}

proof fn lemma_default_name_lower(n: u32)
    ensures
        ascii_lower_seq(default_signal_name(n)) == default_signal_name(n),
{
    reveal_strlit("signal");
    lemma_parse_decimal(n as nat);
    let s = default_signal_name(n);
    let d = decimal(n as nat);
    assert forall|i: int| 0 <= i < s.len() implies ascii_lower(#[trigger] s[i]) == s[i] by {
        if i >= 6 {
            assert(s[i] == d[i - 6]);
            assert(is_digit(d[i - 6]));
        }
    }
    assert(ascii_lower_seq(s) =~= s);
}

/// A target that enters a bus creator unnamed (no line name, no name of
/// its own, no signal resolve hint) at input `input` is resolved by the
/// name `signal<input>` of its position on the bus.
pub proof fn lemma_unnamed_input_resolves_by_position(t: TargetView, input: u32)
    requires
        t.signal_name is None,
        resolve_signal(t.resolve) is None,
    ensures
        bus_creator_one(t, None, input).resolve matches Some(ResolveView::Signal(s)) && names_element(s, input),
        bus_creator_one(t, None, input).signal_name is None,
        bus_creator_one(t, None, input).path == t.path,
{
    lemma_default_signal_names(input, input);
}

/// An unnamed bus selector output (no line name, no port name) leaving
/// from output port `k` selects the element named `signal<k>`; it selects
/// an element that entered unnamed at input `n` exactly when `n == k`.
pub proof fn lemma_unnamed_output_selects_same_position(block: Block, line: Line, t: TargetView, n: u32)
    requires
        explicit_line_name(line) is None,
        line.src is Some,
        port_signal_name_spec(block, line.src.unwrap().port_type@, line.src.unwrap().port_index) is None,
        t.signal_name is None,
        resolve_signal(t.resolve) is None,
    ensures
        selected_name(block, line) matches Some(sel) && names_element(sel, line.src.unwrap().port_index),
        selects(bus_creator_one(t, None, n), selected_name(block, line).unwrap()) <==> n == line.src.unwrap().port_index,
{
    let k = line.src.unwrap().port_index;
    lemma_default_signal_names(n, k);
    lemma_default_signal_names(k, n);
    lemma_default_name_lower(n);
    lemma_default_name_lower(k);
}

/// Copies of the targets of the lines at the given positions (each located
/// again by its identity).
pub fn gather_at_exec(system: &System, lt: &Vec<Vec<ConnectionTarget>>, idxs: &Vec<usize>) -> (r: Vec<ConnectionTarget>)
    requires
        lt@.len() == system.lines@.len(),
        forall|k: int| 0 <= k < idxs@.len() ==> #[trigger] idxs@[k] < system.lines@.len(),
    ensures
        views(r@) == gather_at(system.lines@, lt_view(lt@), idxs@.map_values(|i: usize| i as int)),
{
    let ghost ix = idxs@.map_values(|i: usize| i as int);
    let mut r: Vec<ConnectionTarget> = Vec::new();
    let mut k: usize = 0;
    assert(views(r@) =~= gather_at(system.lines@, lt_view(lt@), ix.take(0)));
    while k < idxs.len()
        invariant
            k <= idxs@.len(),
            lt@.len() == system.lines@.len(),
            forall|j: int| 0 <= j < idxs@.len() ==> #[trigger] idxs@[j] < system.lines@.len(),
            ix == idxs@.map_values(|i: usize| i as int),
            views(r@) == gather_at(system.lines@, lt_view(lt@), ix.take(k as int)),
        decreases idxs@.len() - k,
    {
        let idx = idxs[k];
        let pos = line_position_exec(system, idx);
        extend_targets(&mut r, lt[pos].as_slice());
        assert(ix.take(k + 1).drop_last() =~= ix.take(k as int));
        k = k + 1;
    }
    assert(ix.take(idxs@.len() as int) =~= ix);
    r
}

/// Copies of the targets of the lines at the given positions.
pub fn gather_direct_exec(lt: &Vec<Vec<ConnectionTarget>>, idxs: &Vec<usize>) -> (r: Vec<ConnectionTarget>)
    requires
        forall|k: int| 0 <= k < idxs@.len() ==> #[trigger] idxs@[k] < lt@.len(),
    ensures
        views(r@) == gather_direct(lt_view(lt@), idxs@.map_values(|i: usize| i as int)),
{
    let ghost ix = idxs@.map_values(|i: usize| i as int);
    let mut r: Vec<ConnectionTarget> = Vec::new();
    let mut k: usize = 0;
    assert(views(r@) =~= gather_direct(lt_view(lt@), ix.take(0)));
    while k < idxs.len()
        invariant
            k <= idxs@.len(),
            forall|j: int| 0 <= j < idxs@.len() ==> #[trigger] idxs@[j] < lt@.len(),
            ix == idxs@.map_values(|i: usize| i as int),
            views(r@) == gather_direct(lt_view(lt@), ix.take(k as int)),
        decreases idxs@.len() - k,
    {
        extend_targets(&mut r, lt[idxs[k]].as_slice());
        assert(ix.take(k + 1).drop_last() =~= ix.take(k as int));
        k = k + 1;
    }
    assert(ix.take(idxs@.len() as int) =~= ix);
    r
}


/// A target entering a bus creator through a line named `name` at input
/// `input`: it takes the line's name (else keeps its own), resolves by that
/// name (else its own name, else its signal resolve, else `signal<input>`)
/// and is marked as coming from the bus creator.
pub open spec fn bus_creator_one(t: TargetView, name: Option<Seq<char>>, input: u32) -> TargetView {
    let next_name = match name {
        Some(n) => Some(n),
        None => t.signal_name,
    };
    let next_resolve = match name {
        Some(n) => Some(n),
        None => match t.signal_name {
            Some(s) => Some(s),
            None => match resolve_signal(t.resolve) {
                Some(r) => Some(r),
                None => Some(default_signal_name(input)),
            },
        },
    };
    TargetView {
        origin: ConnectionTargetOrigin::BusCreator,
        ..with_signal_resolve(with_signal_name(t, next_name), next_resolve)
    }
}

/// [`bus_creator_one`] applied to each target.
pub open spec fn bus_creator_chunk(ts: Seq<TargetView>, name: Option<Seq<char>>, input: u32) -> Seq<TargetView>
    decreases ts.len(),
{
    if ts.len() == 0 {
        Seq::empty()
    } else {
        bus_creator_chunk(ts.drop_last(), name, input).push(bus_creator_one(ts.last(), name, input))
    }
}

/// The targets a bus creator forwards from the lines at the given positions.
pub open spec fn bus_creator_lines(lines: Seq<Line>, lt: Seq<Seq<TargetView>>, idxs: Seq<int>) -> Seq<TargetView>
    decreases idxs.len(),
{
    if idxs.len() == 0 {
        Seq::empty()
    } else {
        let k = idxs.last();
        bus_creator_lines(lines, lt, idxs.drop_last()) + bus_creator_chunk(
            lt[line_position(lines, k)],
            explicit_line_name(lines[k]),
            input_of(lines[k]),
        )
    }
}

/// The targets on the output line of a bus creator: those of every incoming
/// line, named after that line.
pub open spec fn bus_creator_spec(system: System, block: Block, lt: Seq<Seq<TargetView>>) -> Seq<TargetView> {
    bus_creator_lines(system.lines@, lt, incoming_lines(system, block))
}

/// A copy of `s`.
fn clone_str(s: &str) -> (r: String)
    ensures
        r@ == s@,
{
    let c = chars_of(s);
    string_of(c.as_slice())
}

fn bus_creator_one_exec(t: &ConnectionTarget, name: &Option<String>, input: u32) -> (r: ConnectionTarget)
    ensures
        r@ == bus_creator_one(t@, opt_str(*name), input),
{
    let mut x = t.duplicate();
    let next_name = match name {
        Some(n) => Some(n.clone()),
        None => clone_opt_string(&x.signal_name),
    };
    let next_resolve = match name {
        Some(n) => Some(n.clone()),
        None => match &x.signal_name {
            Some(s) => Some(s.clone()),
            None => match resolve_signal_value(&x.resolve) {
                Some(r) => Some(clone_str(r)),
                None => Some(default_signal_name_exec(input)),
            },
        },
    };
    set_signal_name_only(&mut x, next_name);
    set_signal_resolve(&mut x, next_resolve);
    x.origin = ConnectionTargetOrigin::BusCreator;
    x
}

fn bus_creator_chunk_exec(out: &mut Vec<ConnectionTarget>, ts: &Vec<ConnectionTarget>, name: &Option<String>, input: u32)
    ensures
        views(final(out)@) == views(old(out)@) + bus_creator_chunk(views(ts@), opt_str(*name), input),
{
    let mut j: usize = 0;
    while j < ts.len()
        invariant
            j <= ts@.len(),
            views(out@) == views(old(out)@) + bus_creator_chunk(views(ts@.take(j as int)), opt_str(*name), input),
        decreases ts@.len() - j,
    {
        let y = bus_creator_one_exec(&ts[j], name, input);
        proof {
            lemma_views_push(out@, y);
            assert(views(ts@.take(j + 1)).drop_last() =~= views(ts@.take(j as int)));
            assert(views(ts@.take(j + 1)).last() == ts@[j as int]@);
        }
        out.push(y);
        j = j + 1;
    }
    assert(ts@.take(ts@.len() as int) =~= ts@);
}

/// The targets on the output line of a bus creator.
pub fn bus_creator_targets(system: &System, block: &Block, lt: &Vec<Vec<ConnectionTarget>>) -> (r: Vec<ConnectionTarget>)
    requires
        lt@.len() == system.lines@.len(),
    ensures
        views(r@) == bus_creator_spec(*system, *block, lt_view(lt@)),
{
    let idxs = incoming_lines_for_block(system, block);
    let ghost ix = idxs@.map_values(|i: usize| i as int);
    let mut r: Vec<ConnectionTarget> = Vec::new();
    let mut k: usize = 0;
    assert(views(r@) =~= bus_creator_lines(system.lines@, lt_view(lt@), ix.take(0)));
    while k < idxs.len()
        invariant
            k <= idxs@.len(),
            lt@.len() == system.lines@.len(),
            forall|j: int| 0 <= j < idxs@.len() ==> #[trigger] idxs@[j] < system.lines@.len(),
            ix == idxs@.map_values(|i: usize| i as int),
            views(r@) == bus_creator_lines(system.lines@, lt_view(lt@), ix.take(k as int)),
        decreases idxs@.len() - k,
    {
        let idx = idxs[k];
        let pos = line_position_exec(system, idx);
        let incoming = &system.lines[idx];
        let name = explicit_line_signal_name(incoming);
        let input = match &incoming.dst {
            Some(d) => d.port_index,
            None => 1,
        };
        bus_creator_chunk_exec(&mut r, &lt[pos], &name, input);
        assert(ix.take(k + 1).drop_last() =~= ix.take(k as int));
        k = k + 1;
    }
    assert(ix.take(idxs@.len() as int) =~= ix);
    r
}

/// A target entering a mux through a line named `name` at input `input`:
/// it resolves by that input, takes the line's name (else keeps its own) and
/// is marked as coming from the mux.
pub open spec fn mux_one(t: TargetView, name: Option<Seq<char>>, input: u32) -> TargetView {
    let named = with_signal_name(
        TargetView { resolve: Some(ResolveView::Index(input)), ..t },
        match name {
            Some(n) => Some(n),
            None => t.signal_name,
        },
    );
    TargetView { origin: ConnectionTargetOrigin::Mux, ..named }
}

/// [`mux_one`] applied to each target.
pub open spec fn mux_chunk(ts: Seq<TargetView>, name: Option<Seq<char>>, input: u32) -> Seq<TargetView>
    decreases ts.len(),
{
    if ts.len() == 0 {
        Seq::empty()
    } else {
        mux_chunk(ts.drop_last(), name, input).push(mux_one(ts.last(), name, input))
    }
}

/// The targets a mux forwards from the lines at the given positions.
pub open spec fn mux_lines(lines: Seq<Line>, lt: Seq<Seq<TargetView>>, idxs: Seq<int>) -> Seq<TargetView>
    decreases idxs.len(),
{
    if idxs.len() == 0 {
        Seq::empty()
    } else {
        let k = idxs.last();
        mux_lines(lines, lt, idxs.drop_last()) + mux_chunk(
            lt[line_position(lines, k)],
            explicit_line_name(lines[k]),
            input_of(lines[k]),
        )
    }
}

/// The targets on the output line of a mux: those of every incoming line,
/// indexed by the input they arrive at.
pub open spec fn mux_spec(system: System, block: Block, lt: Seq<Seq<TargetView>>) -> Seq<TargetView> {
    mux_lines(system.lines@, lt, incoming_lines(system, block))
}

fn mux_one_exec(t: &ConnectionTarget, name: &Option<String>, input: u32) -> (r: ConnectionTarget)
    ensures
        r@ == mux_one(t@, opt_str(*name), input),
{
    let mut x = t.duplicate();
    x.resolve = Some(ConnectionTargetResolve::Index(input));
    let next_name = match name {
        Some(n) => Some(n.clone()),
        None => clone_opt_string(&x.signal_name),
    };
    set_signal_name_only(&mut x, next_name);
    x.origin = ConnectionTargetOrigin::Mux;
    x
}

fn mux_chunk_exec(out: &mut Vec<ConnectionTarget>, ts: &Vec<ConnectionTarget>, name: &Option<String>, input: u32)
    ensures
        views(final(out)@) == views(old(out)@) + mux_chunk(views(ts@), opt_str(*name), input),
{
    let mut j: usize = 0;
    while j < ts.len()
        invariant
            j <= ts@.len(),
            views(out@) == views(old(out)@) + mux_chunk(views(ts@.take(j as int)), opt_str(*name), input),
        decreases ts@.len() - j,
    {
        let y = mux_one_exec(&ts[j], name, input);
        proof {
            lemma_views_push(out@, y);
            assert(views(ts@.take(j + 1)).drop_last() =~= views(ts@.take(j as int)));
            assert(views(ts@.take(j + 1)).last() == ts@[j as int]@);
        }
        out.push(y);
        j = j + 1;
    }
    assert(ts@.take(ts@.len() as int) =~= ts@);
}

/// The targets on the output line of a mux.
pub fn mux_targets(system: &System, block: &Block, lt: &Vec<Vec<ConnectionTarget>>) -> (r: Vec<ConnectionTarget>)
    requires
        lt@.len() == system.lines@.len(),
    ensures
        views(r@) == mux_spec(*system, *block, lt_view(lt@)),
{
    let idxs = incoming_lines_for_block(system, block);
    let ghost ix = idxs@.map_values(|i: usize| i as int);
    let mut r: Vec<ConnectionTarget> = Vec::new();
    let mut k: usize = 0;
    assert(views(r@) =~= mux_lines(system.lines@, lt_view(lt@), ix.take(0)));
    while k < idxs.len()
        invariant
            k <= idxs@.len(),
            lt@.len() == system.lines@.len(),
            forall|j: int| 0 <= j < idxs@.len() ==> #[trigger] idxs@[j] < system.lines@.len(),
            ix == idxs@.map_values(|i: usize| i as int),
            views(r@) == mux_lines(system.lines@, lt_view(lt@), ix.take(k as int)),
        decreases idxs@.len() - k,
    {
        let idx = idxs[k];
        let pos = line_position_exec(system, idx);
        let incoming = &system.lines[idx];
        let name = explicit_line_signal_name(incoming);
        let input = match &incoming.dst {
            Some(d) => d.port_index,
            None => 1,
        };
        mux_chunk_exec(&mut r, &lt[pos], &name, input);
        assert(ix.take(k + 1).drop_last() =~= ix.take(k as int));
        k = k + 1;
    }
    assert(ix.take(idxs@.len() as int) =~= ix);
    r
}


/// The targets on the first line that ends at `block`, if there is one
/// (that line located again by its identity).
pub open spec fn first_input_targets(system: System, block: Block, lt: Seq<Seq<TargetView>>) -> Option<Seq<TargetView>> {
    let inc = incoming_lines(system, block);
    if inc.len() == 0 {
        None
    } else {
        Some(lt[line_position(system.lines@, inc[0])])
    }
}

/// The position of the first line ending at `block`, located again by its
/// identity.
fn first_input_position(system: &System, block: &Block) -> (r: Option<usize>)
    ensures
        match r {
            Some(p) => incoming_lines(*system, *block).len() > 0 && p as int == line_position(
                system.lines@,
                incoming_lines(*system, *block)[0],
            ) && p < system.lines@.len(),
            None => incoming_lines(*system, *block).len() == 0,
        },
{
    let idxs = incoming_lines_for_block(system, block);
    if idxs.len() == 0 {
        assert(idxs@.map_values(|i: usize| i as int).len() == 0);
        None
    } else {
        assert(idxs@.map_values(|i: usize| i as int)[0] == idxs@[0] as int);
        let pos = line_position_exec(system, idxs[0]);
        Some(pos)
    }
}

/// The bus element a bus selector output line selects: the line's own
/// name, else the name of the output port it leaves from, else
/// `signal<port>`.
pub open spec fn selected_name(block: Block, line: Line) -> Option<Seq<char>> {
    match explicit_line_name(line) {
        Some(n) => Some(n),
        None => match line.src {
            Some(s) => match port_signal_name_spec(block, s.port_type@, s.port_index) {
                Some(p) => Some(p),
                None => Some(default_signal_name(s.port_index)),
            },
            None => None,
        },
    }
}

/// Whether a target on a bus carries the element `sel`: by its `Signal`
/// resolve hint or by its signal name.
pub open spec fn selects(t: TargetView, sel: Seq<char>) -> bool {
    matches_resolve_signal_spec(t, sel) || match t.signal_name {
        Some(n) => signal_keys_match_spec(n, sel),
        None => false,
    }
}

/// The targets of `ts` that carry `sel`, marked as coming from the bus
/// selector.
pub open spec fn select_chunk(ts: Seq<TargetView>, sel: Seq<char>) -> Seq<TargetView>
    decreases ts.len(),
{
    if ts.len() == 0 {
        Seq::empty()
    } else {
        let rest = select_chunk(ts.drop_last(), sel);
        let t = ts.last();
        if selects(t, sel) {
            rest.push(TargetView { origin: ConnectionTargetOrigin::BusSelector, ..t })
        } else {
            rest
        }
    }
}

/// The targets on an output line of a bus selector: those on its (first)
/// input bus that carry the selected element.
pub open spec fn bus_selector_spec(system: System, block: Block, line: Line, lt: Seq<Seq<TargetView>>) -> Seq<TargetView> {
    match selected_name(block, line) {
        None => Seq::empty(),
        Some(sel) => match first_input_targets(system, block, lt) {
            None => Seq::empty(),
            Some(ts) => select_chunk(ts, sel),
        },
    }
}

/// Whether a target on a bus carries the element `sel`.
fn selects_exec(t: &ConnectionTarget, sel: &str) -> (r: bool)
    ensures
        r == selects(t@, sel@),
{
    matches_resolve_signal(t, sel) || match &t.signal_name {
        Some(n) => signal_keys_match(n.as_str(), sel),
        None => false,
    }
}

/// The targets on an output line of a bus selector.
pub fn bus_selector_targets(system: &System, block: &Block, line: &Line, lt: &Vec<Vec<ConnectionTarget>>) -> (r: Vec<ConnectionTarget>)
    requires
        lt@.len() == system.lines@.len(),
    ensures
        views(r@) == bus_selector_spec(*system, *block, *line, lt_view(lt@)),
{
    let selected = match explicit_line_signal_name(line) {
        Some(n) => n,
        None => match &line.src {
            Some(s) => match port_signal_name(block, s.port_type.as_str(), s.port_index) {
                Some(p) => p,
                None => default_signal_name_exec(s.port_index),
            },
            None => {
                assert(views(Seq::<ConnectionTarget>::empty()) =~= Seq::<TargetView>::empty());
                return Vec::new();
            },
        },
    };
    let pos = match first_input_position(system, block) {
        Some(p) => p,
        None => {
            assert(views(Seq::<ConnectionTarget>::empty()) =~= Seq::<TargetView>::empty());
            return Vec::new();
        },
    };
    let ts = &lt[pos];
    assert(lt_view(lt@)[pos as int] == views(ts@));
    let mut r: Vec<ConnectionTarget> = Vec::new();
    let mut j: usize = 0;
    assert(views(r@) =~= select_chunk(views(ts@.take(0)), selected@));
    while j < ts.len()
        invariant
            j <= ts@.len(),
            views(r@) == select_chunk(views(ts@.take(j as int)), selected@),
        decreases ts@.len() - j,
    {
        proof {
            assert(views(ts@.take(j + 1)).drop_last() =~= views(ts@.take(j as int)));
            assert(views(ts@.take(j + 1)).last() == ts@[j as int]@);
        }
        if selects_exec(&ts[j], selected.as_str()) {
            let mut y = ts[j].duplicate();
            y.origin = ConnectionTargetOrigin::BusSelector;
            proof {
                lemma_views_push(r@, y);
            }
            r.push(y);
        }
        j = j + 1;
    }
    assert(ts@.take(ts@.len() as int) =~= ts@);
    r
}

/// Whether a target on a muxed line is element `out`: by its `Index`
/// resolve hint or by its element index.
pub open spec fn is_element(t: TargetView, out: u32) -> bool {
    t.resolve == Some(ResolveView::Index(out)) || t.element_index == Some(out)
}

/// Whether a target is element `out`.
fn is_element_exec(t: &ConnectionTarget, out: u32) -> (r: bool)
    ensures
        r == is_element(t@, out),
{
    let by_resolve = match &t.resolve {
        Some(ConnectionTargetResolve::Index(i)) => *i == out,
        _ => false,
    };
    by_resolve || t.element_index == Some(out)
}

/// The targets of `ts` that are element `out`, their resolve hint dropped
/// and marked as coming from the demux.
pub open spec fn demux_chunk(ts: Seq<TargetView>, out: u32) -> Seq<TargetView>
    decreases ts.len(),
{
    if ts.len() == 0 {
        Seq::empty()
    } else {
        let rest = demux_chunk(ts.drop_last(), out);
        let t = ts.last();
        if is_element(t, out) {
            rest.push(TargetView { resolve: None, origin: ConnectionTargetOrigin::Demux, ..t })
        } else {
            rest
        }
    }
}

/// The targets on output `out` of a demux: the elements of its (first)
/// input line with that index.
pub open spec fn demux_spec(system: System, block: Block, out: u32, lt: Seq<Seq<TargetView>>) -> Seq<TargetView> {
    match first_input_targets(system, block, lt) {
        None => Seq::empty(),
        Some(ts) => demux_chunk(ts, out),
    }
}

/// The targets on output `out` of a demux.
pub fn demux_targets(system: &System, block: &Block, out: u32, lt: &Vec<Vec<ConnectionTarget>>) -> (r: Vec<ConnectionTarget>)
    requires
        lt@.len() == system.lines@.len(),
    ensures
        views(r@) == demux_spec(*system, *block, out, lt_view(lt@)),
{
    let pos = match first_input_position(system, block) {
        Some(p) => p,
        None => {
            assert(views(Seq::<ConnectionTarget>::empty()) =~= Seq::<TargetView>::empty());
            return Vec::new();
        },
    };
    let ts = &lt[pos];
    assert(lt_view(lt@)[pos as int] == views(ts@));
    let mut r: Vec<ConnectionTarget> = Vec::new();
    let mut j: usize = 0;
    assert(views(r@) =~= demux_chunk(views(ts@.take(0)), out));
    while j < ts.len()
        invariant
            j <= ts@.len(),
            views(r@) == demux_chunk(views(ts@.take(j as int)), out),
        decreases ts@.len() - j,
    {
        proof {
            assert(views(ts@.take(j + 1)).drop_last() =~= views(ts@.take(j as int)));
            assert(views(ts@.take(j + 1)).last() == ts@[j as int]@);
        }
        if is_element_exec(&ts[j], out) {
            let mut y = ts[j].duplicate();
            y.resolve = None;
            y.origin = ConnectionTargetOrigin::Demux;
            proof {
                lemma_views_push(r@, y);
            }
            r.push(y);
        }
        j = j + 1;
    }
    assert(ts@.take(ts@.len() as int) =~= ts@);
    r
}

/// The targets of the lines leaving `block`, in order: what a bus creator,
/// bus selector or Inport hands back to the lines that feed it.
pub open spec fn downstream_spec(system: System, block: Block, lt: Seq<Seq<TargetView>>) -> Seq<TargetView> {
    gather_direct(lt, outgoing_lines(system, block))
}

/// The targets of the lines leaving `block`.
pub fn downstream_targets(system: &System, block: &Block, lt: &Vec<Vec<ConnectionTarget>>) -> (r: Vec<ConnectionTarget>)
    requires
        lt@.len() == system.lines@.len(),
    ensures
        views(r@) == downstream_spec(*system, *block, lt_view(lt@)),
{
    let idxs = outgoing_line_indices_for_block(system, block);
    gather_direct_exec(lt, &idxs)
}

/// The elements `input` of `ts`, their resolve hint and element index
/// dropped.
pub open spec fn mux_up_chunk(ts: Seq<TargetView>, input: u32) -> Seq<TargetView>
    decreases ts.len(),
{
    if ts.len() == 0 {
        Seq::empty()
    } else {
        let rest = mux_up_chunk(ts.drop_last(), input);
        let t = ts.last();
        if is_element(t, input) {
            rest.push(TargetView { resolve: None, element_index: None, ..t })
        } else {
            rest
        }
    }
}

/// [`mux_up_chunk`] over the lines at the given positions.
pub open spec fn mux_up_lines(lt: Seq<Seq<TargetView>>, idxs: Seq<int>, input: u32) -> Seq<TargetView>
    decreases idxs.len(),
{
    if idxs.len() == 0 {
        Seq::empty()
    } else {
        mux_up_lines(lt, idxs.drop_last(), input) + mux_up_chunk(lt[idxs.last()], input)
    }
}

/// What a mux hands back to the line feeding its input: the elements of
/// that input on its output lines.
pub open spec fn mux_up_spec(system: System, block: Block, line: Line, lt: Seq<Seq<TargetView>>) -> Seq<TargetView> {
    match line.dst {
        None => Seq::empty(),
        Some(d) => mux_up_lines(lt, outgoing_lines(system, block), d.port_index),
    }
}

fn mux_up_chunk_exec(out: &mut Vec<ConnectionTarget>, ts: &Vec<ConnectionTarget>, input: u32)
    ensures
        views(final(out)@) == views(old(out)@) + mux_up_chunk(views(ts@), input),
{
    let mut j: usize = 0;
    while j < ts.len()
        invariant
            j <= ts@.len(),
            views(out@) == views(old(out)@) + mux_up_chunk(views(ts@.take(j as int)), input),
        decreases ts@.len() - j,
    {
        proof {
            assert(views(ts@.take(j + 1)).drop_last() =~= views(ts@.take(j as int)));
            assert(views(ts@.take(j + 1)).last() == ts@[j as int]@);
        }
        if is_element_exec(&ts[j], input) {
            let mut y = ts[j].duplicate();
            y.resolve = None;
            y.element_index = None;
            proof {
                lemma_views_push(out@, y);
            }
            out.push(y);
        }
        j = j + 1;
    }
    assert(ts@.take(ts@.len() as int) =~= ts@);
}

/// What a mux hands back to the line feeding its input.
pub fn mux_upstream_targets(system: &System, block: &Block, line: &Line, lt: &Vec<Vec<ConnectionTarget>>) -> (r: Vec<ConnectionTarget>)
    requires
        lt@.len() == system.lines@.len(),
    ensures
        views(r@) == mux_up_spec(*system, *block, *line, lt_view(lt@)),
{
    let input = match &line.dst {
        Some(d) => d.port_index,
        None => {
            assert(views(Seq::<ConnectionTarget>::empty()) =~= Seq::<TargetView>::empty());
            return Vec::new();
        },
    };
    let idxs = outgoing_line_indices_for_block(system, block);
    let ghost ix = idxs@.map_values(|i: usize| i as int);
    let mut r: Vec<ConnectionTarget> = Vec::new();
    let mut k: usize = 0;
    assert(views(r@) =~= mux_up_lines(lt_view(lt@), ix.take(0), input));
    while k < idxs.len()
        invariant
            k <= idxs@.len(),
            lt@.len() == system.lines@.len(),
            forall|j: int| 0 <= j < idxs@.len() ==> #[trigger] idxs@[j] < system.lines@.len(),
            ix == idxs@.map_values(|i: usize| i as int),
            views(r@) == mux_up_lines(lt_view(lt@), ix.take(k as int), input),
        decreases idxs@.len() - k,
    {
        mux_up_chunk_exec(&mut r, &lt[idxs[k]], input);
        assert(ix.take(k + 1).drop_last() =~= ix.take(k as int));
        k = k + 1;
    }
    assert(ix.take(idxs@.len() as int) =~= ix);
    r
}

/// The targets of `ts` re-indexed by the demux output `out` they leave
/// from, their element index dropped.
pub open spec fn demux_up_chunk(ts: Seq<TargetView>, out: Option<u32>) -> Seq<TargetView>
    decreases ts.len(),
{
    if ts.len() == 0 {
        Seq::empty()
    } else {
        let t = ts.last();
        demux_up_chunk(ts.drop_last(), out).push(
            TargetView {
                resolve: match out {
                    Some(o) => Some(ResolveView::Index(o)),
                    None => None,
                },
                element_index: None,
                ..t
            },
        )
    }
}

/// The output port a line leaves from, if it has a source.
pub open spec fn output_of(line: Line) -> Option<u32> {
    match line.src {
        Some(s) => Some(s.port_index),
        None => None,
    }
}

/// [`demux_up_chunk`] over the lines at the given positions.
pub open spec fn demux_up_lines(lines: Seq<Line>, lt: Seq<Seq<TargetView>>, idxs: Seq<int>) -> Seq<TargetView>
    decreases idxs.len(),
{
    if idxs.len() == 0 {
        Seq::empty()
    } else {
        let k = idxs.last();
        demux_up_lines(lines, lt, idxs.drop_last()) + demux_up_chunk(lt[k], output_of(lines[k]))
    }
}

/// What a demux hands back to its input line: the targets of each output
/// line, indexed by that output.
pub open spec fn demux_up_spec(system: System, block: Block, lt: Seq<Seq<TargetView>>) -> Seq<TargetView> {
    demux_up_lines(system.lines@, lt, outgoing_lines(system, block))
}

fn demux_up_chunk_exec(out: &mut Vec<ConnectionTarget>, ts: &Vec<ConnectionTarget>, index: Option<u32>)
    ensures
        views(final(out)@) == views(old(out)@) + demux_up_chunk(views(ts@), index),
{
    let mut j: usize = 0;
    while j < ts.len()
        invariant
            j <= ts@.len(),
            views(out@) == views(old(out)@) + demux_up_chunk(views(ts@.take(j as int)), index),
        decreases ts@.len() - j,
    {
        proof {
            assert(views(ts@.take(j + 1)).drop_last() =~= views(ts@.take(j as int)));
            assert(views(ts@.take(j + 1)).last() == ts@[j as int]@);
        }
        let mut y = ts[j].duplicate();
        y.resolve = match index {
            Some(o) => Some(ConnectionTargetResolve::Index(o)),
            None => None,
        };
        y.element_index = None;
        proof {
            lemma_views_push(out@, y);
        }
        out.push(y);
        j = j + 1;
    }
    assert(ts@.take(ts@.len() as int) =~= ts@);
}

/// What a demux hands back to its input line.
pub fn demux_upstream_targets(system: &System, block: &Block, lt: &Vec<Vec<ConnectionTarget>>) -> (r: Vec<ConnectionTarget>)
    requires
        lt@.len() == system.lines@.len(),
    ensures
        views(r@) == demux_up_spec(*system, *block, lt_view(lt@)),
{
    let idxs = outgoing_line_indices_for_block(system, block);
    let ghost ix = idxs@.map_values(|i: usize| i as int);
    let mut r: Vec<ConnectionTarget> = Vec::new();
    let mut k: usize = 0;
    assert(views(r@) =~= demux_up_lines(system.lines@, lt_view(lt@), ix.take(0)));
    while k < idxs.len()
        invariant
            k <= idxs@.len(),
            lt@.len() == system.lines@.len(),
            forall|j: int| 0 <= j < idxs@.len() ==> #[trigger] idxs@[j] < system.lines@.len(),
            ix == idxs@.map_values(|i: usize| i as int),
            views(r@) == demux_up_lines(system.lines@, lt_view(lt@), ix.take(k as int)),
        decreases idxs@.len() - k,
    {
        let idx = idxs[k];
        let index = match &system.lines[idx].src {
            Some(s) => Some(s.port_index),
            None => None,
        };
        demux_up_chunk_exec(&mut r, &lt[idx], index);
        assert(ix.take(k + 1).drop_last() =~= ix.take(k as int));
        k = k + 1;
    }
    assert(ix.take(idxs@.len() as int) =~= ix);
    r
}

} // verus!
