//! The resolver: every system of a model resolved once, its line and block
//! targets cached under stable keys.

use crate::connection_targets::boundary::{child_incoming_spec, child_incoming_targets_by_port, child_outgoing_spec, child_outgoing_targets_by_port, incoming_by_port_spec, incoming_targets_by_port, outgoing_by_port_spec, outgoing_targets_by_port};
use crate::connection_targets::graph::{child_system_path, dashboard_binding_block_path, dashboard_binding_target_path, full_block_path, full_path, incoming_lines, incoming_lines_for_block, qualified_path, qualify_external_path};
use crate::connection_targets::metadata::set_signal_name_only;
use crate::connection_targets::ports::{ChildSubsystemSummary, ParentSubsystemContext, SummaryView};
use crate::connection_targets::propagation::{base_line_spec, base_line_targets};
use crate::connection_targets::routing::{gather_at, gather_at_exec, lt_view};
use crate::connection_targets::sweep::{children_view, parent_view, propagate_down, propagate_line_metadata_upward, propagate_line_targets, propagate_up, ChildSummaries, Scope};
use crate::connection_targets::target::{clone_targets, dedup, dedup_targets, keys_distinct, lemma_dedup_keeps_first, lemma_dedup_laws, same_key, extend_targets, lemma_views_push, views, ConnectionTarget, ConnectionTargetOrigin, ConnectionTargetResolve, ResolveView, TargetView};
use crate::connection_targets::topology::{join_all, join_all_exec, line_identity, line_identity_exec, push_chars, push_str};
use crate::model::{Block, DashboardBinding, Line, System};
use crate::properties::{prop, property_get};
use crate::text::{chars_of, normalized_segment, string_of};
use vstd::prelude::*;

verus! {

/// The segments of a system path joined by `/`.
pub open spec fn joined_path(path: Seq<Seq<char>>) -> Seq<char> {
    join_all(path, "/"@)
}

/// The segments of a system path joined by `/`.
fn joined_path_exec(path: &[String]) -> (r: Vec<char>)
    ensures
        r@ == joined_path(path@.map_values(|s: String| s@)),
{
    let mut parts: Vec<Vec<char>> = Vec::new();
    let mut i: usize = 0;
    while i < path.len()
        invariant
            i <= path@.len(),
            parts@.map_values(|p: Vec<char>| p@) == path@.take(i as int).map_values(
                |s: String| s@,
            ),
        decreases path@.len() - i,
    {
        let c = chars_of(path[i].as_str());
        proof {
            assert(path@.take(i + 1).map_values(|s: String| s@) =~= path@.take(i as int).map_values(
                |s: String| s@,
            ).push(path@[i as int]@));
            assert(parts@.push(c).map_values(|p: Vec<char>| p@) =~= parts@.map_values(
                |p: Vec<char>| p@,
            ).push(c@));
        }
        parts.push(c);
        i = i + 1;
    }
    assert(path@.take(path@.len() as int) =~= path@);
    join_all_exec(&parts, "/")
}

/// The key a block's targets are cached under: `sid:<SID>`, or for a block
/// without a SID its system path, name and type.
pub open spec fn block_key(path: Seq<Seq<char>>, block: Block) -> Seq<char> {
    match block.sid {
        Some(s) => "sid:"@ + s@,
        None => {
            let k = joined_path(path);
            (if k.len() > 0 {
                k + "/"@
            } else {
                k
            }) + block.name@ + "#"@ + block.block_type@
        },
    }
}

/// The key a block's targets are cached under.
pub fn block_cache_key(system_path: &[String], block: &Block) -> (r: String)
    ensures
        r@ == block_key(system_path@.map_values(|s: String| s@), *block),
{
    match &block.sid {
        Some(s) => {
            let mut out = chars_of("sid:");
            push_str(&mut out, s.as_str());
            string_of(out.as_slice())
        },
        None => {
            let mut out = joined_path_exec(system_path);
            if out.len() > 0 {
                push_str(&mut out, "/");
            }
            push_str(&mut out, block.name.as_str());
            push_str(&mut out, "#");
            push_str(&mut out, block.block_type.as_str());
            string_of(out.as_slice())
        },
    }
}

/// The key a line's targets are cached under: its system path and its
/// identity.
pub open spec fn line_key(path: Seq<Seq<char>>, line: Line) -> Seq<char> {
    joined_path(path) + "|"@ + line_identity(line)
}

/// A line keeps its cache key when it is re-routed: lines that differ only
/// in their own corner points and their properties are looked up under one key,
/// so a resolver built before a layout-only edit still answers for the line.
pub proof fn lemma_line_key_ignores_layout(path: Seq<Seq<char>>, l: Line, m: Line)
    requires
        l.name == m.name,
        l.src == m.src,
        l.dst == m.dst,
        l.branches == m.branches,
    ensures
        line_key(path, l) == line_key(path, m),
{
}

/// The key a line's targets are cached under.
pub fn line_cache_key(system_path: &[String], line: &Line) -> (r: String)
    ensures
        r@ == line_key(system_path@.map_values(|s: String| s@), *line),
{
    let mut out = joined_path_exec(system_path);
    push_str(&mut out, "|");
    let id = line_identity_exec(line);
    push_chars(&mut out, id.as_slice());
    string_of(out.as_slice())
}

/// A target that knows only its path and origin.
pub open spec fn plain_target(path: Seq<char>, origin: ConnectionTargetOrigin) -> TargetView {
    TargetView {
        path,
        signal_name: None,
        resolve: None,
        element_index: None,
        origin,
        signals_only: false,
        testpoint: false,
    }
}

/// The `Internal` targets of the first `n` blocks of a subsystem at
/// `child_path`.
pub open spec fn internal_list(child_path: Seq<Seq<char>>, model: Seq<char>, blocks: Seq<Block>, n: int) -> Seq<TargetView>
    decreases n,
{
    if n <= 0 {
        Seq::empty()
    } else {
        internal_list(child_path, model, blocks, n - 1).push(
            plain_target(full_path(model, child_path, blocks[n - 1].name@), ConnectionTargetOrigin::Internal),
        )
    }
}

/// The blocks directly inside a subsystem block, as `Internal` targets.
pub open spec fn internal_targets(path: Seq<Seq<char>>, model: Seq<char>, block: Block) -> Seq<TargetView> {
    match block.subsystem {
        Some(sub) => internal_list(path.push(block.name@), model, sub.blocks@, sub.blocks@.len() as int),
        None => Seq::empty(),
    }
}

/// The blocks directly inside a subsystem block, as `Internal` targets.
pub fn direct_internal_block_targets(model_name: &String, system_path: &Vec<String>, block: &Block) -> (r: Vec<ConnectionTarget>)
    ensures
        views(r@) == internal_targets(system_path@.map_values(|s: String| s@), model_name@, *block),
{
    let mut r: Vec<ConnectionTarget> = Vec::new();
    match &block.subsystem {
        None => {
            assert(views(r@) =~= Seq::<TargetView>::empty());
            r
        },
        Some(sub) => {
            let child_path = child_system_path(system_path, &block.name);
            let mut i: usize = 0;
            assert(views(r@) =~= Seq::<TargetView>::empty());
            while i < sub.blocks.len()
                invariant
                    i <= sub.blocks@.len(),
                    child_path@.map_values(|s: String| s@) == system_path@.map_values(
                        |s: String| s@,
                    ).push(block.name@),
                    views(r@) == internal_list(
                        child_path@.map_values(|s: String| s@),
                        model_name@,
                        sub.blocks@,
                        i as int,
                    ),
                decreases sub.blocks@.len() - i,
            {
                let t = ConnectionTarget::new(
                    full_block_path(model_name, &child_path, sub.blocks[i].name.as_str()),
                    ConnectionTargetOrigin::Internal,
                );
                proof {
                    lemma_views_push(r@, t);
                }
                r.push(t);
                i = i + 1;
            }
            r
        },
    }
}

/// The target a dashboard binding adds to its block: the bound path made
/// absolute, with the bound signal's name, signals only and the port index
/// for a signal binding, and the binding's target path as resolve hint
/// unless it selects nothing.
pub open spec fn binding_target(model: Seq<char>, b: DashboardBinding) -> TargetView {
    match b {
        DashboardBinding::ParamSource { block_path, target_path, .. } => TargetView {
            path: qualified_path(model, block_path@),
            signal_name: None,
            resolve: if target_path.is_empty_spec() {
                None
            } else {
                Some(ResolveView::TargetPath(target_path@))
            },
            element_index: None,
            origin: ConnectionTargetOrigin::DashboardBinding,
            signals_only: false,
            testpoint: false,
        },
        DashboardBinding::SignalSpec { block_path, signal_name, target_path, .. } => TargetView {
            path: qualified_path(model, block_path@),
            signal_name: normalized_segment(signal_name@),
            resolve: if target_path.is_empty_spec() {
                None
            } else {
                Some(ResolveView::TargetPath(target_path@))
            },
            element_index: target_path.port_index,
            origin: ConnectionTargetOrigin::DashboardBinding,
            signals_only: true,
            testpoint: false,
        },
    }
}

/// The target a dashboard binding adds to its block.
pub fn dashboard_binding_target(model_name: &String, binding: &DashboardBinding) -> (r: ConnectionTarget)
    ensures
        r@ == binding_target(model_name@, *binding),
{
    let path = qualify_external_path(model_name.as_str(), dashboard_binding_block_path(binding).as_str());
    let mut target = ConnectionTarget::new(path, ConnectionTargetOrigin::DashboardBinding);
    if let DashboardBinding::SignalSpec { signal_name, .. } = binding {
        set_signal_name_only(&mut target, Some(signal_name.clone()));
    }
    target.signals_only = match binding {
        DashboardBinding::SignalSpec { .. } => true,
        DashboardBinding::ParamSource { .. } => false,
    };
    if let DashboardBinding::SignalSpec { target_path, .. } = binding {
        target.element_index = target_path.port_index;
    }
    let tp = dashboard_binding_target_path(binding);
    if !tp.is_empty() {
        target.resolve = Some(ConnectionTargetResolve::TargetPath(crate::connection_targets::target::clone_target_path(tp)));
    }
    target
}

/// Everything a block is connected to, before de-duplication: the block
/// itself, the blocks directly inside it, the targets of every line ending
/// at it and what its dashboard binding names.
pub open spec fn block_target_list(system: System, path: Seq<Seq<char>>, model: Seq<char>, lt: Seq<Seq<TargetView>>, block: Block) -> Seq<TargetView> {
    seq![plain_target(full_path(model, path, block.name@), ConnectionTargetOrigin::SelfBlock)]
        + internal_targets(path, model, block) + gather_at(system.lines@, lt, incoming_lines(system, block))
        + match block.dashboard_binding {
        Some(b) => seq![binding_target(model, b)],
        None => Seq::empty(),
    }
}

/// Everything a block is connected to, de-duplicated.
pub fn block_targets(system: &System, model_name: &String, system_path: &Vec<String>, lt: &Vec<Vec<ConnectionTarget>>, block: &Block) -> (r: Vec<ConnectionTarget>)
    requires
        lt@.len() == system.lines@.len(),
    ensures
        views(r@) == dedup(
            block_target_list(
                *system,
                system_path@.map_values(|s: String| s@),
                model_name@,
                lt_view(lt@),
                *block,
            ),
        ),
{
    let mut targets: Vec<ConnectionTarget> = Vec::new();
    let me = ConnectionTarget::new(
        full_block_path(model_name, system_path, block.name.as_str()),
        ConnectionTargetOrigin::SelfBlock,
    );
    targets.push(me);
    assert(views(targets@) =~= seq![me@]);
    let internal = direct_internal_block_targets(model_name, system_path, block);
    extend_targets(&mut targets, internal.as_slice());
    let idxs = incoming_lines_for_block(system, block);
    let incoming = gather_at_exec(system, lt, &idxs);
    extend_targets(&mut targets, incoming.as_slice());
    match &block.dashboard_binding {
        Some(b) => {
            let t = dashboard_binding_target(model_name, b);
            let ghost before = views(targets@);
            proof {
                lemma_views_push(targets@, t);
            }
            targets.push(t);
            assert(before.push(t@) =~= before + seq![t@]);
        },
        None => {
            assert(views(targets@) =~= views(targets@) + Seq::<TargetView>::empty());
        },
    }
    dedup_targets(targets)
}

/// Cached target lists taken by value.
pub open spec fn entries_view(s: Seq<(String, Vec<ConnectionTarget>)>) -> Seq<(Seq<char>, Seq<TargetView>)> {
    s.map_values(|e: (String, Vec<ConnectionTarget>)| (e.0@, views(e.1@)))
}

/// The target list last cached under `key`.
pub open spec fn cache_lookup(s: Seq<(Seq<char>, Seq<TargetView>)>, key: Seq<char>) -> Option<Seq<TargetView>>
    decreases s.len(),
{
    if s.len() == 0 {
        None
    } else if s.last().0 == key {
        Some(s.last().1)
    } else {
        cache_lookup(s.drop_last(), key)
    }
}

/// The target list last cached under `key`, or an empty one.
pub open spec fn cached_or_empty(s: Seq<(Seq<char>, Seq<TargetView>)>, key: Seq<char>) -> Seq<TargetView> {
    match cache_lookup(s, key) {
        Some(v) => v,
        None => Seq::empty(),
    }
}

/// The position of the entry last cached under `key`, if any.
fn cache_find(s: &Vec<(String, Vec<ConnectionTarget>)>, key: &String) -> (r: Option<usize>)
    ensures
        match r {
            Some(i) => i < s@.len() && cache_lookup(entries_view(s@), key@) == Some(
                views(s@[i as int].1@),
            ),
            None => cache_lookup(entries_view(s@), key@) is None,
        },
{
    let ghost ev = entries_view(s@);
    let mut k: usize = s.len();
    assert(ev.take(k as int) =~= ev);
    while k > 0
        invariant
            k <= s@.len(),
            ev == entries_view(s@),
            cache_lookup(ev, key@) == cache_lookup(ev.take(k as int), key@),
        decreases k,
    {
        assert(ev.take(k as int).drop_last() =~= ev.take(k - 1));
        assert(ev.take(k as int).last() == (s@[k - 1].0@, views(s@[k - 1].1@)));
        if s[k - 1].0.eq(key) {
            return Some(k - 1);
        }
        k = k - 1;
    }
    None
}

/// A copy of the target list last cached under `key`, or an empty one.
fn cache_get(s: &Vec<(String, Vec<ConnectionTarget>)>, key: &String) -> (r: Vec<ConnectionTarget>)
    ensures
        views(r@) == cached_or_empty(entries_view(s@), key@),
{
    let ghost ev = entries_view(s@);
    let mut k: usize = s.len();
    assert(ev.take(k as int) =~= ev);
    while k > 0
        invariant
            k <= s@.len(),
            ev == entries_view(s@),
            cache_lookup(ev, key@) == cache_lookup(ev.take(k as int), key@),
        decreases k,
    {
        assert(ev.take(k as int).drop_last() =~= ev.take(k - 1));
        assert(ev.take(k as int).last() == (s@[k - 1].0@, views(s@[k - 1].1@)));
        if s[k - 1].0.eq(key) {
            return clone_targets(s[k - 1].1.as_slice());
        }
        k = k - 1;
    }
    assert(views(Seq::<ConnectionTarget>::empty()) =~= Seq::<TargetView>::empty());
    Vec::new()
}

/// The resolver's caches taken by value: block and line target lists, in
/// the order they were recorded.
pub struct CacheView {
    pub blocks: Seq<(Seq<char>, Seq<TargetView>)>,
    pub lines: Seq<(Seq<char>, Seq<TargetView>)>,
}

/// A resolver taken by value: its caches and the model name.
pub struct ResolverView {
    pub cache: CacheView,
    pub model: Seq<char>,
}

/// The targets every line of a first `n` lines starts with.
pub open spec fn base_all(system: System, path: Seq<Seq<char>>, model: Seq<char>, n: int) -> Seq<Seq<TargetView>>
    decreases n,
{
    if n <= 0 {
        Seq::empty()
    } else {
        base_all(system, path, model, n - 1).push(
            base_line_spec(system, path, model, system.lines@[n - 1]),
        )
    }
}

/// The cache entries of the first `n` lines of a resolved system.
pub open spec fn line_entries(system: System, path: Seq<Seq<char>>, lt: Seq<Seq<TargetView>>, n: int) -> Seq<(Seq<char>, Seq<TargetView>)>
    decreases n,
{
    if n <= 0 {
        Seq::empty()
    } else {
        line_entries(system, path, lt, n - 1).push(
            (line_key(path, system.lines@[n - 1]), dedup(lt[n - 1])),
        )
    }
}

/// The cache entries of the first `n` blocks of a resolved system.
pub open spec fn block_entries(system: System, path: Seq<Seq<char>>, model: Seq<char>, lt: Seq<Seq<TargetView>>, n: int) -> Seq<(Seq<char>, Seq<TargetView>)>
    decreases n,
{
    if n <= 0 {
        Seq::empty()
    } else {
        let b = system.blocks@[n - 1];
        block_entries(system, path, model, lt, n - 1).push(
            (block_key(path, b), dedup(block_target_list(system, path, model, lt, b))),
        )
    }
}

/// A system resolved: its lines start from their base targets, which are
/// driven to a fixpoint downstream then upstream; the subsystems inside it
/// are resolved in block order (each seeing what this system connects to its
/// ports); with their summaries the lines are driven to a fixpoint again.
/// The lines' and then the blocks' target lists are recorded, and the
/// summary of what the system exposes at its Inports and Outports returned.
pub open spec fn resolve_sys(system: System, path: Seq<Seq<char>>, model: Seq<char>, parent: Option<SummaryView>, cache: CacheView) -> (CacheView, SummaryView)
    decreases system, 1int, 0int,
{
    let sc0 = Scope { system, path, model, parent, children: Seq::empty() };
    let lt0 = base_all(system, path, model, system.lines@.len() as int);
    let lt1 = propagate_up(sc0, propagate_down(sc0, lt0, 8), 8);
    let (cache2, children) = resolve_children(system, path, model, lt1, cache, Seq::empty(), 0);
    let sc1 = Scope { system, path, model, parent, children };
    let lt2 = propagate_up(sc1, propagate_down(sc1, lt1, 8), 8);
    (
        CacheView {
            blocks: cache2.blocks + block_entries(
                system,
                path,
                model,
                lt2,
                system.blocks@.len() as int,
            ),
            lines: cache2.lines + line_entries(system, path, lt2, system.lines@.len() as int),
        },
        SummaryView {
            incoming: child_incoming_spec(system, lt2),
            outgoing: child_outgoing_spec(system, path, model, lt2),
        },
    )
}

/// The subsystems among the blocks of a system from position `i` on
/// resolved in order, their summaries recorded by SID.
pub open spec fn resolve_children(system: System, path: Seq<Seq<char>>, model: Seq<char>, lt: Seq<Seq<TargetView>>, cache: CacheView, children: Seq<(Seq<char>, SummaryView)>, i: int) -> (CacheView, Seq<(Seq<char>, SummaryView)>)
    decreases system, 0int, system.blocks@.len() - i,
{
    if i < 0 || i >= system.blocks@.len() {
        (cache, children)
    } else {
        let b = system.blocks@[i];
        match b.subsystem {
            None => resolve_children(system, path, model, lt, cache, children, i + 1),
            Some(sub) => {
                let ctx = SummaryView {
                    incoming: incoming_by_port_spec(system, b, lt),
                    outgoing: outgoing_by_port_spec(system, b, lt),
                };
                let (c2, summary) = resolve_sys(*sub, path.push(b.name@), model, Some(ctx), cache);
                let ch2 = match b.sid {
                    Some(s) => children.push((s@, summary)),
                    None => children,
                };
                resolve_children(system, path, model, lt, c2, ch2, i + 1)
            },
        }
    }
}

/// The model name a resolver reads from the root system's `Name` property
/// (empty when there is none).
pub open spec fn root_model_name(root: System) -> Seq<char> {
    match prop(root.properties, "Name"@) {
        Some(n) => n,
        None => Seq::empty(),
    }
}

/// Resolves the connection targets of every block and line of a model and
/// answers lookups of them.
///
/// The caches are keyed by text. vstd's map specifications cover keys with a
/// verified hash or order model (the integer types among them), and `String`
/// has neither, so each cache is a list of entries in recording order whose
/// last entry for a key is the current one: a later recording replaces an
/// earlier one, as an insertion into a map would.
pub struct ConnectionTargetResolver {
    block_targets: Vec<(String, Vec<ConnectionTarget>)>,
    line_targets: Vec<(String, Vec<ConnectionTarget>)>,
    model_name: String,
}

impl View for ConnectionTargetResolver {
    type V = ResolverView;

    closed spec fn view(&self) -> ResolverView {
        ResolverView {
            cache: CacheView {
                blocks: entries_view(self.block_targets@),
                lines: entries_view(self.line_targets@),
            },
            model: self.model_name@,
        }
    }
}

impl ConnectionTargetResolver {
    /// The targets every line of `system` starts with.
    fn initial_line_targets(&self, system: &System, system_path: &Vec<String>) -> (r: Vec<Vec<ConnectionTarget>>)
        ensures
            r@.len() == system.lines@.len(),
            lt_view(r@) == base_all(
                *system,
                system_path@.map_values(|s: String| s@),
                self@.model,
                system.lines@.len() as int,
            ),
    {
        let mut r: Vec<Vec<ConnectionTarget>> = Vec::new();
        let mut i: usize = 0;
        while i < system.lines.len()
            invariant
                i <= system.lines@.len(),
                r@.len() == i,
                lt_view(r@) == base_all(
                    *system,
                    system_path@.map_values(|s: String| s@),
                    self@.model,
                    i as int,
                ),
            decreases system.lines@.len() - i,
        {
            let b = base_line_targets(system, &self.model_name, system_path, &system.lines[i]);
            let ghost before = r@;
            r.push(b);
            assert(lt_view(r@) =~= lt_view(before).push(views(b@)));
            i = i + 1;
        }
        r
    }

    /// Records the de-duplicated targets of every line of `system`.
    fn record_lines(&mut self, system: &System, system_path: &Vec<String>, lt: &Vec<Vec<ConnectionTarget>>)
        requires
            lt@.len() == system.lines@.len(),
        ensures
            final(self)@.model == old(self)@.model,
            final(self)@.cache.blocks == old(self)@.cache.blocks,
            final(self)@.cache.lines == old(self)@.cache.lines + line_entries(
                *system,
                system_path@.map_values(|s: String| s@),
                lt_view(lt@),
                system.lines@.len() as int,
            ),
    {
        let ghost start = self@.cache.lines;
        let ghost sp = system_path@.map_values(|s: String| s@);
        let mut i: usize = 0;
        assert(start =~= start + line_entries(*system, sp, lt_view(lt@), 0));
        while i < system.lines.len()
            invariant
                i <= system.lines@.len(),
                lt@.len() == system.lines@.len(),
                sp == system_path@.map_values(|s: String| s@),
                self@.model == old(self)@.model,
                self@.cache.blocks == old(self)@.cache.blocks,
                start == old(self)@.cache.lines,
                self@.cache.lines == start + line_entries(*system, sp, lt_view(lt@), i as int),
            decreases system.lines@.len() - i,
        {
            let key = line_cache_key(system_path.as_slice(), &system.lines[i]);
            let mut copy: Vec<ConnectionTarget> = Vec::new();
            extend_targets(&mut copy, lt[i].as_slice());
            assert(views(Seq::<ConnectionTarget>::empty()) + views(lt@[i as int]@) =~= views(lt@[i as int]@));
            let d = dedup_targets(copy);
            let ghost before = self.line_targets@;
            self.line_targets.push((key, d));
            proof {
                assert(entries_view(self.line_targets@) =~= entries_view(before).push((key@, views(d@))));
                assert(lt_view(lt@)[i as int] == views(lt@[i as int]@));
                assert(start + line_entries(*system, sp, lt_view(lt@), i + 1) =~= (start + line_entries(*system, sp, lt_view(lt@), i as int)).push((key@, views(d@))));
            }
            i = i + 1;
        }
    }

    /// Records the de-duplicated targets of every block of `system`.
    fn record_blocks(&mut self, system: &System, system_path: &Vec<String>, lt: &Vec<Vec<ConnectionTarget>>)
        requires
            lt@.len() == system.lines@.len(),
        ensures
            final(self)@.model == old(self)@.model,
            final(self)@.cache.lines == old(self)@.cache.lines,
            final(self)@.cache.blocks == old(self)@.cache.blocks + block_entries(
                *system,
                system_path@.map_values(|s: String| s@),
                old(self)@.model,
                lt_view(lt@),
                system.blocks@.len() as int,
            ),
    {
        let ghost start = self@.cache.blocks;
        let ghost sp = system_path@.map_values(|s: String| s@);
        let ghost model = self@.model;
        let mut i: usize = 0;
        assert(start =~= start + block_entries(*system, sp, model, lt_view(lt@), 0));
        while i < system.blocks.len()
            invariant
                i <= system.blocks@.len(),
                lt@.len() == system.lines@.len(),
                sp == system_path@.map_values(|s: String| s@),
                model == old(self)@.model,
                self@.model == old(self)@.model,
                self@.cache.lines == old(self)@.cache.lines,
                start == old(self)@.cache.blocks,
                self@.cache.blocks == start + block_entries(*system, sp, model, lt_view(lt@), i as int),
            decreases system.blocks@.len() - i,
        {
            let block = &system.blocks[i];
            let key = block_cache_key(system_path.as_slice(), block);
            let d = block_targets(system, &self.model_name, system_path, lt, block);
            let ghost before = self.block_targets@;
            self.block_targets.push((key, d));
            proof {
                assert(entries_view(self.block_targets@) =~= entries_view(before).push((key@, views(d@))));
                assert(start + block_entries(*system, sp, model, lt_view(lt@), i + 1) =~= (start + block_entries(*system, sp, model, lt_view(lt@), i as int)).push((key@, views(d@))));
            }
            i = i + 1;
        }
    }

    /// Resolves `system` at `system_path` (with the context the enclosing
    /// system gives it), records its lines' and blocks' targets and returns
    /// what it exposes at its boundary.
    fn resolve_system(&mut self, system: &System, system_path: &Vec<String>, parent: Option<&ParentSubsystemContext>) -> (r: ChildSubsystemSummary)
        ensures
            final(self)@.model == old(self)@.model,
            (final(self)@.cache, r@) == resolve_sys(
                *system,
                system_path@.map_values(|s: String| s@),
                old(self)@.model,
                parent_view(parent),
                old(self)@.cache,
            ),
        decreases system,
    {
        let ghost sp = system_path@.map_values(|s: String| s@);
        let ghost model = self@.model;
        let ghost cache0 = self@.cache;
        let mut lt = self.initial_line_targets(system, system_path);
        let empty: ChildSummaries = Vec::new();
        assert(children_view(empty@) =~= Seq::<(Seq<char>, SummaryView)>::empty());
        propagate_line_targets(system, &self.model_name, system_path, parent, &empty, &mut lt);
        propagate_line_metadata_upward(system, &self.model_name, system_path, parent, &empty, &mut lt);
        let ghost lt1 = lt_view(lt@);
        let mut children: ChildSummaries = Vec::new();
        let mut i: usize = 0;
        while i < system.blocks.len()
            invariant
                i <= system.blocks@.len(),
                lt@.len() == system.lines@.len(),
                lt1 == lt_view(lt@),
                sp == system_path@.map_values(|s: String| s@),
                self@.model == model,
                resolve_children(*system, sp, model, lt1, cache0, Seq::empty(), 0) == resolve_children(
                    *system,
                    sp,
                    model,
                    lt1,
                    self@.cache,
                    children_view(children@),
                    i as int,
                ),
            decreases system.blocks@.len() - i,
        {
            let block = &system.blocks[i];
            match &block.subsystem {
                Some(sub) => {
                    let child_path = child_system_path(system_path, &block.name);
                    let ctx = ParentSubsystemContext {
                        incoming_by_port: incoming_targets_by_port(system, block, &lt),
                        outgoing_by_port: outgoing_targets_by_port(system, block, &lt),
                    };
                    assert(decreases_to!(system => system.blocks@[i as int]));
                    let summary = self.resolve_system(sub, &child_path, Some(&ctx));
                    match &block.sid {
                        Some(sid) => {
                            let ghost before = children@;
                            children.push((sid.clone(), summary));
                            assert(children_view(children@) =~= children_view(before).push(
                                (sid@, children@.last().1@),
                            ));
                        },
                        None => {},
                    }
                },
                None => {},
            }
            i = i + 1;
        }
        propagate_line_targets(system, &self.model_name, system_path, parent, &children, &mut lt);
        propagate_line_metadata_upward(
            system,
            &self.model_name,
            system_path,
            parent,
            &children,
            &mut lt,
        );
        self.record_lines(system, system_path, &lt);
        self.record_blocks(system, system_path, &lt);
        ChildSubsystemSummary {
            incoming_by_port: child_incoming_targets_by_port(system, &lt),
            outgoing_by_port: child_outgoing_targets_by_port(
                system,
                &self.model_name,
                system_path,
                &lt,
            ),
        }
    }

    /// Resolves every system of the model rooted at `root`.
    pub fn new(root: &System) -> (r: Self)
        ensures
            r@.model == root_model_name(*root),
            r@.cache == resolve_sys(
                *root,
                Seq::empty(),
                root_model_name(*root),
                None,
                CacheView { blocks: Seq::empty(), lines: Seq::empty() },
            ).0,
    {
        let model_name = match property_get(&root.properties, "Name") {
            Some(n) => n.clone(),
            None => String::new(),
        };
        let mut resolver = ConnectionTargetResolver {
            block_targets: Vec::new(),
            line_targets: Vec::new(),
            model_name,
        };
        let empty_path: Vec<String> = Vec::new();
        assert(resolver@.cache.blocks =~= Seq::<(Seq<char>, Seq<TargetView>)>::empty());
        assert(resolver@.cache.lines =~= Seq::<(Seq<char>, Seq<TargetView>)>::empty());
        assert(empty_path@.map_values(|s: String| s@) =~= Seq::<Seq<char>>::empty());
        resolver.resolve_system(root, &empty_path, None);
        resolver
    }

    /// The targets recorded for `block` of the system at `system_path`
    /// (empty when none were recorded).
    pub fn block_targets_for_block(&self, system_path: &[String], block: &Block) -> (r: Vec<ConnectionTarget>)
        ensures
            views(r@) == cached_or_empty(
                self@.cache.blocks,
                block_key(system_path@.map_values(|s: String| s@), *block),
            ),
    {
        let key = block_cache_key(system_path, block);
        cache_get(&self.block_targets, &key)
    }

    /// The targets recorded for `line` of the system at `system_path`
    /// (empty when none were recorded).
    pub fn line_targets_for_line(&self, system_path: &[String], line: &Line) -> (r: Vec<ConnectionTarget>)
        ensures
            views(r@) == cached_or_empty(
                self@.cache.lines,
                line_key(system_path@.map_values(|s: String| s@), *line),
            ),
    {
        let key = line_cache_key(system_path, line);
        cache_get(&self.line_targets, &key)
    }

    /// The targets recorded for `block` of the system at `system_path`,
    /// borrowed (empty when none were recorded).
    pub fn block_targets_for_block_ref(&self, system_path: &[String], block: &Block) -> (r: &[ConnectionTarget])
        ensures
            views(r@) == cached_or_empty(
                self@.cache.blocks,
                block_key(system_path@.map_values(|s: String| s@), *block),
            ),
    {
        let key = block_cache_key(system_path, block);
        match cache_find(&self.block_targets, &key) {
            Some(i) => self.block_targets[i].1.as_slice(),
            None => {
                assert(views(Seq::<ConnectionTarget>::empty()) =~= Seq::<TargetView>::empty());
                &[]
            },
        }
    }

    /// The targets recorded for `line` of the system at `system_path`,
    /// borrowed (empty when none were recorded).
    pub fn line_targets_for_line_ref(&self, system_path: &[String], line: &Line) -> (r: &[ConnectionTarget])
        ensures
            views(r@) == cached_or_empty(
                self@.cache.lines,
                line_key(system_path@.map_values(|s: String| s@), *line),
            ),
    {
        let key = line_cache_key(system_path, line);
        match cache_find(&self.line_targets, &key) {
            Some(i) => self.line_targets[i].1.as_slice(),
            None => {
                assert(views(Seq::<ConnectionTarget>::empty()) =~= Seq::<TargetView>::empty());
                &[]
            },
        }
    }
}

/// The number of systems in a model tree: the system itself and every
/// system nested in it.
pub open spec fn system_count(s: System) -> nat
    decreases s, 1int,
{
    1 + blocks_system_count(s.blocks@)
}

/// The number of systems nested in the given blocks.
pub open spec fn blocks_system_count(bs: Seq<Block>) -> nat
    decreases bs, 0int,
{
    if bs.len() == 0 {
        0
    } else {
        blocks_system_count(bs.drop_last()) + match bs.last().subsystem {
            Some(sub) => system_count(*sub),
            None => 0,
        }
    }
}

/// The nesting depth of a model tree (a system without subsystems has
/// depth 1).
pub open spec fn system_depth(s: System) -> nat
    decreases s, 1int,
{
    1 + blocks_depth(s.blocks@)
}

/// The greatest depth of the systems nested in the given blocks (0 when
/// there are none).
pub open spec fn blocks_depth(bs: Seq<Block>) -> nat
    decreases bs, 0int,
{
    if bs.len() == 0 {
        0
    } else {
        let rest = blocks_depth(bs.drop_last());
        match bs.last().subsystem {
            Some(sub) => if system_depth(*sub) > rest {
                system_depth(*sub)
            } else {
                rest
            },
            None => rest,
        }
    }
}

/// The number of systems in a model tree (root included), used to size
/// progress reports.
pub fn count_subsystems(system: &System) -> (r: usize)
    requires
        system_count(*system) <= usize::MAX,
    ensures
        r == system_count(*system),
    decreases system,
{
    let mut total: usize = 0;
    let mut i: usize = 0;
    assert(system.blocks@.take(0) =~= Seq::<Block>::empty());
    while i < system.blocks.len()
        invariant
            i <= system.blocks@.len(),
            system_count(*system) <= usize::MAX,
            system_count(*system) == 1 + blocks_system_count(system.blocks@),
            total == blocks_system_count(system.blocks@.take(i as int)),
        decreases system.blocks@.len() - i,
    {
        assert(system.blocks@.take(i + 1).drop_last() =~= system.blocks@.take(i as int));
        proof {
            lemma_blocks_count_prefix(system.blocks@, i as int + 1);
        }
        match &system.blocks[i].subsystem {
            Some(sub) => {
                assert(decreases_to!(system => system.blocks@[i as int]));
                let c = count_subsystems(sub);
                total = total + c;
            },
            None => {},
        }
        i = i + 1;
    }
    assert(system.blocks@.take(system.blocks@.len() as int) =~= system.blocks@);
    total + 1
}

proof fn lemma_blocks_count_prefix(bs: Seq<Block>, k: int)
    requires
        0 <= k <= bs.len(),
    ensures
        blocks_system_count(bs.take(k)) <= blocks_system_count(bs),
    decreases bs.len() - k,
{
    if k < bs.len() {
        lemma_blocks_count_prefix(bs, k + 1);
        assert(bs.take(k + 1).drop_last() =~= bs.take(k));
    } else {
        assert(bs.take(k) =~= bs);
    }
}

/// The nesting depth of a model tree (root = 1).
pub fn max_subsystem_depth(system: &System) -> (r: usize)
    requires
        system_count(*system) <= usize::MAX,
    ensures
        r == system_depth(*system),
    decreases system,
{
    let mut deepest: usize = 0;
    let mut i: usize = 0;
    proof {
        lemma_depth_le_count(*system);
    }
    assert(system.blocks@.take(0) =~= Seq::<Block>::empty());
    while i < system.blocks.len()
        invariant
            i <= system.blocks@.len(),
            system_count(*system) <= usize::MAX,
            system_count(*system) == 1 + blocks_system_count(system.blocks@),
            deepest == blocks_depth(system.blocks@.take(i as int)),
            deepest <= blocks_system_count(system.blocks@.take(i as int)),
        decreases system.blocks@.len() - i,
    {
        assert(system.blocks@.take(i + 1).drop_last() =~= system.blocks@.take(i as int));
        proof {
            lemma_blocks_count_prefix(system.blocks@, i as int + 1);
        }
        match &system.blocks[i].subsystem {
            Some(sub) => {
                assert(decreases_to!(system => system.blocks@[i as int]));
                proof {
                    lemma_depth_le_count(**sub);
                }
                let d = max_subsystem_depth(sub);
                if d > deepest {
                    deepest = d;
                }
            },
            None => {},
        }
        i = i + 1;
    }
    assert(system.blocks@.take(system.blocks@.len() as int) =~= system.blocks@);
    deepest + 1
}

proof fn lemma_depth_le_count(s: System)
    ensures
        system_depth(s) <= system_count(s),
    decreases s, 1int,
{
    lemma_blocks_depth_le_count(s.blocks@);
}

/// The number of systems in a model tree, or `None` when it does not fit in
/// a `usize`; building a resolver resolves each of them once.
pub fn try_count_subsystems(system: &System) -> (r: Option<usize>)
    ensures
        r == (if system_count(*system) <= usize::MAX {
            Some(system_count(*system) as usize)
        } else {
            None
        }),
    decreases system,
{
    let mut total: usize = 0;
    let mut i: usize = 0;
    assert(system.blocks@.take(0) =~= Seq::<Block>::empty());
    while i < system.blocks.len()
        invariant
            i <= system.blocks@.len(),
            system_count(*system) == 1 + blocks_system_count(system.blocks@),
            total == blocks_system_count(system.blocks@.take(i as int)),
        decreases system.blocks@.len() - i,
    {
        assert(system.blocks@.take(i + 1).drop_last() =~= system.blocks@.take(i as int));
        proof {
            lemma_blocks_count_prefix(system.blocks@, i as int + 1);
        }
        match &system.blocks[i].subsystem {
            Some(sub) => {
                assert(decreases_to!(system => system.blocks@[i as int]));
                match try_count_subsystems(sub) {
                    Some(c) => match total.checked_add(c) {
                        Some(t) => {
                            total = t;
                        },
                        None => {
                            return None;
                        },
                    },
                    None => {
                        return None;
                    },
                }
            },
            None => {},
        }
        i = i + 1;
    }
    assert(system.blocks@.take(system.blocks@.len() as int) =~= system.blocks@);
    total.checked_add(1)
}

proof fn lemma_blocks_depth_le_count(bs: Seq<Block>)
    ensures
        blocks_depth(bs) <= blocks_system_count(bs),
    decreases bs, 0int,
{
    if bs.len() > 0 {
        lemma_blocks_depth_le_count(bs.drop_last());
        match bs.last().subsystem {
            Some(sub) => {
                lemma_depth_le_count(*sub);
            },
            None => {},
        }
    }
}

/// Every target list in the caches has no two targets with the same key.
pub open spec fn cache_deduplicated(c: CacheView) -> bool {
    &&& forall|i: int| 0 <= i < c.blocks.len() ==> keys_distinct(#[trigger] c.blocks[i].1)
    &&& forall|i: int| 0 <= i < c.lines.len() ==> keys_distinct(#[trigger] c.lines[i].1)
}

proof fn lemma_line_entries_distinct(system: System, path: Seq<Seq<char>>, lt: Seq<Seq<TargetView>>, n: int)
    ensures
        forall|i: int|
            0 <= i < line_entries(system, path, lt, n).len() ==> keys_distinct(
                #[trigger] line_entries(system, path, lt, n)[i].1,
            ),
    decreases n,
{
    if n > 0 {
        lemma_line_entries_distinct(system, path, lt, n - 1);
        lemma_dedup_laws(lt[n - 1]);
        let e = line_entries(system, path, lt, n);
        let p = line_entries(system, path, lt, n - 1);
        assert forall|i: int| 0 <= i < e.len() implies keys_distinct(#[trigger] e[i].1) by {
            if i < p.len() {
                assert(e[i] == p[i]);
            }
        }
    }
}

proof fn lemma_block_entries_distinct(system: System, path: Seq<Seq<char>>, model: Seq<char>, lt: Seq<Seq<TargetView>>, n: int)
    ensures
        forall|i: int|
            0 <= i < block_entries(system, path, model, lt, n).len() ==> keys_distinct(
                #[trigger] block_entries(system, path, model, lt, n)[i].1,
            ),
    decreases n,
{
    if n > 0 {
        lemma_block_entries_distinct(system, path, model, lt, n - 1);
        lemma_dedup_laws(block_target_list(system, path, model, lt, system.blocks@[n - 1]));
        let e = block_entries(system, path, model, lt, n);
        let p = block_entries(system, path, model, lt, n - 1);
        assert forall|i: int| 0 <= i < e.len() implies keys_distinct(#[trigger] e[i].1) by {
            if i < p.len() {
                assert(e[i] == p[i]);
            }
        }
    }
}

proof fn lemma_append_distinct(a: Seq<(Seq<char>, Seq<TargetView>)>, b: Seq<(Seq<char>, Seq<TargetView>)>)
    requires
        forall|i: int| 0 <= i < a.len() ==> keys_distinct(#[trigger] a[i].1),
        forall|i: int| 0 <= i < b.len() ==> keys_distinct(#[trigger] b[i].1),
    ensures
        forall|i: int| 0 <= i < (a + b).len() ==> keys_distinct(#[trigger] (a + b)[i].1),
{
    assert forall|i: int| 0 <= i < (a + b).len() implies keys_distinct(#[trigger] (a + b)[i].1) by {
        if i < a.len() {
            assert((a + b)[i] == a[i]);
        } else {
            assert((a + b)[i] == b[i - a.len()]);
        }
    }
}

proof fn lemma_resolve_sys_distinct(system: System, path: Seq<Seq<char>>, model: Seq<char>, parent: Option<SummaryView>, cache: CacheView)
    requires
        cache_deduplicated(cache),
    ensures
        cache_deduplicated(resolve_sys(system, path, model, parent, cache).0),
    decreases system, 1int, 0int,
{
    let sc0 = Scope { system, path, model, parent, children: Seq::empty() };
    let lt0 = base_all(system, path, model, system.lines@.len() as int);
    let lt1 = propagate_up(sc0, propagate_down(sc0, lt0, 8), 8);
    lemma_resolve_children_distinct(system, path, model, lt1, cache, Seq::empty(), 0);
    let (cache2, children) = resolve_children(system, path, model, lt1, cache, Seq::empty(), 0);
    let sc1 = Scope { system, path, model, parent, children };
    let lt2 = propagate_up(sc1, propagate_down(sc1, lt1, 8), 8);
    lemma_line_entries_distinct(system, path, lt2, system.lines@.len() as int);
    lemma_block_entries_distinct(system, path, model, lt2, system.blocks@.len() as int);
    lemma_append_distinct(cache2.lines, line_entries(system, path, lt2, system.lines@.len() as int));
    lemma_append_distinct(
        cache2.blocks,
        block_entries(system, path, model, lt2, system.blocks@.len() as int),
    );
}

proof fn lemma_resolve_children_distinct(system: System, path: Seq<Seq<char>>, model: Seq<char>, lt: Seq<Seq<TargetView>>, cache: CacheView, children: Seq<(Seq<char>, SummaryView)>, i: int)
    requires
        cache_deduplicated(cache),
    ensures
        cache_deduplicated(resolve_children(system, path, model, lt, cache, children, i).0),
    decreases system, 0int, system.blocks@.len() - i,
{
    if 0 <= i < system.blocks@.len() {
        let b = system.blocks@[i];
        match b.subsystem {
            None => {
                lemma_resolve_children_distinct(system, path, model, lt, cache, children, i + 1);
            },
            Some(sub) => {
                let ctx = SummaryView {
                    incoming: incoming_by_port_spec(system, b, lt),
                    outgoing: outgoing_by_port_spec(system, b, lt),
                };
                lemma_resolve_sys_distinct(*sub, path.push(b.name@), model, Some(ctx), cache);
                let (c2, summary) = resolve_sys(*sub, path.push(b.name@), model, Some(ctx), cache);
                let ch2 = match b.sid {
                    Some(s) => children.push((s@, summary)),
                    None => children,
                };
                lemma_resolve_children_distinct(system, path, model, lt, c2, ch2, i + 1);
            },
        }
    }
}

proof fn lemma_lookup_distinct(s: Seq<(Seq<char>, Seq<TargetView>)>, key: Seq<char>)
    requires
        forall|i: int| 0 <= i < s.len() ==> keys_distinct(#[trigger] s[i].1),
    ensures
        keys_distinct(cached_or_empty(s, key)),
    decreases s.len(),
{
    if s.len() > 0 {
        assert(keys_distinct(s[s.len() - 1].1));
        if s.last().0 != key {
            let p = s.drop_last();
            assert forall|i: int| 0 <= i < p.len() implies keys_distinct(#[trigger] p[i].1) by {
                assert(p[i] == s[i]);
            }
            lemma_lookup_distinct(p, key);
        }
    }
}

/// Every target list a resolver answers has no two targets with the same
/// key: for any block or line key looked up after resolving a model.
pub proof fn lemma_resolver_answers_deduplicated(root: System, block_key_text: Seq<char>, line_key_text: Seq<char>)
    ensures
        keys_distinct(
            cached_or_empty(
                resolve_sys(
                    root,
                    Seq::empty(),
                    root_model_name(root),
                    None,
                    CacheView { blocks: Seq::empty(), lines: Seq::empty() },
                ).0.blocks,
                block_key_text,
            ),
        ),
        keys_distinct(
            cached_or_empty(
                resolve_sys(
                    root,
                    Seq::empty(),
                    root_model_name(root),
                    None,
                    CacheView { blocks: Seq::empty(), lines: Seq::empty() },
                ).0.lines,
                line_key_text,
            ),
        ),
{
    let empty = CacheView { blocks: Seq::empty(), lines: Seq::empty() };
    lemma_resolve_sys_distinct(root, Seq::empty(), root_model_name(root), None, empty);
    let c = resolve_sys(root, Seq::empty(), root_model_name(root), None, empty).0;
    lemma_lookup_distinct(c.blocks, block_key_text);
    lemma_lookup_distinct(c.lines, line_key_text);
}

/// A block's recorded targets begin with the block itself: its full path,
/// with the `SelfBlock` origin and nothing else known.
pub proof fn lemma_block_targets_start_with_block(system: System, path: Seq<Seq<char>>, model: Seq<char>, lt: Seq<Seq<TargetView>>, block: Block)
    ensures
        dedup(block_target_list(system, path, model, lt, block)).len() > 0,
        same_key(
            dedup(block_target_list(system, path, model, lt, block))[0],
            plain_target(full_path(model, path, block.name@), ConnectionTargetOrigin::SelfBlock),
        ),
{
    let s = block_target_list(system, path, model, lt, block);
    assert(s[0] == plain_target(full_path(model, path, block.name@), ConnectionTargetOrigin::SelfBlock));
    lemma_dedup_keeps_first(s);
}

} // verus!
