//! The resolved connection target and its de-duplication.

use crate::model::DashboardTargetPath;
use vstd::pervasive::VecAdditionalExecFns;
use vstd::prelude::*;

verus! {

/// Why a target belongs to a block or line.
#[derive(Debug, Clone, Copy, PartialEq, Eq, Hash, Default, Structural)]
pub enum ConnectionTargetOrigin {
    #[default]
    SourceBlock,
    SelfBlock,
    Internal,
    DashboardBinding,
    BusCreator,
    BusSelector,
    Mux,
    Demux,
}

/// How the signal inside a target's path is picked out.
#[derive(Debug, PartialEq, Eq, Hash)]
pub enum ConnectionTargetResolve {
    Signal(String),
    Index(u32),
    TargetPath(DashboardTargetPath),
}

/// A Simulink path a block or line is connected to, with what is known of the
/// signal at that path.
#[derive(Debug, PartialEq, Eq, Hash, Default)]
pub struct ConnectionTarget {
    pub path: String,
    pub signal_name: Option<String>,
    pub resolve: Option<ConnectionTargetResolve>,
    pub element_index: Option<u32>,
    pub origin: ConnectionTargetOrigin,
    pub signals_only: bool,
    pub testpoint: bool,
}

/// An optional string taken by its characters.
pub open spec fn opt_str(o: Option<String>) -> Option<Seq<char>> {
    match o {
        Some(s) => Some(s@),
        None => None,
    }
}

/// A dashboard target path taken by value.
pub struct TargetPathView {
    pub port_index: Option<u32>,
    pub sub_path: Option<Seq<char>>,
    pub element: Option<u32>,
    pub element_raw_input: Option<Seq<char>>,
}

/// A resolve hint taken by value.
pub enum ResolveView {
    Signal(Seq<char>),
    Index(u32),
    TargetPath(TargetPathView),
}

/// A connection target taken by value.
pub struct TargetView {
    pub path: Seq<char>,
    pub signal_name: Option<Seq<char>>,
    pub resolve: Option<ResolveView>,
    pub element_index: Option<u32>,
    pub origin: ConnectionTargetOrigin,
    pub signals_only: bool,
    pub testpoint: bool,
}

impl View for DashboardTargetPath {
    type V = TargetPathView;

    open spec fn view(&self) -> TargetPathView {
        TargetPathView {
            port_index: self.port_index,
            sub_path: opt_str(self.sub_path),
            element: self.element,
            element_raw_input: opt_str(self.element_raw_input),
        }
    }
}

impl View for ConnectionTargetResolve {
    type V = ResolveView;

    open spec fn view(&self) -> ResolveView {
        match self {
            ConnectionTargetResolve::Signal(s) => ResolveView::Signal(s@),
            ConnectionTargetResolve::Index(i) => ResolveView::Index(*i),
            ConnectionTargetResolve::TargetPath(p) => ResolveView::TargetPath(p@),
        }
    }
}

/// An optional resolve hint taken by value.
pub open spec fn opt_resolve(o: Option<ConnectionTargetResolve>) -> Option<ResolveView> {
    match o {
        Some(r) => Some(r@),
        None => None,
    }
}

impl View for ConnectionTarget {
    type V = TargetView;

    open spec fn view(&self) -> TargetView {
        TargetView {
            path: self.path@,
            signal_name: opt_str(self.signal_name),
            resolve: opt_resolve(self.resolve),
            element_index: self.element_index,
            origin: self.origin,
            signals_only: self.signals_only,
            testpoint: self.testpoint,
        }
    }
}

/// The targets of a sequence, each taken by value.
pub open spec fn views(s: Seq<ConnectionTarget>) -> Seq<TargetView> {
    s.map_values(|t: ConnectionTarget| t@)
}

/// Taking views commutes with pushing.
pub proof fn lemma_views_push(s: Seq<ConnectionTarget>, t: ConnectionTarget)
    ensures
        views(s.push(t)) == views(s).push(t@),
{
    assert(views(s.push(t)) =~= views(s).push(t@));
}

/// The views of a prefix one longer.
pub proof fn lemma_views_take_next(s: Seq<ConnectionTarget>, i: int)
    requires
        0 <= i < s.len(),
    ensures
        views(s.take(i + 1)) == views(s.take(i)).push(s[i]@),
{
    assert(s.take(i + 1) =~= s.take(i).push(s[i]));
    lemma_views_push(s.take(i), s[i]);
}

/// A copy of `o`.
pub fn clone_opt_string(o: &Option<String>) -> (r: Option<String>)
    ensures
        opt_str(r) == opt_str(*o),
{
    match o {
        Some(s) => Some(s.clone()),
        None => None,
    }
}

/// Whether two optional strings are equal.
pub fn opt_string_eq(a: &Option<String>, b: &Option<String>) -> (r: bool)
    ensures
        r == (opt_str(*a) == opt_str(*b)),
{
    match (a, b) {
        (Some(x), Some(y)) => x.eq(y),
        (None, None) => true,
        _ => false,
    }
}

/// A copy of `p`.
pub fn clone_target_path(p: &DashboardTargetPath) -> (r: DashboardTargetPath)
    ensures
        r@ == p@,
{
    DashboardTargetPath {
        port_index: p.port_index,
        sub_path: clone_opt_string(&p.sub_path),
        element: p.element,
        element_raw_input: clone_opt_string(&p.element_raw_input),
    }
}

/// Whether two dashboard target paths are equal.
pub fn target_path_eq(a: &DashboardTargetPath, b: &DashboardTargetPath) -> (r: bool)
    ensures
        r == (a@ == b@),
{
    a.port_index == b.port_index && opt_string_eq(&a.sub_path, &b.sub_path) && a.element
        == b.element && opt_string_eq(&a.element_raw_input, &b.element_raw_input)
}

/// A copy of `o`.
pub fn clone_resolve(o: &Option<ConnectionTargetResolve>) -> (r: Option<ConnectionTargetResolve>)
    ensures
        opt_resolve(r) == opt_resolve(*o),
{
    match o {
        Some(ConnectionTargetResolve::Signal(s)) => Some(ConnectionTargetResolve::Signal(s.clone())),
        Some(ConnectionTargetResolve::Index(i)) => Some(ConnectionTargetResolve::Index(*i)),
        Some(ConnectionTargetResolve::TargetPath(p)) => Some(
            ConnectionTargetResolve::TargetPath(clone_target_path(p)),
        ),
        None => None,
    }
}

/// Whether two optional resolve hints are equal.
pub fn resolve_eq(a: &Option<ConnectionTargetResolve>, b: &Option<ConnectionTargetResolve>) -> (r:
    bool)
    ensures
        r == (opt_resolve(*a) == opt_resolve(*b)),
{
    match (a, b) {
        (None, None) => true,
        (Some(ConnectionTargetResolve::Signal(x)), Some(ConnectionTargetResolve::Signal(y))) => x.eq(
            y,
        ),
        (Some(ConnectionTargetResolve::Index(x)), Some(ConnectionTargetResolve::Index(y))) => x
            == y,
        (
            Some(ConnectionTargetResolve::TargetPath(x)),
            Some(ConnectionTargetResolve::TargetPath(y)),
        ) => target_path_eq(x, y),
        _ => false,
    }
}

impl ConnectionTarget {
    /// A target for `path` with the given origin and nothing else known.
    pub fn new(path: String, origin: ConnectionTargetOrigin) -> (r: Self)
        ensures
            r@ == (TargetView {
                path: path@,
                signal_name: None,
                resolve: None,
                element_index: None,
                origin,
                signals_only: false,
                testpoint: false,
            }),
    {
        ConnectionTarget {
            path,
            signal_name: None,
            resolve: None,
            element_index: None,
            origin,
            signals_only: false,
            testpoint: false,
        }
    }

    /// A copy of this target.
    pub fn duplicate(&self) -> (r: Self)
        ensures
            r@ == self@,
    {
        ConnectionTarget {
            path: self.path.clone(),
            signal_name: clone_opt_string(&self.signal_name),
            resolve: clone_resolve(&self.resolve),
            element_index: self.element_index,
            origin: self.origin,
            signals_only: self.signals_only,
            testpoint: self.testpoint,
        }
    }
}

impl Clone for ConnectionTargetResolve {
    fn clone(&self) -> (r: Self)
        ensures
            r@ == self@,
    {
        match self {
            ConnectionTargetResolve::Signal(s) => ConnectionTargetResolve::Signal(s.clone()),
            ConnectionTargetResolve::Index(i) => ConnectionTargetResolve::Index(*i),
            ConnectionTargetResolve::TargetPath(p) => ConnectionTargetResolve::TargetPath(
                clone_target_path(p),
            ),
        }
    }
}

impl Clone for ConnectionTarget {
    fn clone(&self) -> (r: Self)
        ensures
            r@ == self@,
    {
        self.duplicate()
    }
}

/// Whether two targets are equal.
pub fn target_eq(a: &ConnectionTarget, b: &ConnectionTarget) -> (r: bool)
    ensures
        r == (a@ == b@),
{
    a.path.eq(&b.path) && opt_string_eq(&a.signal_name, &b.signal_name)
        && resolve_eq(&a.resolve, &b.resolve) && a.element_index == b.element_index && a.origin
        == b.origin && a.signals_only == b.signals_only && a.testpoint == b.testpoint
}

/// Whether two target lists are equal element by element.
pub fn targets_eq(a: &Vec<ConnectionTarget>, b: &Vec<ConnectionTarget>) -> (r: bool)
    ensures
        r == (views(a@) == views(b@)),
{
    if a.len() != b.len() {
        assert(views(a@).len() != views(b@).len());
        return false;
    }
    let mut i: usize = 0;
    while i < a.len()
        invariant
            a@.len() == b@.len(),
            i <= a@.len(),
            forall|j: int| 0 <= j < i ==> a@[j]@ == b@[j]@,
        decreases a@.len() - i,
    {
        if !target_eq(&a[i], &b[i]) {
            assert(views(a@)[i as int] != views(b@)[i as int]);
            return false;
        }
        i = i + 1;
    }
    assert(views(a@) =~= views(b@));
    true
}

/// A copy of every target of `s`.
pub fn clone_targets(s: &[ConnectionTarget]) -> (r: Vec<ConnectionTarget>)
    ensures
        views(r@) == views(s@),
{
    let mut r: Vec<ConnectionTarget> = Vec::new();
    let mut i: usize = 0;
    while i < s.len()
        invariant
            i <= s@.len(),
            views(r@) == views(s@.take(i as int)),
        decreases s@.len() - i,
    {
        let d = s[i].duplicate();
        proof {
            lemma_views_push(r@, d);
            lemma_views_take_next(s@, i as int);
        }
        r.push(d);
        i = i + 1;
    }
    assert(s@.take(s@.len() as int) =~= s@);
    r
}

/// Appends a copy of every target of `s` to `out`.
pub fn extend_targets(out: &mut Vec<ConnectionTarget>, s: &[ConnectionTarget])
    ensures
        views(final(out)@) == views(old(out)@) + views(s@),
{
    let mut i: usize = 0;
    while i < s.len()
        invariant
            i <= s@.len(),
            views(out@) == views(old(out)@) + views(s@.take(i as int)),
        decreases s@.len() - i,
    {
        let d = s[i].duplicate();
        proof {
            lemma_views_push(out@, d);
            lemma_views_take_next(s@, i as int);
            assert(views(old(out)@) + views(s@.take(i as int)).push(d@) =~= (views(old(out)@)
                + views(s@.take(i as int))).push(d@));
        }
        out.push(d);
        i = i + 1;
    }
    assert(s@.take(s@.len() as int) =~= s@);
}

/// Two targets describe the same signal when everything but the test-point
/// flag agrees.
pub open spec fn same_key(a: TargetView, b: TargetView) -> bool {
    a.path == b.path && a.signal_name == b.signal_name && a.resolve == b.resolve
        && a.element_index == b.element_index && a.origin == b.origin && a.signals_only
        == b.signals_only
}

/// Whether some target of `r` has the same key as `t`.
pub open spec fn has_key(r: Seq<TargetView>, t: TargetView) -> bool {
    exists|i: int| 0 <= i < r.len() && same_key(r[i], t)
}

/// An index of `r` holding a target with the same key as `t`.
pub open spec fn key_index(r: Seq<TargetView>, t: TargetView) -> int {
    choose|i: int| 0 <= i < r.len() && same_key(r[i], t)
}

/// `t` added to the de-duplicated list `r`: merged into the target with the
/// same key (its test point is set when either has one) or appended.
pub open spec fn dedup_step(r: Seq<TargetView>, t: TargetView) -> Seq<TargetView> {
    if has_key(r, t) {
        let i = key_index(r, t);
        r.update(i, TargetView { testpoint: r[i].testpoint || t.testpoint, ..r[i] })
    } else {
        r.push(t)
    }
}

/// The targets of `s` with all targets of the same key merged into the first
/// of them.
pub open spec fn dedup(s: Seq<TargetView>) -> Seq<TargetView>
    decreases s.len(),
{
    if s.len() == 0 {
        Seq::empty()
    } else {
        dedup_step(dedup(s.drop_last()), s.last())
    }
}

/// No two targets of `r` have the same key.
pub open spec fn keys_distinct(r: Seq<TargetView>) -> bool {
    forall|i: int, j: int| 0 <= i < j < r.len() ==> !same_key(#[trigger] r[i], #[trigger] r[j])
}

/// Whether two targets have the same key.
pub fn same_key_exec(a: &ConnectionTarget, b: &ConnectionTarget) -> (r: bool)
    ensures
        r == same_key(a@, b@),
{
    a.path.eq(&b.path) && opt_string_eq(&a.signal_name, &b.signal_name)
        && resolve_eq(&a.resolve, &b.resolve) && a.element_index == b.element_index && a.origin
        == b.origin && a.signals_only == b.signals_only
}

proof fn lemma_dedup_step_distinct(r: Seq<TargetView>, t: TargetView)
    requires
        keys_distinct(r),
    ensures
        keys_distinct(dedup_step(r, t)),
{
    if has_key(r, t) {
        let i = key_index(r, t);
        let u = dedup_step(r, t);
        assert forall|a: int, b: int| 0 <= a < b < u.len() implies !same_key(
            #[trigger] u[a],
            #[trigger] u[b],
        ) by {
            assert(same_key(u[a], r[a]));
            assert(same_key(u[b], r[b]));
            assert(!same_key(r[a], r[b]));
        }
    } else {
        let u = dedup_step(r, t);
        assert forall|a: int, b: int| 0 <= a < b < u.len() implies !same_key(
            #[trigger] u[a],
            #[trigger] u[b],
        ) by {
            if b == r.len() {
                assert(u[a] == r[a]);
            } else {
                assert(!same_key(r[a], r[b]));
            }
        }
    }
}

/// The targets with every group of same-key targets merged into its first
/// member; the merged target carries a test point when any member does.
pub fn dedup_targets(targets: Vec<ConnectionTarget>) -> (out: Vec<ConnectionTarget>)
    ensures
        views(out@) == dedup(views(targets@)),
        keys_distinct(views(out@)),
{
    let mut out: Vec<ConnectionTarget> = Vec::new();
    let mut i: usize = 0;
    while i < targets.len()
        invariant
            i <= targets@.len(),
            views(out@) == dedup(views(targets@.take(i as int))),
            keys_distinct(views(out@)),
        decreases targets@.len() - i,
    {
        let t = &targets[i];
        let ghost prev = views(out@);
        proof {
            assert(views(targets@.take(i + 1)).drop_last() =~= views(targets@.take(i as int)));
            assert(views(targets@.take(i + 1)).last() == t@);
            lemma_dedup_step_distinct(prev, t@);
        }
        let mut j: usize = 0;
        while j < out.len() && !same_key_exec(&out[j], t)
            invariant
                j <= out@.len(),
                views(out@) == prev,
                forall|k: int| 0 <= k < j ==> !same_key(#[trigger] prev[k], t@),
            decreases out@.len() - j,
        {
            j = j + 1;
        }
        if j < out.len() {
            proof {
                assert(same_key(prev[j as int], t@));
                assert(has_key(prev, t@));
                let k = key_index(prev, t@);
                if k != j {
                    if k < j {
                        assert(!same_key(prev[k], prev[j as int]));
                    } else {
                        assert(!same_key(prev[j as int], prev[k]));
                    }
                }
            }
            let mut merged = out[j].duplicate();
            merged.testpoint = merged.testpoint || t.testpoint;
            out.set(j, merged);
            assert(views(out@) =~= dedup_step(prev, t@));
        } else {
            assert(!has_key(prev, t@));
            out.push(t.duplicate());
            assert(views(out@) =~= dedup_step(prev, t@));
        }
        proof {
            lemma_views_take_next(targets@, i as int);
        }
        i = i + 1;
    }
    assert(targets@.take(targets@.len() as int) =~= targets@);
    out
}

proof fn lemma_dedup_distinct(s: Seq<TargetView>)
    ensures
        keys_distinct(dedup(s)),
    decreases s.len(),
{
    if s.len() > 0 {
        lemma_dedup_distinct(s.drop_last());
        lemma_dedup_step_distinct(dedup(s.drop_last()), s.last());
    }
}

/// A list without two targets of the same key is its own de-duplication.
pub proof fn lemma_dedup_of_distinct(r: Seq<TargetView>)
    requires
        keys_distinct(r),
    ensures
        dedup(r) == r,
    decreases r.len(),
{
    if r.len() > 0 {
        let p = r.drop_last();
        assert(keys_distinct(p)) by {
            assert forall|i: int, j: int| 0 <= i < j < p.len() implies !same_key(
                #[trigger] p[i],
                #[trigger] p[j],
            ) by {
                assert(p[i] == r[i] && p[j] == r[j]);
            }
        }
        lemma_dedup_of_distinct(p);
        if has_key(p, r.last()) {
            let i = key_index(p, r.last());
            assert(p[i] == r[i]);
            assert(!same_key(r[i], r[r.len() - 1]));
        }
        assert(p.push(r.last()) =~= r);
    }
}

/// De-duplication leaves no two targets with the same key, and
/// de-duplicating again changes nothing.
pub proof fn lemma_dedup_laws(s: Seq<TargetView>)
    ensures
        keys_distinct(dedup(s)),
        dedup(dedup(s)) == dedup(s),
{
    lemma_dedup_distinct(s);
    lemma_dedup_of_distinct(dedup(s));
}

/// De-duplication keeps the first target first (its test point may take in
/// those of later targets with the same key).
pub proof fn lemma_dedup_keeps_first(s: Seq<TargetView>)
    requires
        s.len() > 0,
    ensures
        dedup(s).len() > 0,
        same_key(dedup(s)[0], s[0]),
    decreases s.len(),
{
    if s.len() == 1 {
        assert(s.drop_last().len() == 0);
        assert(dedup(s.drop_last()) =~= Seq::<TargetView>::empty());
    } else {
        let p = s.drop_last();
        lemma_dedup_keeps_first(p);
        assert(p[0] == s[0]);
        let d = dedup(p);
        if has_key(d, s.last()) {
            let i = key_index(d, s.last());
            assert(same_key(dedup(s)[0], d[0]));
        } else {
            assert(dedup(s)[0] == d[0]);
        }
    }
}

} // verus!
