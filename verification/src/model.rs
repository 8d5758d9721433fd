//! The block-diagram model: systems of blocks connected by lines.

use crate::properties::{clone_properties, property_entries, property_list};
use indexmap::IndexMap;
use vstd::prelude::*;

verus! {

/// A point, or a relative offset between two points, in model units.
#[derive(Debug, Clone, Copy, PartialEq, Eq, Default, Structural)]
pub struct Point {
    pub x: i32,
    pub y: i32,
}

/// One end of a line: a port of the block with the given SID.
#[derive(Debug, PartialEq, Eq)]
pub struct EndpointRef {
    pub sid: String,
    pub port_type: String,
    pub port_index: u32,
}

impl Clone for EndpointRef {
    fn clone(&self) -> (r: Self)
        ensures
            r == *self,
    {
        EndpointRef { sid: self.sid.clone(), port_type: self.port_type.clone(), port_index: self.port_index }
    }
}

/// A copy of an optional text.
fn clone_text(o: &Option<String>) -> (r: Option<String>)
    ensures
        r == *o,
{
    match o {
        Some(s) => Some(s.clone()),
        None => None,
    }
}

/// A copy of an optional line end.
fn clone_endpoint(o: &Option<EndpointRef>) -> (r: Option<EndpointRef>)
    ensures
        r == *o,
{
    match o {
        Some(e) => Some(e.clone()),
        None => None,
    }
}

/// A copy of a list of points.
fn clone_points(ps: &Vec<Point>) -> (r: Vec<Point>)
    ensures
        r@ == ps@,
{
    let mut r: Vec<Point> = Vec::new();
    let mut i: usize = 0;
    while i < ps.len()
        invariant
            i <= ps@.len(),
            r@ == ps@.take(i as int),
        decreases ps@.len() - i,
    {
        r.push(ps[i]);
        i = i + 1;
        assert(r@ =~= ps@.take(i as int));
    }
    assert(ps@.take(ps@.len() as int) =~= ps@);
    r
}

/// A branch of a line: a further destination, possibly branching again.
#[derive(Debug)]
pub struct Branch {
    pub name: Option<String>,
    pub dst: Option<EndpointRef>,
    pub points: Vec<Point>,
    pub branches: Vec<Branch>,
}

/// Whether `b` holds the same data as `a`, sub-branch by sub-branch.
pub open spec fn same_branch(a: Branch, b: Branch) -> bool
    decreases a,
{
    &&& a.name == b.name
    &&& a.dst == b.dst
    &&& a.points@ == b.points@
    &&& same_branches(a.branches@, b.branches@)
}

/// [`same_branch`] for each pair of branches.
pub open spec fn same_branches(a: Seq<Branch>, b: Seq<Branch>) -> bool
    decreases a,
{
    a.len() == b.len() && (a.len() == 0 || (same_branches(a.drop_last(), b.drop_last()) && same_branch(
        a.last(),
        b.last(),
    )))
}

proof fn lemma_same_branches_push(a: Seq<Branch>, b: Seq<Branch>, x: Branch, y: Branch)
    requires
        same_branches(a, b),
        same_branch(x, y),
    ensures
        same_branches(a.push(x), b.push(y)),
{
    assert(a.push(x).drop_last() =~= a);
    assert(b.push(y).drop_last() =~= b);
}

/// Copies of the branches.
fn clone_branches(bs: &Vec<Branch>) -> (r: Vec<Branch>)
    ensures
        same_branches(bs@, r@),
    decreases bs@,
{
    let mut r: Vec<Branch> = Vec::new();
    let mut i: usize = 0;
    while i < bs.len()
        invariant
            i <= bs@.len(),
            same_branches(bs@.take(i as int), r@),
        decreases bs@.len() - i,
    {
        assert(decreases_to!(bs@ => bs@[i as int]));
        let c = bs[i].clone();
        proof {
            lemma_same_branches_push(bs@.take(i as int), r@, bs@[i as int], c);
            assert(bs@.take(i as int).push(bs@[i as int]) =~= bs@.take(i + 1));
        }
        r.push(c);
        i = i + 1;
    }
    assert(bs@.take(bs@.len() as int) =~= bs@);
    r
}

impl Clone for Branch {
    fn clone(&self) -> (r: Self)
        ensures
            same_branch(*self, r),
        decreases self,
    {
        Branch {
            name: clone_text(&self.name),
            dst: clone_endpoint(&self.dst),
            points: clone_points(&self.points),
            branches: clone_branches(&self.branches),
        }
    }
}

/// Whether two property maps hold the same pairs in the same order.
pub open spec fn same_props(a: IndexMap<String, String>, b: IndexMap<String, String>) -> bool {
    property_entries(a) == property_entries(b) && property_list(a) == property_list(b)
}

/// A signal line from one block's output port to one or more inputs.
#[derive(Debug)]
pub struct Line {
    pub name: Option<String>,
    pub src: Option<EndpointRef>,
    pub dst: Option<EndpointRef>,
    /// Corner offsets, each relative to the previous corner (the first one
    /// relative to the source port).
    pub points: Vec<Point>,
    pub branches: Vec<Branch>,
    pub properties: IndexMap<String, String>,
}

/// Whether `b` holds the same data as `a`.
pub open spec fn same_line(a: Line, b: Line) -> bool {
    &&& a.name == b.name
    &&& a.src == b.src
    &&& a.dst == b.dst
    &&& a.points@ == b.points@
    &&& same_branches(a.branches@, b.branches@)
    &&& same_props(a.properties, b.properties)
}

impl Clone for Line {
    fn clone(&self) -> (r: Self)
        ensures
            same_line(*self, r),
    {
        Line {
            name: clone_text(&self.name),
            src: clone_endpoint(&self.src),
            dst: clone_endpoint(&self.dst),
            points: clone_points(&self.points),
            branches: clone_branches(&self.branches),
            properties: clone_properties(&self.properties),
        }
    }
}

/// A port of a block with its own properties (name, test point, ...).
#[derive(Debug)]
pub struct Port {
    pub port_type: String,
    pub index: Option<u32>,
    pub properties: IndexMap<String, String>,
}

/// Whether `b` holds the same data as `a`.
pub open spec fn same_port(a: Port, b: Port) -> bool {
    a.port_type == b.port_type && a.index == b.index && same_props(a.properties, b.properties)
}

impl Clone for Port {
    fn clone(&self) -> (r: Self)
        ensures
            same_port(*self, r),
    {
        Port {
            port_type: self.port_type.clone(),
            index: self.index,
            properties: clone_properties(&self.properties),
        }
    }
}

/// Whether two port lists hold the same ports.
pub open spec fn same_ports(a: Seq<Port>, b: Seq<Port>) -> bool {
    a.len() == b.len() && forall|i: int| 0 <= i < a.len() ==> same_port(#[trigger] a[i], b[i])
}

/// Copies of the ports.
fn clone_ports(ps: &Vec<Port>) -> (r: Vec<Port>)
    ensures
        same_ports(ps@, r@),
{
    let mut r: Vec<Port> = Vec::new();
    let mut i: usize = 0;
    while i < ps.len()
        invariant
            i <= ps@.len(),
            r@.len() == i,
            forall|k: int| 0 <= k < i ==> same_port(#[trigger] ps@[k], r@[k]),
        decreases ps@.len() - i,
    {
        r.push(ps[i].clone());
        i = i + 1;
    }
    r
}

/// The declared numbers of input and output ports of a block.
#[derive(Debug, Clone, Copy, PartialEq, Eq, Default, Structural)]
pub struct PortCounts {
    pub ins: Option<u32>,
    pub outs: Option<u32>,
}

/// The part of a dashboard binding that selects what inside the bound block
/// is meant.
#[derive(Debug, PartialEq, Eq, PartialOrd, Ord, Hash, Default)]
pub struct DashboardTargetPath {
    pub port_index: Option<u32>,
    pub sub_path: Option<String>,
    pub element: Option<u32>,
    pub element_raw_input: Option<String>,
}

impl Clone for DashboardTargetPath {
    fn clone(&self) -> (r: Self)
        ensures
            r == *self,
    {
        DashboardTargetPath {
            port_index: self.port_index,
            sub_path: clone_text(&self.sub_path),
            element: self.element,
            element_raw_input: clone_text(&self.element_raw_input),
        }
    }
}

impl DashboardTargetPath {
    /// Whether the path selects nothing: no port, sub-path or element.
    pub open spec fn is_empty_spec(&self) -> bool {
        self.port_index is None && self.sub_path is None && self.element is None
            && self.element_raw_input is None
    }

    /// Whether the path selects nothing.
    pub fn is_empty(&self) -> (r: bool)
        ensures
            r == self.is_empty_spec(),
    {
        self.port_index.is_none() && self.sub_path.is_none() && self.element.is_none()
            && self.element_raw_input.is_none()
    }
}

/// What a dashboard block is bound to: a block parameter or a signal.
#[derive(Debug, PartialEq, Eq)]
pub enum DashboardBinding {
    ParamSource {
        block_path: String,
        param_name: String,
        target_path: DashboardTargetPath,
        uuid: String,
    },
    SignalSpec {
        block_path: String,
        signal_name: String,
        target_path: DashboardTargetPath,
        uuid: String,
    },
}

impl Clone for DashboardBinding {
    fn clone(&self) -> (r: Self)
        ensures
            r == *self,
    {
        match self {
            DashboardBinding::ParamSource { block_path, param_name, target_path, uuid } => {
                DashboardBinding::ParamSource {
                    block_path: block_path.clone(),
                    param_name: param_name.clone(),
                    target_path: target_path.clone(),
                    uuid: uuid.clone(),
                }
            },
            DashboardBinding::SignalSpec { block_path, signal_name, target_path, uuid } => {
                DashboardBinding::SignalSpec {
                    block_path: block_path.clone(),
                    signal_name: signal_name.clone(),
                    target_path: target_path.clone(),
                    uuid: uuid.clone(),
                }
            },
        }
    }
}

/// The mask of a masked block.
#[derive(Debug, PartialEq, Default)]
pub struct Mask {
    pub mask_type: Option<String>,
}

impl Clone for Mask {
    fn clone(&self) -> (r: Self)
        ensures
            r == *self,
    {
        Mask { mask_type: clone_text(&self.mask_type) }
    }
}

/// A block of a system; a subsystem block carries its own system.
#[derive(Debug)]
pub struct Block {
    pub block_type: String,
    pub name: String,
    pub sid: Option<String>,
    pub commented: bool,
    pub value: Option<String>,
    pub properties: IndexMap<String, String>,
    pub port_counts: Option<PortCounts>,
    pub ports: Vec<Port>,
    pub subsystem: Option<Box<System>>,
    pub mask: Option<Mask>,
    pub mask_display_text: Option<String>,
    pub current_setting: Option<String>,
    pub block_mirror: Option<bool>,
    pub dashboard_binding: Option<DashboardBinding>,
}

/// A system: blocks, the lines between them and the system's properties.
#[derive(Debug)]
pub struct System {
    pub properties: IndexMap<String, String>,
    pub blocks: Vec<Block>,
    pub lines: Vec<Line>,
}

/// Whether `b` holds the same data as `a`, nested systems included.
pub open spec fn same_block(a: Block, b: Block) -> bool
    decreases a,
{
    &&& a.block_type == b.block_type
    &&& a.name == b.name
    &&& a.sid == b.sid
    &&& a.commented == b.commented
    &&& a.value == b.value
    &&& same_props(a.properties, b.properties)
    &&& a.port_counts == b.port_counts
    &&& same_ports(a.ports@, b.ports@)
    &&& match (a.subsystem, b.subsystem) {
        (Some(x), Some(y)) => same_system(*x, *y),
        (None, None) => true,
        _ => false,
    }
    &&& a.mask == b.mask
    &&& a.mask_display_text == b.mask_display_text
    &&& a.current_setting == b.current_setting
    &&& a.block_mirror == b.block_mirror
    &&& a.dashboard_binding == b.dashboard_binding
}

/// [`same_block`] for each pair of blocks.
pub open spec fn same_blocks(a: Seq<Block>, b: Seq<Block>) -> bool
    decreases a,
{
    a.len() == b.len() && (a.len() == 0 || (same_blocks(a.drop_last(), b.drop_last()) && same_block(
        a.last(),
        b.last(),
    )))
}

/// Whether `b` holds the same data as `a`, nested systems included.
pub open spec fn same_system(a: System, b: System) -> bool
    decreases a,
{
    &&& same_props(a.properties, b.properties)
    &&& same_blocks(a.blocks@, b.blocks@)
    &&& a.lines@.len() == b.lines@.len()
    &&& forall|i: int| 0 <= i < a.lines@.len() ==> same_line(#[trigger] a.lines@[i], b.lines@[i])
}

impl Clone for Block {
    fn clone(&self) -> (r: Self)
        ensures
            same_block(*self, r),
        decreases self,
    {
        let subsystem = match &self.subsystem {
            Some(sys) => Some(Box::new(clone_system(sys))),
            None => None,
        };
        Block {
            block_type: self.block_type.clone(),
            name: self.name.clone(),
            sid: clone_text(&self.sid),
            commented: self.commented,
            value: clone_text(&self.value),
            properties: clone_properties(&self.properties),
            port_counts: self.port_counts,
            ports: clone_ports(&self.ports),
            subsystem,
            mask: match &self.mask {
                Some(m) => Some(m.clone()),
                None => None,
            },
            mask_display_text: clone_text(&self.mask_display_text),
            current_setting: clone_text(&self.current_setting),
            block_mirror: self.block_mirror,
            dashboard_binding: match &self.dashboard_binding {
                Some(b) => Some(b.clone()),
                None => None,
            },
        }
    }
}

proof fn lemma_same_blocks_push(a: Seq<Block>, b: Seq<Block>, x: Block, y: Block)
    requires
        same_blocks(a, b),
        same_block(x, y),
    ensures
        same_blocks(a.push(x), b.push(y)),
{
    assert(a.push(x).drop_last() =~= a);
    assert(b.push(y).drop_last() =~= b);
}

fn clone_system(sys: &System) -> (r: System)
    ensures
        same_system(*sys, r),
    decreases sys,
{
    let mut blocks: Vec<Block> = Vec::new();
    let mut i: usize = 0;
    while i < sys.blocks.len()
        invariant
            i <= sys.blocks@.len(),
            same_blocks(sys.blocks@.take(i as int), blocks@),
        decreases sys.blocks.len() - i,
    {
        assert(decreases_to!(sys => sys.blocks@[i as int]));
        let c = sys.blocks[i].clone();
        proof {
            lemma_same_blocks_push(sys.blocks@.take(i as int), blocks@, sys.blocks@[i as int], c);
            assert(sys.blocks@.take(i as int).push(sys.blocks@[i as int]) =~= sys.blocks@.take(i + 1));
        }
        blocks.push(c);
        i = i + 1;
    }
    assert(sys.blocks@.take(sys.blocks@.len() as int) =~= sys.blocks@);
    let mut lines: Vec<Line> = Vec::new();
    let mut j: usize = 0;
    while j < sys.lines.len()
        invariant
            j <= sys.lines@.len(),
            lines@.len() == j,
            forall|k: int| 0 <= k < j ==> same_line(#[trigger] sys.lines@[k], lines@[k]),
        decreases sys.lines.len() - j,
    {
        lines.push(sys.lines[j].clone());
        j = j + 1;
    }
    System { properties: clone_properties(&sys.properties), blocks, lines }
}

impl Clone for System {
    fn clone(&self) -> (r: Self)
        ensures
            same_system(*self, r),
    {
        clone_system(self)
    }
}

} // verus!
