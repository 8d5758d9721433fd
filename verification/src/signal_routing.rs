//! The `simulink/Signal Routing` library: its virtual block definitions and
//! how a library path is recognised as belonging to it.

use crate::model::Block;
use crate::properties::{prop, property_get};
use crate::text::{
    ascii_lower_chars, ascii_lower_seq, chars_eq, chars_of, chars_starts_with, has_prefix,
    string_of, trim, trim_chars,
};
use vstd::prelude::*;

verus! {

/// The library's name.
pub const LIB_NAME: &'static str = "simulink/Signal Routing";

/// How a virtual block is drawn.
#[derive(Debug, Clone, Copy, PartialEq, Eq, Structural)]
pub enum BlockShape {
    FilledBlack,
    Goto,
    From,
}

/// How a virtual block labels each of its instances.
#[derive(Debug, Clone, Copy, PartialEq, Eq, Structural)]
pub enum InstanceLabel {
    /// The block's `GotoTag`.
    GotoTag,
}

/// A block definition of a built-in library.
#[derive(Debug, Clone)]
pub struct VirtualBlock {
    pub name: String,
    pub aliases: Vec<String>,
    pub ins: u32,
    pub outs: u32,
    pub shape: BlockShape,
    pub compute_instance_label: Option<InstanceLabel>,
}

/// The label of a Goto or From block: its `GotoTag` trimmed, or `A`.
pub open spec fn goto_label(block: Block) -> Seq<char> {
    match prop(block.properties, "GotoTag"@) {
        Some(t) => trim(t),
        None => "A"@,
    }
}

/// The label of a Goto or From block.
pub fn goto_tag_label(block: &Block) -> (r: Option<String>)
    ensures
        r matches Some(s) && s@ == goto_label(*block),
{
    match property_get(&block.properties, "GotoTag") {
        Some(t) => {
            let cs = chars_of(t.as_str());
            let tr = trim_chars(cs.as_slice());
            Some(string_of(tr.as_slice()))
        },
        None => Some("A".to_string()),
    }
}

/// A block definition without aliases.
fn virtual_block(name: &str, ins: u32, outs: u32, shape: BlockShape, label: Option<InstanceLabel>) -> (r: VirtualBlock)
    ensures
        r.name@ == name@,
        r.aliases@.len() == 0,
        r.ins == ins,
        r.outs == outs,
        r.shape == shape,
        r.compute_instance_label == label,
{
    VirtualBlock {
        name: name.to_string(),
        aliases: Vec::new(),
        ins,
        outs,
        shape,
        compute_instance_label: label,
    }
}

/// The library's blocks: BusCreator (2 in, 1 out), BusSelector (1 in,
/// 2 out), both drawn filled black, and Goto (1 in) and From (1 out), both
/// labelled by their `GotoTag`.
pub fn get_blocks() -> (r: Vec<VirtualBlock>)
    ensures
        r@.len() == 4,
        r@[0].name@ == "BusCreator"@ && r@[0].ins == 2 && r@[0].outs == 1 && r@[0].shape
            == BlockShape::FilledBlack && r@[0].compute_instance_label is None,
        r@[1].name@ == "BusSelector"@ && r@[1].ins == 1 && r@[1].outs == 2 && r@[1].shape
            == BlockShape::FilledBlack && r@[1].compute_instance_label is None,
        r@[2].name@ == "Goto"@ && r@[2].ins == 1 && r@[2].outs == 0 && r@[2].shape
            == BlockShape::Goto && r@[2].compute_instance_label == Some(InstanceLabel::GotoTag),
        r@[3].name@ == "From"@ && r@[3].ins == 0 && r@[3].outs == 1 && r@[3].shape
            == BlockShape::From && r@[3].compute_instance_label == Some(InstanceLabel::GotoTag),
        forall|i: int| 0 <= i < 4 ==> (#[trigger] r@[i]).aliases@.len() == 0,
{
    let mut r: Vec<VirtualBlock> = Vec::new();
    r.push(virtual_block("BusCreator", 2, 1, BlockShape::FilledBlack, None));
    r.push(virtual_block("BusSelector", 1, 2, BlockShape::FilledBlack, None));
    r.push(virtual_block("Goto", 1, 0, BlockShape::Goto, Some(InstanceLabel::GotoTag)));
    r.push(virtual_block("From", 0, 1, BlockShape::From, Some(InstanceLabel::GotoTag)));
    r
}

/// `\\` turned into `/`.
pub open spec fn forward_slash(c: char) -> char {
    if c == '\\' {
        '/'
    } else {
        c
    }
}

/// A library path as compared: trimmed, `\\` turned into `/`, in ASCII
/// lower case.
pub open spec fn normalized_library_name(name: Seq<char>) -> Seq<char> {
    ascii_lower_seq(trim(name).map_values(|c: char| forward_slash(c)))
}

/// Whether a library path names this library or a block inside it.
pub open spec fn is_signal_routing_name(name: Seq<char>) -> bool {
    let n = normalized_library_name(name);
    n == "simulink/signal routing"@ || has_prefix(n, "simulink/signal routing/"@)
}

/// Whether a library path names this library or a block inside it.
pub fn is_simulink_signal_routing_name(name: &str) -> (r: bool)
    ensures
        r == is_signal_routing_name(name@),
{
    let cs = chars_of(name);
    let t = trim_chars(cs.as_slice());
    let mut swapped: Vec<char> = Vec::new();
    let mut i: usize = 0;
    while i < t.len()
        invariant
            i <= t@.len(),
            swapped@ == t@.take(i as int).map_values(|c: char| forward_slash(c)),
        decreases t@.len() - i,
    {
        let c = t[i];
        swapped.push(if c == '\\' {
            '/'
        } else {
            c
        });
        i = i + 1;
        assert(swapped@ =~= t@.take(i as int).map_values(|c: char| forward_slash(c)));
    }
    assert(t@.take(t@.len() as int) =~= t@);
    let norm = ascii_lower_chars(swapped.as_slice());
    let lib = chars_of("simulink/signal routing");
    let prefix = chars_of("simulink/signal routing/");
    chars_eq(norm.as_slice(), lib.as_slice()) || chars_starts_with(norm.as_slice(), prefix.as_slice())
}

} // verus!
