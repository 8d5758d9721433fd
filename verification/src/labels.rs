//! The names shown next to a block's ports.

use crate::connection_targets::graph::{boundary_port, boundary_port_index};
use crate::connection_targets::metadata::trimmed_nonempty;
use crate::model::Block;
use crate::properties::{prop, property_get};
use crate::text::{chars_of, decimal, decimal_chars, str_eq, string_of, trim, trim_chars};
use vstd::prelude::*;

verus! {

/// What the rendering configuration of a block type says about its ports:
/// the default names of its input and output ports, in port order.
#[derive(Debug, Clone, Default)]
pub struct BlockTypeConfig {
    pub input_port_names: Vec<String>,
    pub output_port_names: Vec<String>,
}

/// The name an Inport/Outport block gives its port: its own name trimmed,
/// else its `Name` (or `name`) property trimmed; none when both are blank.
pub open spec fn boundary_display_name(b: Block) -> Option<Seq<char>> {
    if trim(b.name@).len() > 0 {
        Some(trim(b.name@))
    } else {
        match prop(b.properties, "Name"@) {
            Some(v) => trimmed_nonempty(v),
            None => match prop(b.properties, "name"@) {
                Some(v) => trimmed_nonempty(v),
                None => None,
            },
        }
    }
}

/// The position of the first block from `k` on of type `ty` with port
/// number `index`.
pub open spec fn first_boundary_from(blocks: Seq<Block>, ty: Seq<char>, index: u32, k: int) -> Option<int>
    decreases blocks.len() - k,
{
    if k < 0 || k >= blocks.len() {
        None
    } else if blocks[k].block_type@ == ty && boundary_port(blocks[k]) == index {
        Some(k)
    } else {
        first_boundary_from(blocks, ty, index, k + 1)
    }
}

/// The name of the Inport (for an input) or Outport inside a subsystem
/// block that serves its port `index`.
pub open spec fn boundary_port_name(block: Block, index: u32, logical_is_input: bool) -> Option<Seq<char>> {
    if block.block_type@ == "SubSystem"@ || block.block_type@ == "Reference"@ {
        match block.subsystem {
            Some(sub) => {
                let ty = if logical_is_input {
                    "Inport"@
                } else {
                    "Outport"@
                };
                match first_boundary_from(sub.blocks@, ty, index, 0) {
                    Some(k) => boundary_display_name(sub.blocks@[k]),
                    None => None,
                }
            },
            None => None,
        }
    } else {
        None
    }
}

/// The label of port `index` (1-based) of a block: the name of the boundary
/// block serving it inside a subsystem, else the configured default name,
/// else `In<index>` or `Out<index>`.  A mirrored block swaps which side is
/// the input when looking the names up.
pub open spec fn port_label(block: Block, index: u32, is_input: bool, cfg: BlockTypeConfig) -> Seq<char> {
    let mirrored = match block.block_mirror {
        Some(m) => m,
        None => false,
    };
    let logical = if mirrored {
        !is_input
    } else {
        is_input
    };
    match boundary_port_name(block, index, logical) {
        Some(n) => n,
        None => {
            let names = if logical {
                cfg.input_port_names@
            } else {
                cfg.output_port_names@
            };
            if index > 0 && index <= names.len() {
                names[index - 1]@
            } else {
                (if is_input {
                    "In"@
                } else {
                    "Out"@
                }) + decimal(index as nat)
            }
        },
    }
}

/// The name an Inport/Outport block gives its port.
fn boundary_block_display_name(b: &Block) -> (r: Option<String>)
    ensures
        match r {
            Some(s) => boundary_display_name(*b) == Some(s@),
            None => boundary_display_name(*b) is None,
        },
{
    let cs = chars_of(b.name.as_str());
    let t = trim_chars(cs.as_slice());
    if t.len() > 0 {
        return Some(string_of(t.as_slice()));
    }
    let raw = match property_get(&b.properties, "Name") {
        Some(v) => Some(v),
        None => property_get(&b.properties, "name"),
    };
    match raw {
        Some(v) => {
            let vs = chars_of(v.as_str());
            let vt = trim_chars(vs.as_slice());
            if vt.len() > 0 {
                Some(string_of(vt.as_slice()))
            } else {
                None
            }
        },
        None => None,
    }
}

/// The name of the boundary block inside a subsystem block serving its
/// port `index`.
fn subsystem_boundary_port_name(block: &Block, index: u32, logical_is_input: bool) -> (r: Option<String>)
    ensures
        match r {
            Some(s) => boundary_port_name(*block, index, logical_is_input) == Some(s@),
            None => boundary_port_name(*block, index, logical_is_input) is None,
        },
{
    if !(str_eq(block.block_type.as_str(), "SubSystem") || str_eq(
        block.block_type.as_str(),
        "Reference",
    )) {
        return None;
    }
    let sub = match &block.subsystem {
        Some(s) => s,
        None => return None,
    };
    let ty = if logical_is_input {
        "Inport"
    } else {
        "Outport"
    };
    let mut k: usize = 0;
    while k < sub.blocks.len()
        invariant
            k <= sub.blocks@.len(),
            block.subsystem == Some(*sub),
            block.block_type@ == "SubSystem"@ || block.block_type@ == "Reference"@,
            ty@ == (if logical_is_input {
                "Inport"@
            } else {
                "Outport"@
            }),
            first_boundary_from(sub.blocks@, ty@, index, 0) == first_boundary_from(
                sub.blocks@,
                ty@,
                index,
                k as int,
            ),
        decreases sub.blocks@.len() - k,
    {
        let child = &sub.blocks[k];
        if str_eq(child.block_type.as_str(), ty) && boundary_port_index(child) == index {
            return boundary_block_display_name(child);
        }
        k = k + 1;
    }
    None
}

/// The label of port `index` (1-based) of a block.
pub fn port_label_display_name(block: &Block, index: u32, is_input: bool, cfg: &BlockTypeConfig) -> (r: String)
    ensures
        r@ == port_label(*block, index, is_input, *cfg),
{
    let mirrored = match block.block_mirror {
        Some(m) => m,
        None => false,
    };
    let logical = if mirrored {
        !is_input
    } else {
        is_input
    };
    match subsystem_boundary_port_name(block, index, logical) {
        Some(n) => n,
        None => {
            let names = if logical {
                &cfg.input_port_names
            } else {
                &cfg.output_port_names
            };
            if index > 0 && (index as usize) <= names.len() {
                names[(index - 1) as usize].clone()
            } else {
                let mut out = if is_input {
                    chars_of("In")
                } else {
                    chars_of("Out")
                };
                let d = decimal_chars(index as u64);
                crate::connection_targets::topology::push_chars(&mut out, d.as_slice());
                string_of(out.as_slice())
            }
        },
    }
}

/// Outside a subsystem, a port is labelled from the configured names of its
/// own side: an input port `index` (1-based) by the `index`-th input name,
/// an output port by the `index`-th output name; a mirrored block reads the
/// names of the other side. A port past the configured names is labelled
/// `In` or `Out` followed by its number, by the side it is drawn on.
pub proof fn lemma_labels_come_from_the_port_side(block: Block, index: u32, cfg: BlockTypeConfig)
    requires
        block.subsystem is None,
    ensures
        block.block_mirror != Some(true) && 1 <= index <= cfg.input_port_names@.len() ==> port_label(
            block,
            index,
            true,
            cfg,
        ) == cfg.input_port_names@[index - 1]@,
        block.block_mirror != Some(true) && 1 <= index <= cfg.output_port_names@.len() ==> port_label(
            block,
            index,
            false,
            cfg,
        ) == cfg.output_port_names@[index - 1]@,
        block.block_mirror == Some(true) && 1 <= index <= cfg.input_port_names@.len() ==> port_label(
            block,
            index,
            false,
            cfg,
        ) == cfg.input_port_names@[index - 1]@,
        block.block_mirror == Some(true) && 1 <= index <= cfg.output_port_names@.len() ==> port_label(
            block,
            index,
            true,
            cfg,
        ) == cfg.output_port_names@[index - 1]@,
        block.block_mirror != Some(true) && (index == 0 || index > cfg.output_port_names@.len()) ==> port_label(
            block,
            index,
            false,
            cfg,
        ) == seq!['O', 'u', 't'] + decimal(index as nat),
        block.block_mirror != Some(true) && (index == 0 || index > cfg.input_port_names@.len()) ==> port_label(
            block,
            index,
            true,
            cfg,
        ) == seq!['I', 'n'] + decimal(index as nat),
{
    reveal_strlit("In");
    reveal_strlit("Out");
    assert("In"@ =~= seq!['I', 'n']);
    assert("Out"@ =~= seq!['O', 'u', 't']);
}

proof fn lemma_first_boundary(blocks: Seq<Block>, ty: Seq<char>, index: u32, j: int, k: int)
    requires
        0 <= j <= k < blocks.len(),
        blocks[k].block_type@ == ty && boundary_port(blocks[k]) == index,
        forall|i: int| 0 <= i < k ==> !(#[trigger] blocks[i].block_type@ == ty && boundary_port(blocks[i]) == index),
    ensures
        first_boundary_from(blocks, ty, index, j) == Some(k),
    decreases k - j,
{
    if j < k {
        lemma_first_boundary(blocks, ty, index, j + 1, k);
    }
}

/// A port of a subsystem block (not mirrored) is labelled by the boundary
/// block serving it inside: the first Inport (for an input) or Outport
/// (for an output) numbered like the port, by its trimmed name when that
/// is not blank, whatever the configured names say.
pub proof fn lemma_subsystem_ports_take_boundary_names(block: Block, index: u32, is_input: bool, cfg: BlockTypeConfig, k: int)
    requires
        block.block_type@ == "SubSystem"@,
        block.block_mirror != Some(true),
        block.subsystem is Some,
        0 <= k < block.subsystem.unwrap().blocks@.len(),
        ({
            let bs = block.subsystem.unwrap().blocks@;
            let ty = if is_input { "Inport"@ } else { "Outport"@ };
            &&& bs[k].block_type@ == ty
            &&& boundary_port(bs[k]) == index
            &&& forall|i: int| 0 <= i < k ==> !(#[trigger] bs[i].block_type@ == ty && boundary_port(bs[i]) == index)
        }),
        trim(block.subsystem.unwrap().blocks@[k].name@).len() > 0,
    ensures
        port_label(block, index, is_input, cfg) == trim(block.subsystem.unwrap().blocks@[k].name@),
{
    let bs = block.subsystem.unwrap().blocks@;
    let ty = if is_input { "Inport"@ } else { "Outport"@ };
    lemma_first_boundary(bs, ty, index, 0, k);
}

} // verus!
