//! The code a block carries: the `Script` of a MATLAB Function, the `Code`
//! of a C Function, or the `Expr` of an expression block.

use crate::model::Block;
use crate::properties::{list_inserted, pairs_form, property_contains, property_entries, property_get, property_insert, property_list};
use vstd::prelude::*;

verus! {

/// The property that holds a block's code: the first of `Script`, `Code`
/// and `Expr` the block has, else `Script`.
pub open spec fn code_key(props: Map<Seq<char>, Seq<char>>) -> Seq<char> {
    if props.dom().contains("Script"@) {
        "Script"@
    } else if props.dom().contains("Code"@) {
        "Code"@
    } else if props.dom().contains("Expr"@) {
        "Expr"@
    } else {
        "Script"@
    }
}

/// A block's code: the value of its code property, or empty.
pub open spec fn code_of(props: Map<Seq<char>, Seq<char>>) -> Seq<char> {
    if props.dom().contains(code_key(props)) {
        props[code_key(props)]
    } else {
        Seq::empty()
    }
}

/// The block's code (empty when it has none).
pub fn get_block_code(block: &Block) -> (r: String)
    ensures
        r@ == code_of(property_entries(block.properties)),
{
    proof {
        reveal_strlit("Script");
        reveal_strlit("Code");
        reveal_strlit("Expr");
    }
    if let Some(script) = property_get(&block.properties, "Script") {
        return script.clone();
    }
    if let Some(code) = property_get(&block.properties, "Code") {
        return code.clone();
    }
    if let Some(expr) = property_get(&block.properties, "Expr") {
        return expr.clone();
    }
    String::new()
}

/// Stores `code` in the block's code property (creating `Script`, last in
/// order, when the block has none); nothing else changes.
pub fn set_block_code(block: &mut Block, code: &str)
    ensures
        property_entries(final(block).properties) == property_entries(old(block).properties).insert(
            code_key(property_entries(old(block).properties)),
            code@,
        ),
        property_list(final(block).properties) == list_inserted(
            property_list(old(block).properties),
            code_key(property_entries(old(block).properties)),
            code@,
        ),
        property_entries(old(block).properties).dom().contains(code_key(property_entries(old(block).properties)))
            ==> exists|i: int|
            0 <= i < property_list(old(block).properties).len() && #[trigger] property_list(
                old(block).properties,
            )[i].0 == code_key(property_entries(old(block).properties)) && property_list(
                final(block).properties,
            ) == property_list(old(block).properties).update(
                i,
                (code_key(property_entries(old(block).properties)), code@),
            ),
        !property_entries(old(block).properties).dom().contains(code_key(property_entries(old(block).properties)))
            ==> property_list(final(block).properties) == property_list(old(block).properties).push(
            (code_key(property_entries(old(block).properties)), code@),
        ),
        final(block).block_type == old(block).block_type,
        final(block).name == old(block).name,
        final(block).sid == old(block).sid,
        final(block).commented == old(block).commented,
        final(block).value == old(block).value,
        final(block).port_counts == old(block).port_counts,
        final(block).ports == old(block).ports,
        final(block).subsystem == old(block).subsystem,
        final(block).mask == old(block).mask,
        final(block).mask_display_text == old(block).mask_display_text,
        final(block).current_setting == old(block).current_setting,
        final(block).block_mirror == old(block).block_mirror,
        final(block).dashboard_binding == old(block).dashboard_binding,
{
    proof {
        reveal_strlit("Script");
        reveal_strlit("Code");
        reveal_strlit("Expr");
    }
    let key = if property_contains(&block.properties, "Script") {
        "Script"
    } else if property_contains(&block.properties, "Code") {
        "Code"
    } else if property_contains(&block.properties, "Expr") {
        "Expr"
    } else {
        "Script"
    };
    property_insert(&mut block.properties, key.to_string(), code.to_string());
}

/// Reading a block's code after writing it gives back what was written.
pub proof fn lemma_code_read_after_write(props: Map<Seq<char>, Seq<char>>, code: Seq<char>)
    ensures
        code_of(props.insert(code_key(props), code)) == code,
{
    reveal_strlit("Script");
    reveal_strlit("Code");
    reveal_strlit("Expr");
    let n = props.insert(code_key(props), code);
    assert(n.dom().contains(code_key(props)));
    assert(code_key(n) == code_key(props));
}

} // verus!
