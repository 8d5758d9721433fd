//! Variant subsystems: which variant is active, and the sim/codegen
//! switching mode.

use crate::model::{Block, System};
use crate::properties::{prop, property_contains, property_entries, property_get};
use crate::text::{chars_eq, chars_of, split_char, trim, trim_chars};
use vstd::prelude::*;

verus! {

/// Which variant is active in "sim codegen switching" mode.
#[derive(Debug, Clone, Copy, PartialEq, Eq, Default, Structural)]
pub enum SimCodegenMode {
    /// The `(codegen)` variant (the default).
    #[default]
    Codegen,
    /// The `(sim)` variant.
    Sim,
}

/// Whether a system is a variant subsystem: some block in it has a
/// `VariantControl` property.
pub open spec fn is_variant_system_spec(system: System) -> bool {
    exists|i: int|
        0 <= i < system.blocks@.len() && #[trigger] property_entries(
            system.blocks@[i].properties,
        ).dom().contains("VariantControl"@)
}

/// Whether a system is a variant subsystem.
pub fn is_variant_system(system: &System) -> (r: bool)
    ensures
        r == is_variant_system_spec(*system),
{
    let mut i: usize = 0;
    while i < system.blocks.len()
        invariant
            i <= system.blocks@.len(),
            forall|k: int|
                0 <= k < i ==> !(#[trigger] property_entries(system.blocks@[k].properties)).dom().contains(
                    "VariantControl"@,
                ),
        decreases system.blocks@.len() - i,
    {
        if property_contains(&system.blocks[i].properties, "VariantControl") {
            return true;
        }
        i = i + 1;
    }
    false
}

/// The 1-based positions of the pieces among the first `n` that read
/// `true` once trimmed.
pub open spec fn true_positions(parts: Seq<Seq<char>>, n: int) -> Seq<int>
    decreases n,
{
    if n <= 0 {
        Seq::empty()
    } else if trim(parts[n - 1]) == "true"@ {
        true_positions(parts, n - 1).push(n)
    } else {
        true_positions(parts, n - 1)
    }
}

/// The port of the active variant of a VariantStart/End/Sink/Source block:
/// the position of the one `true` among its `;`-separated
/// `VariantControls`; none when there is no such property or not exactly
/// one `true`.
pub open spec fn active_port(block: Block) -> Option<u32> {
    match prop(block.properties, "VariantControls"@) {
        None => None,
        Some(c) => {
            let parts = split_char(c, ';');
            let t = true_positions(parts, parts.len() as int);
            if t.len() == 1 {
                Some(t[0] as u32)
            } else {
                None
            }
        },
    }
}

/// Whether a piece reads `true` once trimmed.
fn piece_is_true(cur: &Vec<char>) -> (r: bool)
    ensures
        r == (trim(cur@) == "true"@),
{
    let t = trim_chars(cur.as_slice());
    let lit = chars_of("true");
    chars_eq(t.as_slice(), lit.as_slice())
}

/// The 1-based position `f + 1` of the 0-based position `f`, as a `u32`
/// (truncated as a cast truncates).
fn one_based(f: usize) -> (r: u32)
    ensures
        r == (f + 1) as u32,
{
    let x = f as u32;
    let r = x.wrapping_add(1);
    assert(r == (f + 1) as u32) by (bit_vector)
        requires
            r == (if x + 1 > u32::MAX {
                (x + 1 - 0x1_0000_0000) as u32
            } else {
                (x + 1) as u32
            }),
            x == f as u32,
    ;
    r
}

/// The port of the active variant of a VariantStart/End/Sink/Source block.
pub fn active_variant_port_index(block: &Block) -> (r: Option<u32>)
    ensures
        r == active_port(*block),
{
    let controls = match property_get(&block.properties, "VariantControls") {
        Some(c) => c,
        None => return None,
    };
    let s = chars_of(controls.as_str());
    let mut cur: Vec<char> = Vec::new();
    let ghost mut done: Seq<Seq<char>> = Seq::empty();
    let mut found: Option<usize> = None;
    let mut count: usize = 0;
    let mut pieces: usize = 0;
    let mut i: usize = 0;
    assert(s@.take(0) =~= Seq::<char>::empty());
    while i < s.len()
        invariant
            i <= s@.len(),
            split_char(s@.take(i as int), ';') == done.push(cur@),
            done.len() <= i,
            pieces == done.len(),
            count <= done.len(),
            count == true_positions(done, done.len() as int).len() || (count == 2
                && true_positions(done, done.len() as int).len() >= 2),
            count == 1 ==> found == Some((true_positions(done, done.len() as int)[0] - 1) as usize),
            count >= 1 ==> found is Some,
            forall|j: int|
                0 <= j < true_positions(done, done.len() as int).len() ==> 1 <= #[trigger] true_positions(
                    done,
                    done.len() as int,
                )[j] <= done.len(),
        decreases s@.len() - i,
    {
        let c = s[i];
        assert(s@.take(i + 1).drop_last() =~= s@.take(i as int));
        assert(s@.take(i + 1).last() == c);
        if c == ';' {
            let t = piece_is_true(&cur);
            proof {
                assert(done.push(cur@)[done.len() as int] == cur@);
                assert(done.push(cur@).take(done.len() as int) =~= done);
            }
            let ghost old_done = done;
            proof {
                done = done.push(cur@);
                lemma_true_positions_prefix(done, old_done.len() as int);
            }
            if t {
                if count == 0 {
                    found = Some(pieces);
                    count = 1;
                } else {
                    count = 2;
                }
            }
            pieces = pieces + 1;
            cur = Vec::new();
            assert(split_char(s@.take(i + 1), ';') =~= done.push(cur@));
        } else {
            cur.push(c);
            assert(split_char(s@.take(i + 1), ';') =~= done.push(cur@));
        }
        i = i + 1;
    }
    assert(s@.take(s@.len() as int) =~= s@);
    let t = piece_is_true(&cur);
    let ghost old_done = done;
    let ghost parts = done.push(cur@);
    proof {
        assert(parts.take(old_done.len() as int) =~= old_done);
        lemma_true_positions_prefix(parts, old_done.len() as int);
    }
    if t {
        if count == 0 {
            found = Some(pieces);
            count = 1;
        } else {
            count = 2;
        }
    }
    if count == 1 {
        match found {
            Some(f) => Some(one_based(f)),
            None => None,
        }
    } else {
        None
    }
}

proof fn lemma_true_positions_prefix(parts: Seq<Seq<char>>, k: int)
    requires
        0 <= k < parts.len(),
    ensures
        true_positions(parts, k + 1) == if trim(parts[k]) == "true"@ {
            true_positions(parts.take(k), k).push(k + 1)
        } else {
            true_positions(parts.take(k), k)
        },
        true_positions(parts.take(k), k) == true_positions(parts, k),
{
    lemma_true_positions_same(parts, parts.take(k), k);
}

proof fn lemma_true_positions_same(a: Seq<Seq<char>>, b: Seq<Seq<char>>, n: int)
    requires
        0 <= n <= a.len(),
        n <= b.len(),
        forall|i: int| 0 <= i < n ==> a[i] == b[i],
    ensures
        true_positions(a, n) == true_positions(b, n),
    decreases n,
{
    if n > 0 {
        lemma_true_positions_same(a, b, n - 1);
    }
}

/// Whether a block's `VariantControl`, trimmed, reads `v`.
pub open spec fn control_is(b: Block, v: Seq<char>) -> bool {
    match prop(b.properties, "VariantControl"@) {
        Some(x) => trim(x) == v,
        None => false,
    }
}

/// The position of the first block from `k` on whose control reads `v`.
pub open spec fn first_control_from(blocks: Seq<Block>, v: Seq<char>, k: int) -> Option<int>
    decreases blocks.len() - k,
{
    if k < 0 || k >= blocks.len() {
        None
    } else if control_is(blocks[k], v) {
        Some(k)
    } else {
        first_control_from(blocks, v, k + 1)
    }
}

/// The SID of the first block whose control reads `v` (none when there is
/// no such block or it has no SID).
pub open spec fn sid_of_first_control(blocks: Seq<Block>, v: Seq<char>) -> Option<Seq<char>> {
    match first_control_from(blocks, v, 0) {
        Some(i) => match blocks[i].sid {
            Some(s) => Some(s@),
            None => None,
        },
        None => None,
    }
}

/// The positions of the first `n` blocks whose control reads `true`.
pub open spec fn true_blocks(blocks: Seq<Block>, n: int) -> Seq<int>
    decreases n,
{
    if n <= 0 {
        Seq::empty()
    } else if control_is(blocks[n - 1], "true"@) {
        true_blocks(blocks, n - 1).push(n - 1)
    } else {
        true_blocks(blocks, n - 1)
    }
}

/// The SID of the active variant child of a variant subsystem, when it can
/// be told from the model: in label mode the child whose control is the
/// parent's `LabelModeActiveChoice` (not blank); in sim/codegen switching
/// mode the child whose control is `(codegen)` or `(sim)` as `mode` says;
/// otherwise the one child whose control is the literal `true`.
pub open spec fn active_child(system: System, parent: Option<Block>, mode: SimCodegenMode) -> Option<Seq<char>> {
    let control_mode = match parent {
        Some(p) => match prop(p.properties, "VariantControlMode"@) {
            Some(m) => Some(trim(m)),
            None => None,
        },
        None => None,
    };
    if control_mode == Some("label"@) {
        match parent {
            Some(p) => match prop(p.properties, "LabelModeActiveChoice"@) {
                Some(a) => if trim(a).len() == 0 {
                    None
                } else {
                    sid_of_first_control(system.blocks@, trim(a))
                },
                None => None,
            },
            None => None,
        }
    } else if control_mode == Some("sim codegen switching"@) {
        sid_of_first_control(
            system.blocks@,
            match mode {
                SimCodegenMode::Codegen => "(codegen)"@,
                SimCodegenMode::Sim => "(sim)"@,
            },
        )
    } else {
        let t = true_blocks(system.blocks@, system.blocks@.len() as int);
        if t.len() == 1 {
            match system.blocks@[t[0]].sid {
                Some(s) => Some(s@),
                None => None,
            }
        } else {
            None
        }
    }
}

/// An optional block taken by value.
pub open spec fn opt_block(b: Option<&Block>) -> Option<Block> {
    match b {
        Some(x) => Some(*x),
        None => None,
    }
}

/// Whether a block's `VariantControl`, trimmed, reads `v`.
fn control_is_exec(b: &Block, v: &[char]) -> (r: bool)
    ensures
        r == control_is(*b, v@),
{
    match property_get(&b.properties, "VariantControl") {
        Some(x) => {
            let cs = chars_of(x.as_str());
            let t = trim_chars(cs.as_slice());
            chars_eq(t.as_slice(), v)
        },
        None => false,
    }
}

/// The SID of the first block whose control reads `v`.
fn sid_of_first_control_exec(system: &System, v: &[char]) -> (r: Option<String>)
    ensures
        match r {
            Some(s) => sid_of_first_control(system.blocks@, v@) == Some(s@),
            None => sid_of_first_control(system.blocks@, v@) is None,
        },
{
    let mut k: usize = 0;
    while k < system.blocks.len()
        invariant
            k <= system.blocks@.len(),
            first_control_from(system.blocks@, v@, 0) == first_control_from(
                system.blocks@,
                v@,
                k as int,
            ),
        decreases system.blocks@.len() - k,
    {
        if control_is_exec(&system.blocks[k], v) {
            return match &system.blocks[k].sid {
                Some(s) => Some(s.clone()),
                None => None,
            };
        }
        k = k + 1;
    }
    None
}

/// The SID of the active variant child of a variant subsystem, when it can
/// be told from the model.
pub fn active_variant_child_sid(system: &System, parent_block: Option<&Block>, mode: SimCodegenMode) -> (r: Option<String>)
    ensures
        match r {
            Some(s) => active_child(*system, opt_block(parent_block), mode) == Some(s@),
            None => active_child(*system, opt_block(parent_block), mode) is None,
        },
{
    let control_mode: Option<Vec<char>> = match parent_block {
        Some(p) => match property_get(&p.properties, "VariantControlMode") {
            Some(m) => {
                let cs = chars_of(m.as_str());
                Some(trim_chars(cs.as_slice()))
            },
            None => None,
        },
        None => None,
    };
    let is_label = match &control_mode {
        Some(m) => chars_eq(m.as_slice(), chars_of("label").as_slice()),
        None => false,
    };
    let is_switching = match &control_mode {
        Some(m) => chars_eq(m.as_slice(), chars_of("sim codegen switching").as_slice()),
        None => false,
    };
    if is_label {
        let p = match parent_block {
            Some(p) => p,
            None => return None,
        };
        match property_get(&p.properties, "LabelModeActiveChoice") {
            Some(a) => {
                let cs = chars_of(a.as_str());
                let t = trim_chars(cs.as_slice());
                if t.len() == 0 {
                    None
                } else {
                    sid_of_first_control_exec(system, t.as_slice())
                }
            },
            None => None,
        }
    } else if is_switching {
        let target = match mode {
            SimCodegenMode::Codegen => chars_of("(codegen)"),
            SimCodegenMode::Sim => chars_of("(sim)"),
        };
        sid_of_first_control_exec(system, target.as_slice())
    } else {
        let lit = chars_of("true");
        let mut found: Option<usize> = None;
        let mut count: usize = 0;
        let mut k: usize = 0;
        while k < system.blocks.len()
            invariant
                k <= system.blocks@.len(),
                lit@ == "true"@,
                count <= k,
                count == true_blocks(system.blocks@, k as int).len() || (count == 2
                    && true_blocks(system.blocks@, k as int).len() >= 2),
                count == 1 ==> found == Some(true_blocks(system.blocks@, k as int)[0] as usize),
                forall|j: int|
                    0 <= j < true_blocks(system.blocks@, k as int).len() ==> 0 <= #[trigger] true_blocks(
                        system.blocks@,
                        k as int,
                    )[j] < k,
            decreases system.blocks@.len() - k,
        {
            if control_is_exec(&system.blocks[k], lit.as_slice()) {
                if count == 0 {
                    found = Some(k);
                    count = 1;
                } else {
                    count = 2;
                }
            }
            k = k + 1;
        }
        if count == 1 {
            match found {
                Some(f) => match &system.blocks[f].sid {
                    Some(s) => Some(s.clone()),
                    None => None,
                },
                None => None,
            }
        } else {
            None
        }
    }
}

/// Whether `b`'s `VariantControl` property, trimmed, is the literal `true`.
pub open spec fn control_reads_true(b: Block) -> bool {
    match prop(b.properties, "VariantControl"@) {
        Some(x) => trim(x) == seq!['t', 'r', 'u', 'e'],
        None => false,
    }
}

/// Whether the parent's `VariantControlMode`, trimmed, is `label` or
/// `sim codegen switching`.
pub open spec fn named_control_mode(parent: Option<Block>) -> bool {
    match parent {
        Some(p) => match prop(p.properties, "VariantControlMode"@) {
            Some(m) => trim(m) == "label"@ || trim(m) == "sim codegen switching"@,
            None => false,
        },
        None => false,
    }
}

proof fn lemma_true_blocks_single(blocks: Seq<Block>, n: int, k: int)
    requires
        0 <= k < blocks.len(),
        n <= blocks.len(),
        control_reads_true(blocks[k]),
        forall|j: int| 0 <= j < blocks.len() && j != k ==> !control_reads_true(#[trigger] blocks[j]),
    ensures
        true_blocks(blocks, n) == (if k < n {
            seq![k]
        } else {
            Seq::<int>::empty()
        }),
    decreases n,
{
    reveal_strlit("true");
    assert("true"@ =~= seq!['t', 'r', 'u', 'e']);
    if n > 0 {
        lemma_true_blocks_single(blocks, n - 1, k);
        if n - 1 == k {
            assert(control_is(blocks[k], "true"@));
            assert(Seq::<int>::empty().push(k) =~= seq![k]);
        } else {
            assert(!control_is(blocks[n - 1], "true"@));
        }
    }
}

proof fn lemma_true_blocks_two(blocks: Seq<Block>, n: int, a: int, b: int)
    requires
        0 <= a < b < n <= blocks.len(),
        control_reads_true(blocks[a]),
        control_reads_true(blocks[b]),
    ensures
        true_blocks(blocks, n).len() >= 2,
    decreases n,
{
    reveal_strlit("true");
    assert("true"@ =~= seq!['t', 'r', 'u', 'e']);
    if b < n - 1 {
        lemma_true_blocks_two(blocks, n - 1, a, b);
    } else {
        lemma_true_blocks_has(blocks, n - 1, a);
        assert(control_is(blocks[b], "true"@));
    }
}

proof fn lemma_true_blocks_has(blocks: Seq<Block>, n: int, a: int)
    requires
        0 <= a < n <= blocks.len(),
        control_reads_true(blocks[a]),
    ensures
        true_blocks(blocks, n).len() >= 1,
    decreases n,
{
    reveal_strlit("true");
    assert("true"@ =~= seq!['t', 'r', 'u', 'e']);
    if a < n - 1 {
        lemma_true_blocks_has(blocks, n - 1, a);
    } else {
        assert(control_is(blocks[a], "true"@));
    }
}

/// Outside label and sim/codegen switching mode the active child is told
/// by a literal `true` control: when exactly one child's control reads
/// `true`, that child is active (its SID is the answer), and when two or
/// more do, none is.
pub proof fn lemma_expression_mode_picks_the_true_child(system: System, parent: Option<Block>, mode: SimCodegenMode, k: int, j: int)
    requires
        !named_control_mode(parent),
    ensures
        (0 <= k < system.blocks@.len() && control_reads_true(system.blocks@[k]) && forall|i: int|
            0 <= i < system.blocks@.len() && i != k ==> !control_reads_true(#[trigger] system.blocks@[i]))
            ==> active_child(system, parent, mode) == match system.blocks@[k].sid {
            Some(s) => Some(s@),
            None => None,
        },
        (0 <= j < k < system.blocks@.len() && control_reads_true(system.blocks@[j]) && control_reads_true(
            system.blocks@[k],
        )) ==> active_child(system, parent, mode) is None,
{
    reveal_strlit("label");
    reveal_strlit("sim codegen switching");
    let bs = system.blocks@;
    if 0 <= k < bs.len() && control_reads_true(bs[k]) && forall|i: int|
        0 <= i < bs.len() && i != k ==> !control_reads_true(#[trigger] bs[i]) {
        lemma_true_blocks_single(bs, bs.len() as int, k);
    }
    if 0 <= j < k < bs.len() && control_reads_true(bs[j]) && control_reads_true(bs[k]) {
        lemma_true_blocks_two(bs, bs.len() as int, j, k);
    }
}

/// Whether `b`'s `VariantControl` property, trimmed, is `v`.
pub open spec fn control_reads(b: Block, v: Seq<char>) -> bool {
    prop(b.properties, "VariantControl"@) matches Some(x) && trim(x) == v
}

/// The SID of `b`, by its characters.
pub open spec fn sid_text(b: Block) -> Option<Seq<char>> {
    match b.sid {
        Some(s) => Some(s@),
        None => None,
    }
}

proof fn lemma_first_control(blocks: Seq<Block>, v: Seq<char>, j: int, k: int)
    requires
        0 <= j <= k < blocks.len(),
        control_reads(blocks[k], v),
        forall|i: int| 0 <= i < k ==> !control_reads(#[trigger] blocks[i], v),
    ensures
        first_control_from(blocks, v, j) == Some(k),
    decreases k - j,
{
    if j < k {
        lemma_first_control(blocks, v, j + 1, k);
    }
}

proof fn lemma_no_control(blocks: Seq<Block>, v: Seq<char>, j: int)
    requires
        0 <= j,
        forall|i: int| 0 <= i < blocks.len() ==> !control_reads(#[trigger] blocks[i], v),
    ensures
        first_control_from(blocks, v, j) is None,
    decreases blocks.len() - j,
{
    if j < blocks.len() {
        lemma_no_control(blocks, v, j + 1);
    }
}

/// In label mode the active child is the first child whose control reads
/// the parent's active choice (both trimmed); there is none when the
/// choice is blank or no child's control reads it.
pub proof fn lemma_label_mode_picks_the_chosen_child(system: System, p: Block, mode: SimCodegenMode, m: Seq<char>, a: Seq<char>, k: int)
    requires
        prop(p.properties, "VariantControlMode"@) == Some(m),
        trim(m) == seq!['l', 'a', 'b', 'e', 'l'],
        prop(p.properties, "LabelModeActiveChoice"@) == Some(a),
    ensures
        (trim(a).len() > 0 && 0 <= k < system.blocks@.len() && control_reads(system.blocks@[k], trim(a))
            && forall|i: int| 0 <= i < k ==> !control_reads(#[trigger] system.blocks@[i], trim(a)))
            ==> active_child(system, Some(p), mode) == sid_text(system.blocks@[k]),
        (trim(a).len() == 0 || forall|i: int| 0 <= i < system.blocks@.len() ==> !control_reads(#[trigger] system.blocks@[i], trim(a)))
            ==> active_child(system, Some(p), mode) is None,
{
    reveal_strlit("label");
    assert("label"@ =~= seq!['l', 'a', 'b', 'e', 'l']);
    let bs = system.blocks@;
    if trim(a).len() > 0 && 0 <= k < bs.len() && control_reads(bs[k], trim(a)) && forall|i: int|
        0 <= i < k ==> !control_reads(#[trigger] bs[i], trim(a)) {
        lemma_first_control(bs, trim(a), 0, k);
    }
    if trim(a).len() > 0 && forall|i: int| 0 <= i < bs.len() ==> !control_reads(#[trigger] bs[i], trim(a)) {
        lemma_no_control(bs, trim(a), 0);
    }
}

/// In sim/codegen switching mode the active child is the first child whose
/// control reads `(sim)` when simulating and `(codegen)` when generating
/// code.
pub proof fn lemma_switching_mode_follows_the_mode(system: System, p: Block, mode: SimCodegenMode, m: Seq<char>, k: int)
    requires
        prop(p.properties, "VariantControlMode"@) == Some(m),
        trim(m) == "sim codegen switching"@,
    ensures
        ({
            let v = match mode {
                SimCodegenMode::Sim => seq!['(', 's', 'i', 'm', ')'],
                SimCodegenMode::Codegen => seq!['(', 'c', 'o', 'd', 'e', 'g', 'e', 'n', ')'],
            };
            (0 <= k < system.blocks@.len() && control_reads(system.blocks@[k], v) && forall|i: int|
                0 <= i < k ==> !control_reads(#[trigger] system.blocks@[i], v)) ==> active_child(
                system,
                Some(p),
                mode,
            ) == sid_text(system.blocks@[k])
        }),
{
    reveal_strlit("label");
    reveal_strlit("sim codegen switching");
    reveal_strlit("(sim)");
    reveal_strlit("(codegen)");
    assert("(sim)"@ =~= seq!['(', 's', 'i', 'm', ')']);
    assert("(codegen)"@ =~= seq!['(', 'c', 'o', 'd', 'e', 'g', 'e', 'n', ')']);
    assert("label"@.len() == 5);
    assert("sim codegen switching"@.len() == 21);
    assert(trim(m) != "label"@);
    let v = match mode {
        SimCodegenMode::Sim => seq!['(', 's', 'i', 'm', ')'],
        SimCodegenMode::Codegen => seq!['(', 'c', 'o', 'd', 'e', 'g', 'e', 'n', ')'],
    };
    let bs = system.blocks@;
    if 0 <= k < bs.len() && control_reads(bs[k], v) && forall|i: int|
        0 <= i < k ==> !control_reads(#[trigger] bs[i], v) {
        lemma_first_control(bs, v, 0, k);
    }
}

} // verus!
