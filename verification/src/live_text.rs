//! Which blocks show their live value as text, mask display text, and the
//! titles of scope blocks.

use crate::connection_targets::graph::{branch_targets_block_sid, branches_reach, line_reaches, line_targets_block_sid};
use crate::corner_ops::branch_at;
use crate::model::{Block, Branch, DashboardBinding, Line};
use crate::text::{chars_of, str_eq, trim, trim_chars};
use vstd::prelude::*;

verus! {

/// The block types that show their value as text (a Constant shows its
/// value, a Display what it receives).
pub open spec fn shows_value_text_spec(block_type: Seq<char>) -> bool {
    block_type == "Constant"@ || block_type == "Display"@
}

/// Whether blocks of this type show their value as text.
pub fn shows_value_text(block_type: &str) -> (r: bool)
    ensures
        r == shows_value_text_spec(block_type@),
{
    str_eq(block_type, "Constant") || str_eq(block_type, "Display")
}

/// Whether blocks of this type draw their live value as text.
pub fn uses_live_value_text(block_type: &str) -> (r: bool)
    ensures
        r == shows_value_text_spec(block_type@),
{
    shows_value_text(block_type)
}

/// Whether a block of this type draws its live value as text: only in live
/// mode, and only for the types that show their value as text.
pub fn should_render_live_text(live_mode_enabled: bool, block_type: &str) -> (r: bool)
    ensures
        r == (live_mode_enabled && shows_value_text_spec(block_type@)),
{
    live_mode_enabled && uses_live_value_text(block_type)
}

/// Whether a block is drawn with its mask's display text: it is masked and
/// the text is not blank.
pub open spec fn uses_mask_display(block: Block) -> bool {
    block.mask is Some && match block.mask_display_text {
        Some(t) => trim(t@).len() > 0,
        None => false,
    }
}

/// Whether a block is drawn with its mask's display text.
pub fn should_use_mask_display(block: &Block) -> (r: bool)
    ensures
        r == uses_mask_display(*block),
{
    block.mask.is_some() && match &block.mask_display_text {
        Some(t) => {
            let cs = chars_of(t.as_str());
            trim_chars(cs.as_slice()).len() > 0
        },
        None => false,
    }
}

/// Whether a branch or one of its sub-branches ends at the block with SID
/// `sid`.
pub open spec fn branch_hits(b: Branch, sid: Seq<char>) -> bool {
    (match b.dst {
        Some(d) => d.sid@ == sid,
        None => false,
    }) || branches_reach(b.branches@, sid)
}

/// Whether a branch or one of its sub-branches ends at the block with SID
/// `sid`.
pub fn branch_hits_sid(branch: &Branch, sid: &str) -> (r: bool)
    ensures
        r == branch_hits(*branch, sid@),
{
    let direct = match &branch.dst {
        Some(d) => str_eq(d.sid.as_str(), sid),
        None => false,
    };
    direct || branch_targets_block_sid(&branch.branches, sid)
}

/// The name of the first line that ends at the block with SID `sid` and has
/// a non-blank name, from line `k` on.
pub open spec fn first_named_input_from(lines: Seq<Line>, sid: Seq<char>, k: int) -> Option<Seq<char>>
    decreases lines.len() - k,
{
    if k < 0 || k >= lines.len() {
        None
    } else if line_reaches(lines[k], sid) && (match lines[k].name {
        Some(n) => trim(n@).len() > 0,
        None => false,
    }) {
        match lines[k].name {
            Some(n) => Some(n@),
            None => None,
        }
    } else {
        first_named_input_from(lines, sid, k + 1)
    }
}

/// The name of the first named line reaching the block (none when it has no
/// SID).
pub open spec fn first_input_name(block: Block, lines: Seq<Line>) -> Option<Seq<char>> {
    match block.sid {
        Some(s) => first_named_input_from(lines, s@, 0),
        None => None,
    }
}

/// The name of the first named line reaching the block.
pub fn first_input_signal_name(block: &Block, lines: &[Line]) -> (r: Option<String>)
    ensures
        match r {
            Some(s) => first_input_name(*block, lines@) == Some(s@),
            None => first_input_name(*block, lines@) is None,
        },
{
    let sid = match &block.sid {
        Some(s) => s,
        None => return None,
    };
    let mut k: usize = 0;
    while k < lines.len()
        invariant
            k <= lines@.len(),
            first_input_name(*block, lines@) == first_named_input_from(lines@, sid@, k as int),
            block.sid == Some(*sid),
        decreases lines@.len() - k,
    {
        let line = &lines[k];
        if line_targets_block_sid(line, sid.as_str()) {
            if let Some(n) = &line.name {
                let cs = chars_of(n.as_str());
                if trim_chars(cs.as_slice()).len() > 0 {
                    return Some(n.clone());
                }
            }
        }
        k = k + 1;
    }
    None
}

/// The title of a scope block: the signal its dashboard binding names (when
/// not blank), else the first named line reaching it, else its own name.
pub open spec fn scope_title(block: Block, lines: Seq<Line>) -> Seq<char> {
    match block.dashboard_binding {
        Some(DashboardBinding::SignalSpec { signal_name, .. }) if trim(signal_name@).len() > 0 => signal_name@,
        _ => match first_input_name(block, lines) {
            Some(n) => n,
            None => block.name@,
        },
    }
}

/// The title of a scope block.
pub fn scope_title_for_block(block: &Block, lines: &[Line]) -> (r: String)
    ensures
        r@ == scope_title(*block, lines@),
{
    if let Some(DashboardBinding::SignalSpec { signal_name, .. }) = &block.dashboard_binding {
        let cs = chars_of(signal_name.as_str());
        if trim_chars(cs.as_slice()).len() > 0 {
            return signal_name.clone();
        }
    }
    match first_input_signal_name(block, lines) {
        Some(n) => n,
        None => block.name.clone(),
    }
}

/// Whether the line ends at the block with SID `sid`, itself or through a
/// branch at any depth of its branch tree.
pub open spec fn reaches_somewhere(l: Line, sid: Seq<char>) -> bool {
    ||| (l.dst matches Some(d) && d.sid@ == sid)
    ||| exists|path: Seq<int>| #[trigger] branch_at(l.branches@, path) matches Some(b) && (b.dst matches Some(d) && d.sid@ == sid)
}

/// Whether the line has a name that is not blank.
pub open spec fn has_visible_name(l: Line) -> bool {
    l.name matches Some(n) && trim(n@).len() > 0
}

proof fn lemma_reach_at(bs: Seq<Branch>, k: int, sid: Seq<char>)
    requires
        0 <= k < bs.len(),
        (bs[k].dst matches Some(d) && d.sid@ == sid) || branches_reach(bs[k].branches@, sid),
    ensures
        branches_reach(bs, sid),
    decreases bs.len(),
{
    if k < bs.len() - 1 {
        lemma_reach_at(bs.drop_last(), k, sid);
        assert(bs.drop_last()[k] == bs[k]);
    }
}

proof fn lemma_path_reaches(bs: Seq<Branch>, path: Seq<int>, sid: Seq<char>)
    requires
        branch_at(bs, path) matches Some(b) && (b.dst matches Some(d) && d.sid@ == sid),
    ensures
        branches_reach(bs, sid),
    decreases path.len(),
{
    let k = path[0];
    if path.len() > 1 {
        lemma_path_reaches(bs[k].branches@, path.drop_first(), sid);
    }
    lemma_reach_at(bs, k, sid);
}

proof fn lemma_reach_has_path(bs: Seq<Branch>, sid: Seq<char>)
    requires
        branches_reach(bs, sid),
    ensures
        exists|path: Seq<int>| #[trigger] branch_at(bs, path) matches Some(b) && (b.dst matches Some(d) && d.sid@ == sid),
    decreases bs,
{
    let n = bs.len() - 1;
    let last = bs.last();
    if branches_reach(bs.drop_last(), sid) {
        lemma_reach_has_path(bs.drop_last(), sid);
        let p = choose|path: Seq<int>| #[trigger] branch_at(bs.drop_last(), path) matches Some(b) && (b.dst matches Some(d) && d.sid@ == sid);
        assert(bs.drop_last()[p[0]] == bs[p[0]]);
        assert(branch_at(bs, p) == branch_at(bs.drop_last(), p));
    } else if last.dst matches Some(d) && d.sid@ == sid {
        assert(branch_at(bs, seq![n]) == Some(last));
    } else {
        assert(decreases_to!(bs => bs[n]));
        assert(branches_reach(last.branches@, sid));
        lemma_reach_has_path(last.branches@, sid);
        let p = choose|path: Seq<int>| #[trigger] branch_at(last.branches@, path) matches Some(b) && (b.dst matches Some(d) && d.sid@ == sid);
        let q = seq![n] + p;
        assert(q.drop_first() =~= p);
        assert(branch_at(bs, q) == branch_at(last.branches@, p));
    }
}

proof fn lemma_reaches_somewhere(l: Line, sid: Seq<char>)
    ensures
        line_reaches(l, sid) == reaches_somewhere(l, sid),
{
    if branches_reach(l.branches@, sid) {
        lemma_reach_has_path(l.branches@, sid);
    }
    if exists|path: Seq<int>| #[trigger] branch_at(l.branches@, path) matches Some(b) && (b.dst matches Some(d) && d.sid@ == sid) {
        let p = choose|path: Seq<int>| #[trigger] branch_at(l.branches@, path) matches Some(b) && (b.dst matches Some(d) && d.sid@ == sid);
        lemma_path_reaches(l.branches@, p, sid);
    }
}

proof fn lemma_first_named_from(lines: Seq<Line>, sid: Seq<char>, j: int, k: int)
    requires
        0 <= j <= k < lines.len(),
        reaches_somewhere(lines[k], sid),
        has_visible_name(lines[k]),
        forall|i: int| 0 <= i < k && reaches_somewhere(#[trigger] lines[i], sid) ==> !has_visible_name(lines[i]),
    ensures
        first_named_input_from(lines, sid, j) == Some(lines[k].name.unwrap()@),
    decreases k - j,
{
    lemma_reaches_somewhere(lines[j], sid);
    if j < k {
        lemma_first_named_from(lines, sid, j + 1, k);
    }
}

proof fn lemma_none_named_from(lines: Seq<Line>, sid: Seq<char>, j: int)
    requires
        0 <= j,
        forall|i: int| 0 <= i < lines.len() && reaches_somewhere(#[trigger] lines[i], sid) ==> !has_visible_name(lines[i]),
    ensures
        first_named_input_from(lines, sid, j) is None,
    decreases lines.len() - j,
{
    if j < lines.len() {
        lemma_reaches_somewhere(lines[j], sid);
        lemma_none_named_from(lines, sid, j + 1);
    }
}

/// A scope without a named dashboard signal is titled by the first line,
/// in line order, that reaches it (directly or through a branch at any
/// depth) and has a non-blank name; with no such line, by its own name.
pub proof fn lemma_scope_title_from_first_named_input(block: Block, lines: Seq<Line>, k: int)
    requires
        block.sid is Some,
        !(block.dashboard_binding matches Some(DashboardBinding::SignalSpec { signal_name, .. }) && trim(signal_name@).len() > 0),
    ensures
        (0 <= k < lines.len() && reaches_somewhere(lines[k], block.sid.unwrap()@) && has_visible_name(lines[k])
            && forall|i: int| 0 <= i < k && reaches_somewhere(#[trigger] lines[i], block.sid.unwrap()@) ==> !has_visible_name(lines[i]))
            ==> scope_title(block, lines) == lines[k].name.unwrap()@,
        (forall|i: int| 0 <= i < lines.len() && reaches_somewhere(#[trigger] lines[i], block.sid.unwrap()@) ==> !has_visible_name(lines[i]))
            ==> scope_title(block, lines) == block.name@,
{
    let sid = block.sid.unwrap()@;
    if 0 <= k < lines.len() && reaches_somewhere(lines[k], sid) && has_visible_name(lines[k]) && forall|i: int|
        0 <= i < k && reaches_somewhere(#[trigger] lines[i], sid) ==> !has_visible_name(lines[i]) {
        lemma_first_named_from(lines, sid, 0, k);
    }
    if forall|i: int| 0 <= i < lines.len() && reaches_somewhere(#[trigger] lines[i], sid) ==> !has_visible_name(lines[i]) {
        lemma_none_named_from(lines, sid, 0);
    }
}

} // verus!
