//! Pure lookups over the model graph: blocks by SID, the lines that end at
//! or start from a block, ports and paths.

use crate::connection_targets::topology::{line_identity, same_line};
use crate::model::{Block, Branch, DashboardBinding, DashboardTargetPath, Line, System};
use crate::properties::{prop, property_get};
use crate::text::{append_segment, chars_of, chars_starts_with, chars_eq, concat_chars, has_prefix, join_nonempty, normalize_each, normalize_path, normalize_path_chars, normalize_ws, normalize_ws_chars, parse_u32, string_of, trim, trim_chars};
use vstd::prelude::*;

verus! {

/// Whether the block has the given SID.
pub open spec fn has_sid(b: Block, sid: Seq<char>) -> bool {
    match b.sid {
        Some(s) => s@ == sid,
        None => false,
    }
}

/// The position of the last block with the given SID (a lookup table built
/// from the blocks in order keeps the last of equal keys).
pub open spec fn block_by_sid(blocks: Seq<Block>, sid: Seq<char>) -> Option<int>
    decreases blocks.len(),
{
    if blocks.len() == 0 {
        None
    } else if has_sid(blocks.last(), sid) {
        Some(blocks.len() - 1)
    } else {
        block_by_sid(blocks.drop_last(), sid)
    }
}

proof fn lemma_block_by_sid_range(blocks: Seq<Block>, sid: Seq<char>)
    ensures
        block_by_sid(blocks, sid) matches Some(i) ==> 0 <= i < blocks.len(),
    decreases blocks.len(),
{
    if blocks.len() > 0 && !has_sid(blocks.last(), sid) {
        lemma_block_by_sid_range(blocks.drop_last(), sid);
    }
}

/// Whether the block has the given SID.
pub fn block_has_sid(b: &Block, sid: &str) -> (r: bool)
    ensures
        r == has_sid(*b, sid@),
{
    match &b.sid {
        Some(s) => crate::text::str_eq(s.as_str(), sid),
        None => false,
    }
}

/// The position of the last block of `system` with the given SID.
pub fn lookup_block(system: &System, sid: &str) -> (r: Option<usize>)
    ensures
        match r {
            Some(i) => block_by_sid(system.blocks@, sid@) == Some(i as int) && i
                < system.blocks@.len(),
            None => block_by_sid(system.blocks@, sid@) is None,
        },
{
    let mut k: usize = system.blocks.len();
    assert(system.blocks@.take(k as int) =~= system.blocks@);
    while k > 0
        invariant
            k <= system.blocks@.len(),
            block_by_sid(system.blocks@, sid@) == block_by_sid(system.blocks@.take(k as int), sid@),
        decreases k,
    {
        let ghost pre = system.blocks@.take(k as int);
        assert(pre.drop_last() =~= system.blocks@.take(k - 1));
        if block_has_sid(&system.blocks[k - 1], sid) {
            return Some(k - 1);
        }
        k = k - 1;
    }
    None
}

/// Whether a branch tree reaches a block with the given SID.
pub open spec fn branches_reach(bs: Seq<Branch>, sid: Seq<char>) -> bool
    decreases bs,
{
    if bs.len() == 0 {
        false
    } else {
        let b = bs.last();
        branches_reach(bs.drop_last(), sid) || (match b.dst {
            Some(d) => d.sid@ == sid,
            None => false,
        }) || branches_reach(b.branches@, sid)
    }
}

proof fn lemma_reach_prefix(bs: Seq<Branch>, k: int, sid: Seq<char>)
    requires
        0 <= k <= bs.len(),
        branches_reach(bs.take(k), sid),
    ensures
        branches_reach(bs, sid),
    decreases bs.len(),
{
    if k == bs.len() {
        assert(bs.take(k) =~= bs);
    } else {
        assert(bs.drop_last().take(k) =~= bs.take(k));
        lemma_reach_prefix(bs.drop_last(), k, sid);
    }
}

/// Whether a branch tree reaches a block with the given SID.
pub fn branch_targets_block_sid(bs: &Vec<Branch>, sid: &str) -> (r: bool)
    ensures
        r == branches_reach(bs@, sid@),
    decreases bs@,
{
    let mut i: usize = 0;
    assert(bs@.take(0) =~= Seq::<Branch>::empty());
    while i < bs.len()
        invariant
            i <= bs@.len(),
            !branches_reach(bs@.take(i as int), sid@),
        decreases bs@.len() - i,
    {
        let b = &bs[i];
        assert(bs@.take(i + 1).drop_last() =~= bs@.take(i as int));
        let hit = match &b.dst {
            Some(d) => crate::text::str_eq(d.sid.as_str(), sid),
            None => false,
        };
        if hit {
            proof {
                lemma_reach_prefix(bs@, i + 1, sid@);
            }
            return true;
        }
        assert(decreases_to!(bs@ => bs@[i as int]));
        if branch_targets_block_sid(&b.branches, sid) {
            proof {
                lemma_reach_prefix(bs@, i + 1, sid@);
            }
            return true;
        }
        i = i + 1;
    }
    assert(bs@.take(bs@.len() as int) =~= bs@);
    false
}

/// Whether the line ends at the block with the given SID, directly or
/// through one of its branches.
pub open spec fn line_reaches(line: Line, sid: Seq<char>) -> bool {
    (match line.dst {
        Some(d) => d.sid@ == sid,
        None => false,
    }) || branches_reach(line.branches@, sid)
}

/// Whether the line ends at the block with the given SID.
pub fn line_targets_block_sid(line: &Line, sid: &str) -> (r: bool)
    ensures
        r == line_reaches(*line, sid@),
{
    let direct = match &line.dst {
        Some(d) => crate::text::str_eq(d.sid.as_str(), sid),
        None => false,
    };
    direct || branch_targets_block_sid(&line.branches, sid)
}

/// Whether the line starts at the block with the given SID.
pub open spec fn line_from(line: Line, sid: Seq<char>) -> bool {
    match line.src {
        Some(s) => s.sid@ == sid,
        None => false,
    }
}

/// The positions, in order, of the first `n` lines that end at the block
/// with the given SID.
pub open spec fn incoming_indices(lines: Seq<Line>, sid: Seq<char>, n: int) -> Seq<int>
    decreases n,
{
    if n <= 0 {
        Seq::empty()
    } else if line_reaches(lines[n - 1], sid) {
        incoming_indices(lines, sid, n - 1).push(n - 1)
    } else {
        incoming_indices(lines, sid, n - 1)
    }
}

/// The positions, in order, of the first `n` lines that start at the block
/// with the given SID.
pub open spec fn outgoing_indices(lines: Seq<Line>, sid: Seq<char>, n: int) -> Seq<int>
    decreases n,
{
    if n <= 0 {
        Seq::empty()
    } else if line_from(lines[n - 1], sid) {
        outgoing_indices(lines, sid, n - 1).push(n - 1)
    } else {
        outgoing_indices(lines, sid, n - 1)
    }
}

/// The positions of the lines ending at `block` (none when it has no SID).
pub open spec fn incoming_lines(system: System, block: Block) -> Seq<int> {
    match block.sid {
        Some(s) => incoming_indices(system.lines@, s@, system.lines@.len() as int),
        None => Seq::empty(),
    }
}

/// The positions of the lines starting at `block` (none when it has no SID).
pub open spec fn outgoing_lines(system: System, block: Block) -> Seq<int> {
    match block.sid {
        Some(s) => outgoing_indices(system.lines@, s@, system.lines@.len() as int),
        None => Seq::empty(),
    }
}

/// Every position `incoming_indices` lists is a line position.
pub proof fn lemma_incoming_range(lines: Seq<Line>, sid: Seq<char>, n: int)
    requires
        n <= lines.len(),
    ensures
        forall|k: int|
            0 <= k < incoming_indices(lines, sid, n).len() ==> 0 <= #[trigger] incoming_indices(
                lines,
                sid,
                n,
            )[k] < n,
    decreases n,
{
    if n > 0 {
        lemma_incoming_range(lines, sid, n - 1);
        let s = incoming_indices(lines, sid, n);
        let p = incoming_indices(lines, sid, n - 1);
        assert forall|k: int| 0 <= k < s.len() implies 0 <= #[trigger] s[k] < n by {
            if k < p.len() {
                assert(s[k] == p[k]);
            }
        }
    }
}

/// Every position `outgoing_indices` lists is a line position.
pub proof fn lemma_outgoing_range(lines: Seq<Line>, sid: Seq<char>, n: int)
    requires
        n <= lines.len(),
    ensures
        forall|k: int|
            0 <= k < outgoing_indices(lines, sid, n).len() ==> 0 <= #[trigger] outgoing_indices(
                lines,
                sid,
                n,
            )[k] < n,
    decreases n,
{
    if n > 0 {
        lemma_outgoing_range(lines, sid, n - 1);
        let s = outgoing_indices(lines, sid, n);
        let p = outgoing_indices(lines, sid, n - 1);
        assert forall|k: int| 0 <= k < s.len() implies 0 <= #[trigger] s[k] < n by {
            if k < p.len() {
                assert(s[k] == p[k]);
            }
        }
    }
}

/// The positions of the lines ending at `block`.
pub fn incoming_lines_for_block(system: &System, block: &Block) -> (r: Vec<usize>)
    ensures
        r@.map_values(|i: usize| i as int) == incoming_lines(*system, *block),
        forall|k: int| 0 <= k < r@.len() ==> #[trigger] r@[k] < system.lines@.len(),
{
    let mut r: Vec<usize> = Vec::new();
    match &block.sid {
        None => {
            assert(r@.map_values(|i: usize| i as int) =~= Seq::<int>::empty());
            r
        },
        Some(sid) => {
            let mut n: usize = 0;
            while n < system.lines.len()
                invariant
                    n <= system.lines@.len(),
                    r@.map_values(|i: usize| i as int) == incoming_indices(
                        system.lines@,
                        sid@,
                        n as int,
                    ),
                    forall|k: int| 0 <= k < r@.len() ==> #[trigger] r@[k] < n,
                decreases system.lines@.len() - n,
            {
                if line_targets_block_sid(&system.lines[n], sid.as_str()) {
                    r.push(n);
                }
                n = n + 1;
                assert(r@.map_values(|i: usize| i as int) =~= incoming_indices(
                    system.lines@,
                    sid@,
                    n as int,
                ));
            }
            r
        },
    }
}

/// The positions of the lines starting at `block`.
pub fn outgoing_line_indices_for_block(system: &System, block: &Block) -> (r: Vec<usize>)
    ensures
        r@.map_values(|i: usize| i as int) == outgoing_lines(*system, *block),
        forall|k: int| 0 <= k < r@.len() ==> #[trigger] r@[k] < system.lines@.len(),
{
    let mut r: Vec<usize> = Vec::new();
    match &block.sid {
        None => {
            assert(r@.map_values(|i: usize| i as int) =~= Seq::<int>::empty());
            r
        },
        Some(sid) => {
            let mut n: usize = 0;
            while n < system.lines.len()
                invariant
                    n <= system.lines@.len(),
                    r@.map_values(|i: usize| i as int) == outgoing_indices(
                        system.lines@,
                        sid@,
                        n as int,
                    ),
                    forall|k: int| 0 <= k < r@.len() ==> #[trigger] r@[k] < n,
                decreases system.lines@.len() - n,
            {
                let from = match &system.lines[n].src {
                    Some(s) => crate::text::str_eq(s.sid.as_str(), sid.as_str()),
                    None => false,
                };
                if from {
                    r.push(n);
                }
                n = n + 1;
                assert(r@.map_values(|i: usize| i as int) =~= outgoing_indices(
                    system.lines@,
                    sid@,
                    n as int,
                ));
            }
            r
        },
    }
}

/// The first position from `j` on of a line with the same identity as the
/// line at `k`.
pub open spec fn first_same_from(lines: Seq<Line>, k: int, j: int) -> int
    decreases lines.len() - j,
{
    if j < 0 || j >= lines.len() || j >= k {
        k
    } else if line_identity(lines[j]) == line_identity(lines[k]) {
        j
    } else {
        first_same_from(lines, k, j + 1)
    }
}

/// The position of the first line with the same identity as the line at `k`
/// (how a line found among the system's lines is located again).
pub open spec fn line_position(lines: Seq<Line>, k: int) -> int {
    first_same_from(lines, k, 0)
}

proof fn lemma_first_same_range(lines: Seq<Line>, k: int, j: int)
    requires
        0 <= j,
        0 <= k < lines.len(),
    ensures
        0 <= first_same_from(lines, k, j) <= k,
    decreases lines.len() - j,
{
    if j < lines.len() && j < k && line_identity(lines[j]) != line_identity(lines[k]) {
        lemma_first_same_range(lines, k, j + 1);
    }
}

/// The position of the first line with the same identity as the line at `k`.
pub fn line_position_exec(system: &System, k: usize) -> (r: usize)
    requires
        k < system.lines@.len(),
    ensures
        r as int == line_position(system.lines@, k as int),
        r <= k,
{
    let mut j: usize = 0;
    while j < k
        invariant
            j <= k < system.lines@.len(),
            line_position(system.lines@, k as int) == first_same_from(
                system.lines@,
                k as int,
                j as int,
            ),
        decreases k - j,
    {
        if same_line(&system.lines[j], &system.lines[k]) {
            return j;
        }
        j = j + 1;
    }
    k
}

/// The port number of an Inport/Outport block: its `Port` (or else
/// `PortNumber`) property when that parses as a number, else 1.
pub open spec fn boundary_port(block: Block) -> u32 {
    let raw = match prop(block.properties, "Port"@) {
        Some(v) => Some(v),
        None => prop(block.properties, "PortNumber"@),
    };
    match raw {
        Some(v) => match parse_u32(trim(v)) {
            Some(n) => n,
            None => 1,
        },
        None => 1,
    }
}

/// The port number of an Inport/Outport block.
pub fn boundary_port_index(block: &Block) -> (r: u32)
    ensures
        r == boundary_port(*block),
{
    let raw = match property_get(&block.properties, "Port") {
        Some(v) => Some(v),
        None => property_get(&block.properties, "PortNumber"),
    };
    match raw {
        Some(v) => {
            let cs = chars_of(v.as_str());
            let t = trim_chars(cs.as_slice());
            match crate::text::parse_unsigned_chars(t.as_slice(), u32::MAX as u64) {
                Some(n) => n as u32,
                None => 1,
            }
        },
        None => 1,
    }
}

/// How many of the ports are output ports.
pub open spec fn count_out_ports(ports: Seq<crate::model::Port>) -> nat
    decreases ports.len(),
{
    if ports.len() == 0 {
        0
    } else {
        count_out_ports(ports.drop_last()) + if ports.last().port_type@ == "out"@ {
            1nat
        } else {
            0nat
        }
    }
}

/// The number of output ports of a block: the declared count, else the
/// number of its `out` ports.
pub open spec fn output_ports(block: Block) -> u32 {
    match block.port_counts {
        Some(pc) => match pc.outs {
            Some(n) => n,
            None => count_out_ports(block.ports@) as u32,
        },
        None => count_out_ports(block.ports@) as u32,
    }
}

/// The number of output ports of a block.
pub fn output_port_count(block: &Block) -> (r: u32)
    ensures
        r == output_ports(*block),
{
    if let Some(pc) = &block.port_counts {
        if let Some(n) = pc.outs {
            return n;
        }
    }
    let mut count: usize = 0;
    let mut i: usize = 0;
    while i < block.ports.len()
        invariant
            i <= block.ports@.len(),
            count as nat == count_out_ports(block.ports@.take(i as int)),
            count <= i,
        decreases block.ports@.len() - i,
    {
        assert(block.ports@.take(i + 1).drop_last() =~= block.ports@.take(i as int));
        if crate::text::str_eq(block.ports[i].port_type.as_str(), "out") {
            count = count + 1;
        }
        i = i + 1;
    }
    assert(block.ports@.take(block.ports@.len() as int) =~= block.ports@);
    count as u32
}

/// The path of the system inside the named block.
pub fn child_system_path(system_path: &Vec<String>, block_name: &String) -> (r: Vec<String>)
    ensures
        r@.map_values(|s: String| s@) == system_path@.map_values(|s: String| s@).push(
            block_name@,
        ),
{
    let mut r: Vec<String> = Vec::new();
    let mut i: usize = 0;
    while i < system_path.len()
        invariant
            i <= system_path@.len(),
            r@.map_values(|s: String| s@) == system_path@.take(i as int).map_values(
                |s: String| s@,
            ),
        decreases system_path@.len() - i,
    {
        let c = system_path[i].clone();
        proof {
            assert(system_path@.take(i + 1) =~= system_path@.take(i as int).push(c));
            assert(r@.push(c).map_values(|s: String| s@) =~= r@.map_values(|s: String| s@).push(
                c@,
            ));
            assert(system_path@.take(i as int).push(c).map_values(|s: String| s@)
                =~= system_path@.take(i as int).map_values(|s: String| s@).push(c@));
        }
        r.push(c);
        i = i + 1;
    }
    r.push(block_name.clone());
    assert(system_path@.take(system_path@.len() as int) =~= system_path@);
    assert(r@.map_values(|s: String| s@) =~= system_path@.map_values(|s: String| s@).push(
        block_name@,
    ));
    r
}

/// The full path of a block: the model name, the names of the enclosing
/// subsystems and the block name, each white-space-normalized, blank ones
/// dropped, joined by `/`.
pub open spec fn full_path(model_name: Seq<char>, system_path: Seq<Seq<char>>, name: Seq<char>) -> Seq<char> {
    join_nonempty(normalize_each(seq![model_name] + system_path + seq![name]), '/')
}

/// The full path of a block named `name` in the system at `system_path`.
pub fn full_block_path(model_name: &String, system_path: &Vec<String>, name: &str) -> (r: String)
    ensures
        r@ == full_path(model_name@, system_path@.map_values(|s: String| s@), name@),
{
    let ghost segs = seq![model_name@] + system_path@.map_values(|s: String| s@) + seq![name@];
    let mut out: Vec<char> = Vec::new();
    let m = chars_of(model_name.as_str());
    let nm = normalize_ws_chars(m.as_slice());
    append_segment(&mut out, nm.as_slice(), '/');
    proof {
        assert(segs.take(1) =~= Seq::<Seq<char>>::empty().push(model_name@));
        assert(normalize_each(segs.take(1)) =~= seq![normalize_ws(model_name@)]);
        assert(normalize_each(segs.take(1)).drop_last() =~= Seq::<Seq<char>>::empty());
        assert(join_nonempty(Seq::<Seq<char>>::empty(), '/') == Seq::<char>::empty());
    }
    let mut i: usize = 0;
    while i < system_path.len()
        invariant
            i <= system_path@.len(),
            segs == seq![model_name@] + system_path@.map_values(|s: String| s@) + seq![name@],
            out@ == join_nonempty(normalize_each(segs.take(i + 1)), '/'),
        decreases system_path@.len() - i,
    {
        let c = chars_of(system_path[i].as_str());
        let n = normalize_ws_chars(c.as_slice());
        append_segment(&mut out, n.as_slice(), '/');
        proof {
            assert(segs[i + 1] == system_path@[i as int]@);
            assert(normalize_each(segs.take(i + 2)).drop_last() =~= normalize_each(
                segs.take(i + 1),
            ));
            assert(normalize_each(segs.take(i + 2)).last() == normalize_ws(segs[i + 1]));
        }
        i = i + 1;
    }
    let c = chars_of(name);
    let n = normalize_ws_chars(c.as_slice());
    append_segment(&mut out, n.as_slice(), '/');
    proof {
        let k = system_path@.len() as int + 1;
        assert(segs.len() == k + 1);
        assert(segs.take(k + 1) =~= segs);
        assert(normalize_each(segs).drop_last() =~= normalize_each(segs.take(k)));
        assert(normalize_each(segs).last() == normalize_ws(name@));
    }
    string_of(out.as_slice())
}

/// A path from outside the model (a dashboard binding) made absolute: the
/// normalized path, prefixed with the normalized model name unless it is
/// empty, already starts with it, or the model name is empty.
pub open spec fn qualified_path(model_name: Seq<char>, raw: Seq<char>) -> Seq<char> {
    let clean = normalize_path(raw);
    let model = normalize_path(model_name);
    if clean.len() == 0 || model.len() == 0 || has_prefix(clean, model + seq!['/']) || clean
        == model {
        clean
    } else {
        model + seq!['/'] + clean
    }
}

/// The absolute form of a path from outside the model.
pub fn qualify_external_path(model_name: &str, raw: &str) -> (r: String)
    ensures
        r@ == qualified_path(model_name@, raw@),
{
    let rc = chars_of(raw);
    let clean = normalize_path_chars(rc.as_slice());
    let mc = chars_of(model_name);
    let model = normalize_path_chars(mc.as_slice());
    let mut prefix = concat_chars(model.as_slice(), &['/']);
    assert(seq!['/'] =~= [ '/' ]@);
    if clean.len() == 0 || model.len() == 0 || chars_starts_with(clean.as_slice(), prefix.as_slice())
        || chars_eq(clean.as_slice(), model.as_slice()) {
        string_of(clean.as_slice())
    } else {
        let r = concat_chars(prefix.as_slice(), clean.as_slice());
        string_of(r.as_slice())
    }
}

/// The block path a dashboard binding names.
pub fn dashboard_binding_block_path(binding: &DashboardBinding) -> (r: &String)
    ensures
        r == (match binding {
            DashboardBinding::ParamSource { block_path, .. } => block_path,
            DashboardBinding::SignalSpec { block_path, .. } => block_path,
        }),
{
    match binding {
        DashboardBinding::ParamSource { block_path, .. } => block_path,
        DashboardBinding::SignalSpec { block_path, .. } => block_path,
    }
}

/// The target path a dashboard binding names.
pub fn dashboard_binding_target_path(binding: &DashboardBinding) -> (r: &DashboardTargetPath)
    ensures
        r == (match binding {
            DashboardBinding::ParamSource { target_path, .. } => target_path,
            DashboardBinding::SignalSpec { target_path, .. } => target_path,
        }),
{
    match binding {
        DashboardBinding::ParamSource { target_path, .. } => target_path,
        DashboardBinding::SignalSpec { target_path, .. } => target_path,
    }
}

} // verus!
