//! A cheap signature of everything in a model that connection-target
//! resolution depends on, leaving out geometry (corner points and the
//! position, stacking and routing properties), so that layout-only edits
//! keep it.
//!
//! The default hasher is fed the bytes std's `Hash` impls write for the same
//! walk: texts as UTF-8 closed by `0xff`, counts and variant tags as eight
//! little-endian bytes, flags as one byte, port numbers as four. Ports also
//! contribute their non-geometry properties (a port's name and test point
//! steer resolution).

use crate::model::{Block, Branch, EndpointRef, Line, Port, System};
use crate::properties::{prop, property_get, property_list, property_pairs};
use crate::text::str_eq;
use std::collections::hash_map::DefaultHasher;
use std::hash::Hasher;
use vstd::std_specs::hash::DefaultHasherAdditionalSpecFns;
use vstd::prelude::*;
use vstd::string::StringSliceAdditionalSpecFns;
use vstd::utf8::encode_utf8;

verus! {

/// The `k` low bytes of `n`, least significant first.
pub open spec fn le_bytes(n: nat, k: nat) -> Seq<u8>
    decreases k,
{
    if k == 0 {
        Seq::empty()
    } else {
        seq![(n % 256) as u8] + le_bytes(n / 256, (k - 1) as nat)
    }
}

/// A count or a variant tag, as eight bytes.
pub open spec fn word(n: nat) -> Seq<u8> {
    le_bytes(n, 8)
}

/// A text as its UTF-8 bytes, closed by `0xff` (a byte that never occurs
/// in UTF-8), as `str` feeds a hasher.
pub open spec fn text_piece(s: Seq<char>) -> Seq<u8> {
    encode_utf8(s) + seq![0xffu8]
}

/// An optional text: its tag, then the text.
pub open spec fn opt_text_pieces(o: Option<Seq<char>>) -> Seq<Seq<u8>> {
    match o {
        None => seq![word(0)],
        Some(s) => seq![word(1), text_piece(s)],
    }
}

/// An optional number: its tag, then the number's four bytes.
pub open spec fn opt_u32_pieces(o: Option<u32>) -> Seq<Seq<u8>> {
    match o {
        None => seq![word(0)],
        Some(n) => seq![word(1), le_bytes(n as nat, 4)],
    }
}

/// A flag as one byte.
pub open spec fn flag_piece(b: bool) -> Seq<u8> {
    seq![if b { 1u8 } else { 0u8 }]
}

/// An optional line end: a tag byte, then its SID, port type and index.
pub open spec fn endpoint_pieces(e: Option<EndpointRef>) -> Seq<Seq<u8>> {
    match e {
        None => seq![seq![0u8]],
        Some(e) => seq![seq![1u8], text_piece(e.sid@), text_piece(e.port_type@), le_bytes(e.port_index as nat, 4)],
    }
}

/// Whether a property only places things (`Position`, `ZOrder`, `Points`,
/// `SortIndex`).
pub open spec fn is_geometry_key(k: Seq<char>) -> bool {
    k == "Position"@ || k == "ZOrder"@ || k == "Points"@ || k == "SortIndex"@
}

/// The properties that are not geometry, in order, each key then value.
pub open spec fn props_pieces(l: Seq<(Seq<char>, Seq<char>)>) -> Seq<Seq<u8>>
    decreases l.len(),
{
    if l.len() == 0 {
        Seq::empty()
    } else {
        props_pieces(l.drop_last()) + if is_geometry_key(l.last().0) {
            Seq::empty()
        } else {
            seq![text_piece(l.last().0), text_piece(l.last().1)]
        }
    }
}

/// A port: its type, its index and its non-geometry properties (its name
/// and test point among them).
pub open spec fn port_pieces(p: Port) -> Seq<Seq<u8>> {
    seq![text_piece(p.port_type@)] + opt_u32_pieces(p.index) + props_pieces(property_list(p.properties))
}

/// The ports in order.
pub open spec fn ports_pieces(ps: Seq<Port>) -> Seq<Seq<u8>>
    decreases ps.len(),
{
    if ps.len() == 0 {
        Seq::empty()
    } else {
        ports_pieces(ps.drop_last()) + port_pieces(ps.last())
    }
}

/// An optional text taken by its characters.
pub open spec fn text_of(o: Option<String>) -> Option<Seq<char>> {
    match o {
        Some(s) => Some(s@),
        None => None,
    }
}

/// What a system contributes: its name, its blocks and its lines, each list
/// preceded by its length.
pub open spec fn system_pieces(s: System) -> Seq<Seq<u8>>
    decreases s,
{
    (match prop(s.properties, "Name"@) {
        Some(n) => seq![text_piece(n)],
        None => Seq::empty(),
    }) + seq![word(s.blocks@.len())] + blocks_pieces(s.blocks@) + seq![word(s.lines@.len())]
        + lines_pieces(s.lines@)
}

/// The blocks in order.
pub open spec fn blocks_pieces(bs: Seq<Block>) -> Seq<Seq<u8>>
    decreases bs,
{
    if bs.len() == 0 {
        Seq::empty()
    } else {
        blocks_pieces(bs.drop_last()) + block_pieces(bs.last())
    }
}

/// What a block contributes: its type, name, SID, whether it is commented
/// out, its value, its declared port counts, its ports, its non-geometry
/// properties, whether it has a dashboard binding, and its subsystem.
pub open spec fn block_pieces(b: Block) -> Seq<Seq<u8>>
    decreases b,
{
    block_head_pieces(b) + block_port_pieces(b) + props_pieces(property_list(b.properties)) + seq![
        flag_piece(b.dashboard_binding is Some),
    ] + match b.subsystem {
        Some(sub) => system_pieces(*sub),
        None => Seq::empty(),
    }
}

/// A block's type, name, SID, commented flag and value.
pub open spec fn block_head_pieces(b: Block) -> Seq<Seq<u8>> {
    seq![text_piece(b.block_type@), text_piece(b.name@)] + opt_text_pieces(text_of(b.sid)) + seq![
        flag_piece(b.commented),
    ] + opt_text_pieces(text_of(b.value))
}

/// A block's declared port counts and its ports.
pub open spec fn block_port_pieces(b: Block) -> Seq<Seq<u8>> {
    (match b.port_counts {
        Some(pc) => opt_u32_pieces(pc.ins) + opt_u32_pieces(pc.outs),
        None => Seq::empty(),
    }) + seq![word(b.ports@.len())] + ports_pieces(b.ports@)
}

/// The lines in order.
pub open spec fn lines_pieces(ls: Seq<Line>) -> Seq<Seq<u8>>
    decreases ls.len(),
{
    if ls.len() == 0 {
        Seq::empty()
    } else {
        lines_pieces(ls.drop_last()) + line_pieces(ls.last())
    }
}

/// What a line contributes: its name, its ends, its branches and its
/// non-geometry properties (never its corner points).
pub open spec fn line_pieces(l: Line) -> Seq<Seq<u8>> {
    opt_text_pieces(text_of(l.name)) + endpoint_pieces(l.src) + endpoint_pieces(l.dst) + seq![
        word(l.branches@.len()),
    ] + branches_pieces(l.branches@) + props_pieces(property_list(l.properties))
}

/// The branches in order.
pub open spec fn branches_pieces(bs: Seq<Branch>) -> Seq<Seq<u8>>
    decreases bs,
{
    if bs.len() == 0 {
        Seq::empty()
    } else {
        branches_pieces(bs.drop_last()) + branch_pieces(bs.last())
    }
}

/// What a branch contributes: its name, its end and its sub-branches.
pub open spec fn branch_pieces(b: Branch) -> Seq<Seq<u8>>
    decreases b,
{
    opt_text_pieces(text_of(b.name)) + endpoint_pieces(b.dst) + seq![word(b.branches@.len())]
        + branches_pieces(b.branches@)
}

/// Appends the `k` low bytes of `n` to `out`, least significant first.
fn push_le(out: &mut Vec<u8>, n: u64, k: usize)
    ensures
        final(out)@ == old(out)@ + le_bytes(n as nat, k as nat),
{
    let mut v = n;
    let mut i: usize = 0;
    let ghost start = out@;
    while i < k
        invariant
            i <= k,
            out@ + le_bytes(v as nat, (k - i) as nat) == start + le_bytes(n as nat, k as nat),
        decreases k - i,
    {
        let ghost before = out@;
        out.push((v % 256) as u8);
        assert(le_bytes(v as nat, (k - i) as nat) == seq![(v % 256) as u8] + le_bytes(
            (v / 256) as nat,
            (k - i - 1) as nat,
        ));
        assert(before + le_bytes(v as nat, (k - i) as nat) =~= out@ + le_bytes(
            (v / 256) as nat,
            (k - i - 1) as nat,
        ));
        v = v / 256;
        i = i + 1;
    }
    assert(le_bytes(v as nat, 0) =~= Seq::<u8>::empty());
    assert(out@ =~= start + le_bytes(n as nat, k as nat));
}

/// Writes `bytes` as one piece.
fn write_piece(h: &mut DefaultHasher, bytes: &Vec<u8>)
    ensures
        final(h)@ == old(h)@.push(bytes@),
{
    h.write(bytes.as_slice());
}

/// Writes a count or tag.
fn write_word(h: &mut DefaultHasher, n: u64)
    ensures
        final(h)@ == old(h)@.push(word(n as nat)),
{
    let mut b: Vec<u8> = Vec::new();
    push_le(&mut b, n, 8);
    assert(b@ =~= word(n as nat));
    write_piece(h, &b);
}

/// Writes a text.
fn write_text(h: &mut DefaultHasher, s: &str)
    ensures
        final(h)@ == old(h)@.push(text_piece(s@)),
{
    let bytes = s.as_bytes();
    let mut b: Vec<u8> = Vec::new();
    let mut i: usize = 0;
    while i < bytes.len()
        invariant
            i <= bytes@.len(),
            b@ == bytes@.take(i as int),
        decreases bytes@.len() - i,
    {
        b.push(bytes[i]);
        i = i + 1;
        assert(b@ =~= bytes@.take(i as int));
    }
    assert(bytes@.take(bytes@.len() as int) =~= bytes@);
    b.push(0xffu8);
    assert(b@ =~= text_piece(s@));
    write_piece(h, &b);
}

/// Writes an optional text.
fn write_opt_text(h: &mut DefaultHasher, o: &Option<String>)
    ensures
        final(h)@ == old(h)@ + opt_text_pieces(text_of(*o)),
{
    match o {
        None => {
            write_word(h, 0);
            assert(old(h)@.push(word(0)) =~= old(h)@ + seq![word(0)]);
        },
        Some(s) => {
            write_word(h, 1);
            write_text(h, s.as_str());
            assert(old(h)@.push(word(1)).push(text_piece(s@)) =~= old(h)@ + seq![word(1), text_piece(s@)]);
        },
    }
}

/// Writes an optional number.
fn write_opt_u32(h: &mut DefaultHasher, o: Option<u32>)
    ensures
        final(h)@ == old(h)@ + opt_u32_pieces(o),
{
    match o {
        None => {
            write_word(h, 0);
            assert(old(h)@.push(word(0)) =~= old(h)@ + seq![word(0)]);
        },
        Some(n) => {
            write_word(h, 1);
            let mut b: Vec<u8> = Vec::new();
            push_le(&mut b, n as u64, 4);
            assert(b@ =~= le_bytes(n as nat, 4));
            write_piece(h, &b);
            assert(old(h)@.push(word(1)).push(le_bytes(n as nat, 4)) =~= old(h)@ + seq![word(1), le_bytes(n as nat, 4)]);
        },
    }
}

/// Writes a flag.
fn write_flag(h: &mut DefaultHasher, f: bool)
    ensures
        final(h)@ == old(h)@.push(flag_piece(f)),
{
    let mut b: Vec<u8> = Vec::new();
    b.push(if f {
        1u8
    } else {
        0u8
    });
    assert(b@ =~= flag_piece(f));
    write_piece(h, &b);
}

/// Writes an optional line end.
fn write_endpoint(h: &mut DefaultHasher, e: &Option<EndpointRef>)
    ensures
        final(h)@ == old(h)@ + endpoint_pieces(*e),
{
    match e {
        None => {
            write_flag(h, false);
            assert(flag_piece(false) =~= seq![0u8]);
            assert(old(h)@.push(seq![0u8]) =~= old(h)@ + seq![seq![0u8]]);
        },
        Some(ep) => {
            write_flag(h, true);
            assert(flag_piece(true) =~= seq![1u8]);
            write_text(h, ep.sid.as_str());
            write_text(h, ep.port_type.as_str());
            let mut b: Vec<u8> = Vec::new();
            push_le(&mut b, ep.port_index as u64, 4);
            assert(b@ =~= le_bytes(ep.port_index as nat, 4));
            write_piece(h, &b);
            assert(old(h)@.push(seq![1u8]).push(text_piece(ep.sid@)).push(text_piece(ep.port_type@)).push(
                le_bytes(ep.port_index as nat, 4),
            ) =~= old(h)@ + endpoint_pieces(*e));
        },
    }
}

/// Writes the non-geometry properties.
fn write_props(h: &mut DefaultHasher, props: &indexmap::IndexMap<String, String>)
    ensures
        final(h)@ == old(h)@ + props_pieces(property_list(*props)),
{
    let pairs = property_pairs(props);
    let ghost l = pairs@.map_values(|e: (String, String)| (e.0@, e.1@));
    let mut i: usize = 0;
    assert(l.take(0) =~= Seq::<(Seq<char>, Seq<char>)>::empty());
    assert(old(h)@ + props_pieces(l.take(0)) =~= old(h)@);
    while i < pairs.len()
        invariant
            i <= pairs@.len(),
            l == pairs@.map_values(|e: (String, String)| (e.0@, e.1@)),
            h@ == old(h)@ + props_pieces(l.take(i as int)),
        decreases pairs@.len() - i,
    {
        assert(l.take(i + 1).drop_last() =~= l.take(i as int));
        assert(l.take(i + 1).last() == (pairs@[i as int].0@, pairs@[i as int].1@));
        let k = pairs[i].0.as_str();
        let geometry = str_eq(k, "Position") || str_eq(k, "ZOrder") || str_eq(k, "Points") || str_eq(
            k,
            "SortIndex",
        );
        if !geometry {
            let ghost before = h@;
            write_text(h, k);
            write_text(h, pairs[i].1.as_str());
            assert(before.push(text_piece(k@)).push(text_piece(pairs@[i as int].1@)) =~= before + seq![
                text_piece(k@),
                text_piece(pairs@[i as int].1@),
            ]);
        } else {
            assert(h@ =~= h@ + Seq::<Seq<u8>>::empty());
        }
        i = i + 1;
    }
    assert(l.take(pairs@.len() as int) =~= l);
}

/// Writes the ports.
fn write_ports(h: &mut DefaultHasher, ports: &Vec<Port>)
    ensures
        final(h)@ == old(h)@ + ports_pieces(ports@),
{
    let mut i: usize = 0;
    assert(old(h)@ + ports_pieces(ports@.take(0)) =~= old(h)@);
    while i < ports.len()
        invariant
            i <= ports@.len(),
            h@ == old(h)@ + ports_pieces(ports@.take(i as int)),
        decreases ports@.len() - i,
    {
        assert(ports@.take(i + 1).drop_last() =~= ports@.take(i as int));
        let ghost before = h@;
        write_text(h, ports[i].port_type.as_str());
        write_opt_u32(h, ports[i].index);
        write_props(h, &ports[i].properties);
        assert(before.push(text_piece(ports@[i as int].port_type@)) + opt_u32_pieces(ports@[i as int].index)
            + props_pieces(property_list(ports@[i as int].properties)) =~= before + port_pieces(
            ports@[i as int],
        ));
        i = i + 1;
    }
    assert(ports@.take(ports@.len() as int) =~= ports@);
}

/// Writes a system.
fn write_system(h: &mut DefaultHasher, s: &System)
    ensures
        final(h)@ == old(h)@ + system_pieces(*s),
    decreases s,
{
    let ghost start = h@;
    match property_get(&s.properties, "Name") {
        Some(n) => {
            write_text(h, n.as_str());
            assert(start.push(text_piece(n@)) =~= start + seq![text_piece(n@)]);
        },
        None => {
            assert(start =~= start + Seq::<Seq<u8>>::empty());
        },
    }
    let ghost after_name = h@;
    write_word(h, s.blocks.len() as u64);
    let mut i: usize = 0;
    assert(s.blocks@.take(0) =~= Seq::<Block>::empty());
    while i < s.blocks.len()
        invariant
            i <= s.blocks@.len(),
            h@ == after_name.push(word(s.blocks@.len())) + blocks_pieces(s.blocks@.take(i as int)),
        decreases s.blocks@.len() - i,
    {
        assert(s.blocks@.take(i + 1).drop_last() =~= s.blocks@.take(i as int));
        assert(decreases_to!(s => s.blocks@[i as int]));
        let ghost before = h@;
        write_block(h, &s.blocks[i]);
        assert(after_name.push(word(s.blocks@.len())) + blocks_pieces(s.blocks@.take(i + 1)) =~= before
            + block_pieces(s.blocks@[i as int]));
        i = i + 1;
    }
    assert(s.blocks@.take(s.blocks@.len() as int) =~= s.blocks@);
    let ghost after_blocks = h@;
    write_word(h, s.lines.len() as u64);
    let mut j: usize = 0;
    assert(s.lines@.take(0) =~= Seq::<Line>::empty());
    while j < s.lines.len()
        invariant
            j <= s.lines@.len(),
            h@ == after_blocks.push(word(s.lines@.len())) + lines_pieces(s.lines@.take(j as int)),
        decreases s.lines@.len() - j,
    {
        assert(s.lines@.take(j + 1).drop_last() =~= s.lines@.take(j as int));
        let ghost before = h@;
        write_line(h, &s.lines[j]);
        assert(after_blocks.push(word(s.lines@.len())) + lines_pieces(s.lines@.take(j + 1)) =~= before
            + line_pieces(s.lines@[j as int]));
        j = j + 1;
    }
    assert(s.lines@.take(s.lines@.len() as int) =~= s.lines@);
    assert(h@ =~= start + system_pieces(*s));
}

/// Writes a block's type, name, SID, commented flag and value.
fn write_block_head(h: &mut DefaultHasher, b: &Block)
    ensures
        final(h)@ == old(h)@ + block_head_pieces(*b),
{
    let ghost start = h@;
    write_text(h, b.block_type.as_str());
    write_text(h, b.name.as_str());
    let ghost s1 = h@;
    write_opt_text(h, &b.sid);
    let ghost s2 = h@;
    write_flag(h, b.commented);
    let ghost s3 = h@;
    write_opt_text(h, &b.value);
    assert(s1 =~= start + seq![text_piece(b.block_type@), text_piece(b.name@)]);
    assert(s3 =~= s2 + seq![flag_piece(b.commented)]);
    assert(h@ =~= start + block_head_pieces(*b));
}

/// Writes a block's declared port counts and its ports.
fn write_block_ports(h: &mut DefaultHasher, b: &Block)
    ensures
        final(h)@ == old(h)@ + block_port_pieces(*b),
{
    let ghost start = h@;
    match &b.port_counts {
        Some(pc) => {
            write_opt_u32(h, pc.ins);
            write_opt_u32(h, pc.outs);
        },
        None => {
            assert(start =~= start + Seq::<Seq<u8>>::empty());
        },
    }
    let ghost mid = h@;
    write_word(h, b.ports.len() as u64);
    let ghost mid2 = h@;
    write_ports(h, &b.ports);
    assert(mid2 =~= mid + seq![word(b.ports@.len())]);
    assert(h@ =~= start + block_port_pieces(*b));
}

/// Writes a block.
fn write_block(h: &mut DefaultHasher, b: &Block)
    ensures
        final(h)@ == old(h)@ + block_pieces(*b),
    decreases b,
{
    let ghost start = h@;
    write_block_head(h, b);
    write_block_ports(h, b);
    write_props(h, &b.properties);
    let ghost mid = h@;
    write_flag(h, b.dashboard_binding.is_some());
    let ghost mid2 = h@;
    assert(mid2 =~= mid + seq![flag_piece(b.dashboard_binding is Some)]);
    match &b.subsystem {
        Some(sub) => {
            write_system(h, sub);
        },
        None => {
            assert(mid2 =~= mid2 + Seq::<Seq<u8>>::empty());
        },
    }
    assert(h@ =~= start + block_pieces(*b));
}

/// Writes a line.
fn write_line(h: &mut DefaultHasher, l: &Line)
    ensures
        final(h)@ == old(h)@ + line_pieces(*l),
{
    let ghost start = h@;
    write_opt_text(h, &l.name);
    write_endpoint(h, &l.src);
    write_endpoint(h, &l.dst);
    write_word(h, l.branches.len() as u64);
    write_branches(h, &l.branches);
    write_props(h, &l.properties);
    assert(h@ =~= start + line_pieces(*l));
}

/// Writes branches.
fn write_branches(h: &mut DefaultHasher, bs: &Vec<Branch>)
    ensures
        final(h)@ == old(h)@ + branches_pieces(bs@),
    decreases bs@,
{
    let mut i: usize = 0;
    assert(bs@.take(0) =~= Seq::<Branch>::empty());
    assert(old(h)@ + branches_pieces(bs@.take(0)) =~= old(h)@);
    while i < bs.len()
        invariant
            i <= bs@.len(),
            h@ == old(h)@ + branches_pieces(bs@.take(i as int)),
        decreases bs@.len() - i,
    {
        assert(bs@.take(i + 1).drop_last() =~= bs@.take(i as int));
        assert(decreases_to!(bs@ => bs@[i as int]));
        let b = &bs[i];
        let ghost before = h@;
        write_opt_text(h, &b.name);
        write_endpoint(h, &b.dst);
        write_word(h, b.branches.len() as u64);
        write_branches(h, &b.branches);
        assert(old(h)@ + branches_pieces(bs@.take(i + 1)) =~= before + branch_pieces(bs@[i as int]));
        i = i + 1;
    }
    assert(bs@.take(bs@.len() as int) =~= bs@);
}

/// The signature of a model: the default hasher's digest of everything
/// resolution depends on ([`system_pieces`]).
pub fn model_topology_signature(root: &System) -> (r: u64)
    ensures
        r == DefaultHasher::spec_finish(system_pieces(*root)),
{
    let mut h = DefaultHasher::new();
    write_system(&mut h, root);
    assert(h@ =~= system_pieces(*root));
    h.finish()
}

/// A line's corner points never enter the signature: two lines that differ
/// only in their points contribute the same.
pub proof fn lemma_points_do_not_matter(l: Line, m: Line)
    requires
        l.name == m.name,
        l.src == m.src,
        l.dst == m.dst,
        l.branches == m.branches,
        l.properties == m.properties,
    ensures
        line_pieces(l) == line_pieces(m),
{
}

/// The non-geometry properties of a list, in order.
pub open spec fn without_geometry(l: Seq<(Seq<char>, Seq<char>)>) -> Seq<(Seq<char>, Seq<char>)>
    decreases l.len(),
{
    if l.len() == 0 {
        Seq::empty()
    } else if is_geometry_key(l.last().0) {
        without_geometry(l.drop_last())
    } else {
        without_geometry(l.drop_last()).push(l.last())
    }
}

/// Geometry properties never enter the signature: property lists with the
/// same non-geometry entries contribute the same.
pub proof fn lemma_geometry_does_not_matter(a: Seq<(Seq<char>, Seq<char>)>, b: Seq<(Seq<char>, Seq<char>)>)
    requires
        without_geometry(a) == without_geometry(b),
    ensures
        props_pieces(a) == props_pieces(b),
{
    lemma_props_pieces_filtered(a);
    lemma_props_pieces_filtered(b);
}

proof fn lemma_props_pieces_filtered(a: Seq<(Seq<char>, Seq<char>)>)
    ensures
        props_pieces(a) == props_pieces(without_geometry(a)),
    decreases a.len(),
{
    if a.len() > 0 {
        lemma_props_pieces_filtered(a.drop_last());
        let w = without_geometry(a.drop_last());
        if !is_geometry_key(a.last().0) {
            assert(w.push(a.last()).drop_last() =~= w);
            assert(w.push(a.last()).last() == a.last());
        }
    }
}

/// Whether branch `b` is branch `a` re-routed: everything but the corner
/// points is the same, sub-branch by sub-branch.
pub open spec fn layout_same_branch(a: Branch, b: Branch) -> bool
    decreases a,
{
    &&& a.name == b.name
    &&& a.dst == b.dst
    &&& layout_same_branches(a.branches@, b.branches@)
}

/// [`layout_same_branch`] for each pair of branches.
pub open spec fn layout_same_branches(a: Seq<Branch>, b: Seq<Branch>) -> bool
    decreases a,
{
    a.len() == b.len() && (a.len() == 0 || (layout_same_branches(a.drop_last(), b.drop_last())
        && layout_same_branch(a.last(), b.last())))
}

/// Whether line `m` is line `l` after a layout-only edit: its corner points
/// and geometry properties may differ, nothing else.
pub open spec fn layout_same_line(l: Line, m: Line) -> bool {
    &&& l.name == m.name
    &&& l.src == m.src
    &&& l.dst == m.dst
    &&& layout_same_branches(l.branches@, m.branches@)
    &&& without_geometry(property_list(l.properties)) == without_geometry(property_list(m.properties))
}

/// [`layout_same_line`] for each pair of lines.
pub open spec fn layout_same_lines(a: Seq<Line>, b: Seq<Line>) -> bool
    decreases a.len(),
{
    a.len() == b.len() && (a.len() == 0 || (layout_same_lines(a.drop_last(), b.drop_last())
        && layout_same_line(a.last(), b.last())))
}

/// Whether block `b` is block `a` after a layout-only edit: its geometry
/// properties may differ, and so may the layout inside its subsystem.
pub open spec fn layout_same_block(a: Block, b: Block) -> bool
    decreases a,
{
    &&& a.block_type == b.block_type
    &&& a.name == b.name
    &&& a.sid == b.sid
    &&& a.commented == b.commented
    &&& a.value == b.value
    &&& a.port_counts == b.port_counts
    &&& a.ports@ == b.ports@
    &&& without_geometry(property_list(a.properties)) == without_geometry(property_list(b.properties))
    &&& a.dashboard_binding == b.dashboard_binding
    &&& match (a.subsystem, b.subsystem) {
        (Some(x), Some(y)) => layout_same_system(*x, *y),
        (None, None) => true,
        _ => false,
    }
}

/// [`layout_same_block`] for each pair of blocks.
pub open spec fn layout_same_blocks(a: Seq<Block>, b: Seq<Block>) -> bool
    decreases a,
{
    a.len() == b.len() && (a.len() == 0 || (layout_same_blocks(a.drop_last(), b.drop_last())
        && layout_same_block(a.last(), b.last())))
}

/// Whether system `b` is system `a` after layout-only edits anywhere in the
/// tree: moved blocks, re-routed lines and branches.
pub open spec fn layout_same_system(a: System, b: System) -> bool
    decreases a,
{
    &&& prop(a.properties, "Name"@) == prop(b.properties, "Name"@)
    &&& layout_same_blocks(a.blocks@, b.blocks@)
    &&& layout_same_lines(a.lines@, b.lines@)
}

proof fn lemma_layout_branches(a: Seq<Branch>, b: Seq<Branch>)
    requires
        layout_same_branches(a, b),
    ensures
        branches_pieces(a) == branches_pieces(b),
    decreases a,
{
    if a.len() > 0 {
        lemma_layout_branches(a.drop_last(), b.drop_last());
        let x = a.last();
        let y = b.last();
        assert(decreases_to!(a => a[a.len() - 1]));
        assert(layout_same_branch(x, y));
        assert(layout_same_branches(x.branches@, y.branches@));
        assert(decreases_to!(x => x.branches));
        lemma_layout_branches(x.branches@, y.branches@);
        assert(branch_pieces(x) == branch_pieces(y));
    }
}

proof fn lemma_layout_lines(a: Seq<Line>, b: Seq<Line>)
    requires
        layout_same_lines(a, b),
    ensures
        lines_pieces(a) == lines_pieces(b),
    decreases a.len(),
{
    if a.len() > 0 {
        lemma_layout_lines(a.drop_last(), b.drop_last());
        lemma_layout_branches(a.last().branches@, b.last().branches@);
        lemma_geometry_does_not_matter(property_list(a.last().properties), property_list(b.last().properties));
    }
}

proof fn lemma_layout_blocks(a: Seq<Block>, b: Seq<Block>)
    requires
        layout_same_blocks(a, b),
    ensures
        blocks_pieces(a) == blocks_pieces(b),
    decreases a,
{
    if a.len() > 0 {
        lemma_layout_blocks(a.drop_last(), b.drop_last());
        let x = a.last();
        let y = b.last();
        assert(decreases_to!(a => a[a.len() - 1]));
        assert(layout_same_block(x, y));
        lemma_geometry_does_not_matter(property_list(x.properties), property_list(y.properties));
        match (x.subsystem, y.subsystem) {
            (Some(sx), Some(sy)) => {
                assert(layout_same_system(*sx, *sy));
                assert(decreases_to!(x => x.subsystem));
                lemma_layout_system(*sx, *sy);
            },
            _ => {},
        }
        assert(block_pieces(x) == block_pieces(y));
    }
}

/// Layout-only edits anywhere in a model (moving blocks, re-routing lines
/// and branches, changing geometry properties) keep its signature.
pub proof fn lemma_layout_keeps_signature(a: System, b: System)
    requires
        layout_same_system(a, b),
    ensures
        system_pieces(a) == system_pieces(b),
        DefaultHasher::spec_finish(system_pieces(a)) == DefaultHasher::spec_finish(system_pieces(b)),
{
    lemma_layout_system(a, b);
}

proof fn lemma_layout_system(a: System, b: System)
    requires
        layout_same_system(a, b),
    ensures
        system_pieces(a) == system_pieces(b),
    decreases a,
{
    lemma_layout_blocks(a.blocks@, b.blocks@);
    lemma_layout_lines(a.lines@, b.lines@);
}

} // verus!
