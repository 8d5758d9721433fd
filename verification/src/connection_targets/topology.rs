//! Line identities and the cache keys of resolved targets.

use crate::model::{Branch, EndpointRef, Line};
use crate::text::{chars_eq, chars_of, concat_chars, decimal, decimal_chars};
use vstd::prelude::*;

verus! {

/// `sid:port_type:port_index` of an endpoint.
pub open spec fn endpoint_text(e: EndpointRef) -> Seq<char> {
    e.sid@ + ":"@ + e.port_type@ + ":"@ + decimal(e.port_index as nat)
}

/// Appends the characters of `s` to `out`.
pub fn push_str(out: &mut Vec<char>, s: &str)
    ensures
        final(out)@ == old(out)@ + s@,
{
    let cs = chars_of(s);
    let r = concat_chars(out.as_slice(), cs.as_slice());
    *out = r;
}

/// Appends the characters of `s` to `out`.
pub fn push_chars(out: &mut Vec<char>, s: &[char])
    ensures
        final(out)@ == old(out)@ + s@,
{
    let r = concat_chars(out.as_slice(), s);
    *out = r;
}

/// `sid:port_type:port_index` of an endpoint.
pub fn endpoint_text_exec(e: &EndpointRef) -> (r: Vec<char>)
    ensures
        r@ == endpoint_text(*e),
{
    let mut out = chars_of(e.sid.as_str());
    push_str(&mut out, ":");
    push_str(&mut out, e.port_type.as_str());
    push_str(&mut out, ":");
    let d = decimal_chars(e.port_index as u64);
    push_chars(&mut out, d.as_slice());
    out
}

/// The endpoint texts of a branch tree in depth-first order: each branch's
/// own destination before those of its sub-branches.
pub open spec fn branch_parts(bs: Seq<Branch>) -> Seq<Seq<char>>
    decreases bs,
{
    if bs.len() == 0 {
        Seq::empty()
    } else {
        let b = bs.last();
        branch_parts(bs.drop_last()) + (match b.dst {
            Some(d) => seq![endpoint_text(d)],
            None => Seq::empty(),
        }) + branch_parts(b.branches@)
    }
}

/// `parts` joined by `sep`, empty parts included.
pub open spec fn join_all(parts: Seq<Seq<char>>, sep: Seq<char>) -> Seq<char>
    decreases parts.len(),
{
    if parts.len() == 0 {
        Seq::empty()
    } else if parts.len() == 1 {
        parts[0]
    } else {
        join_all(parts.drop_last(), sep) + sep + parts.last()
    }
}

proof fn lemma_branch_parts_prefix(bs: Seq<Branch>, i: int)
    requires
        0 <= i < bs.len(),
    ensures
        branch_parts(bs.take(i + 1)) == branch_parts(bs.take(i)) + (match bs[i].dst {
            Some(d) => seq![endpoint_text(d)],
            None => Seq::empty(),
        }) + branch_parts(bs[i].branches@),
{
    assert(bs.take(i + 1).drop_last() =~= bs.take(i));
}

/// Appends the endpoint texts of the branch tree `bs` to `parts`.
fn collect_branch_identity(bs: &Vec<Branch>, parts: &mut Vec<Vec<char>>)
    ensures
        final(parts)@.map_values(|p: Vec<char>| p@) == old(parts)@.map_values(|p: Vec<char>| p@)
            + branch_parts(bs@),
    decreases bs@,
{
    let ghost start = parts@.map_values(|p: Vec<char>| p@);
    let mut i: usize = 0;
    assert(bs@.take(0) =~= Seq::<Branch>::empty());
    while i < bs.len()
        invariant
            i <= bs@.len(),
            parts@.map_values(|p: Vec<char>| p@) == start + branch_parts(bs@.take(i as int)),
        decreases bs@.len() - i,
    {
        let b = &bs[i];
        proof {
            lemma_branch_parts_prefix(bs@, i as int);
        }
        let ghost before = parts@.map_values(|p: Vec<char>| p@);
        match &b.dst {
            Some(d) => {
                let t = endpoint_text_exec(d);
                parts.push(t);
                assert(parts@.map_values(|p: Vec<char>| p@) =~= before.push(endpoint_text(*d)));
            },
            None => {},
        }
        let ghost mid = parts@.map_values(|p: Vec<char>| p@);
        assert(decreases_to!(bs@ => bs@[i as int]));
        collect_branch_identity(&b.branches, parts);
        proof {
            assert(before + (match b.dst {
                Some(d) => seq![endpoint_text(d)],
                None => Seq::empty(),
            }) =~= mid);
            assert(start + branch_parts(bs@.take(i + 1)) =~= start + branch_parts(bs@.take(i as int))
                + (match b.dst {
                Some(d) => seq![endpoint_text(d)],
                None => Seq::empty(),
            }) + branch_parts(b.branches@));
        }
        i = i + 1;
    }
    assert(bs@.take(bs@.len() as int) =~= bs@);
}

/// `parts` joined by `sep`.
pub fn join_all_exec(parts: &Vec<Vec<char>>, sep: &str) -> (r: Vec<char>)
    ensures
        r@ == join_all(parts@.map_values(|p: Vec<char>| p@), sep@),
{
    let ghost ps = parts@.map_values(|p: Vec<char>| p@);
    let mut out: Vec<char> = Vec::new();
    let mut i: usize = 0;
    while i < parts.len()
        invariant
            i <= parts@.len(),
            ps == parts@.map_values(|p: Vec<char>| p@),
            out@ == join_all(ps.take(i as int), sep@),
        decreases parts@.len() - i,
    {
        assert(ps.take(i + 1).drop_last() =~= ps.take(i as int));
        if i > 0 {
            push_str(&mut out, sep);
        }
        push_chars(&mut out, parts[i].as_slice());
        assert(i == 0 ==> ps.take(i + 1) =~= seq![ps[0]]);
        assert(i == 0 ==> out@ =~= ps[0]);
        i = i + 1;
    }
    assert(ps.take(ps.len() as int) =~= ps);
    out
}

/// The identity of a line: its endpoints (the branch endpoints when it has
/// no destination of its own) and its name; its corner points are layout and
/// stay out, so a line keeps its identity when it is re-routed.
pub open spec fn line_identity(line: Line) -> Seq<char> {
    let src = match line.src {
        Some(e) => endpoint_text(e),
        None => "none"@,
    };
    let dst = match line.dst {
        Some(e) => endpoint_text(e),
        None => join_all(branch_parts(line.branches@), ","@),
    };
    let name = match line.name {
        Some(n) => n@,
        None => ""@,
    };
    src + "->"@ + dst + ":"@ + name
}

/// The identity of a line.
pub fn line_identity_exec(line: &Line) -> (r: Vec<char>)
    ensures
        r@ == line_identity(*line),
{
    let mut out = match &line.src {
        Some(e) => endpoint_text_exec(e),
        None => chars_of("none"),
    };
    push_str(&mut out, "->");
    match &line.dst {
        Some(e) => {
            let t = endpoint_text_exec(e);
            push_chars(&mut out, t.as_slice());
        },
        None => {
            let mut parts: Vec<Vec<char>> = Vec::new();
            collect_branch_identity(&line.branches, &mut parts);
            assert(parts@.map_values(|p: Vec<char>| p@) =~= branch_parts(line.branches@));
            let j = join_all_exec(&parts, ",");
            push_chars(&mut out, j.as_slice());
        },
    }
    push_str(&mut out, ":");
    match &line.name {
        Some(n) => push_str(&mut out, n.as_str()),
        None => push_str(&mut out, ""),
    }
    out
}

/// Whether two lines have the same identity.
pub fn same_line(left: &Line, right: &Line) -> (r: bool)
    ensures
        r == (line_identity(*left) == line_identity(*right)),
{
    let a = line_identity_exec(left);
    let b = line_identity_exec(right);
    chars_eq(a.as_slice(), b.as_slice())
}

} // verus!
