//! Which signal lines are adjacent for coloring (lines that touch a common
//! block), and the order in which lines are given their colours.

use crate::model::{Branch, Line};
use crate::text::str_eq;
use vstd::prelude::*;

verus! {

/// The destination SIDs of a branch tree, each branch's own before those of
/// its sub-branches.
pub open spec fn branch_sids(bs: Seq<Branch>) -> Seq<Seq<char>>
    decreases bs,
{
    if bs.len() == 0 {
        Seq::empty()
    } else {
        let b = bs.last();
        branch_sids(bs.drop_last()) + (match b.dst {
            Some(d) => seq![d.sid@],
            None => Seq::empty(),
        }) + branch_sids(b.branches@)
    }
}

/// The SIDs of the blocks a line touches: its source, its destination and
/// every branch destination, with repetitions.
pub open spec fn line_sids(l: Line) -> Seq<Seq<char>> {
    (match l.src {
        Some(s) => seq![s.sid@],
        None => Seq::empty(),
    }) + (match l.dst {
        Some(d) => seq![d.sid@],
        None => Seq::empty(),
    }) + branch_sids(l.branches@)
}

/// Whether two SID lists have a SID in common.
pub open spec fn share_sid(a: Seq<Seq<char>>, b: Seq<Seq<char>>) -> bool {
    exists|p: int, q: int| 0 <= p < a.len() && 0 <= q < b.len() && #[trigger] a[p] == #[trigger] b[q]
}

/// Whether lines `i` and `j` are adjacent: two different lines touching a
/// common block.
pub open spec fn adjacent(lines: Seq<Line>, i: int, j: int) -> bool {
    i != j && share_sid(line_sids(lines[i]), line_sids(lines[j]))
}

proof fn lemma_branch_sids_prefix(bs: Seq<Branch>, i: int)
    requires
        0 <= i < bs.len(),
    ensures
        branch_sids(bs.take(i + 1)) == branch_sids(bs.take(i)) + (match bs[i].dst {
            Some(d) => seq![d.sid@],
            None => Seq::empty(),
        }) + branch_sids(bs[i].branches@),
{
    assert(bs.take(i + 1).drop_last() =~= bs.take(i));
}

/// Appends the destination SIDs of the branch tree `bs` to `out`.
fn collect_branch_sids(bs: &Vec<Branch>, out: &mut Vec<String>)
    ensures
        final(out)@.map_values(|s: String| s@) == old(out)@.map_values(|s: String| s@) + branch_sids(
            bs@,
        ),
    decreases bs@,
{
    let ghost start = out@.map_values(|s: String| s@);
    let mut i: usize = 0;
    assert(bs@.take(0) =~= Seq::<Branch>::empty());
    while i < bs.len()
        invariant
            i <= bs@.len(),
            out@.map_values(|s: String| s@) == start + branch_sids(bs@.take(i as int)),
        decreases bs@.len() - i,
    {
        let b = &bs[i];
        proof {
            lemma_branch_sids_prefix(bs@, i as int);
        }
        let ghost before = out@.map_values(|s: String| s@);
        match &b.dst {
            Some(d) => {
                let ghost o = out@;
                out.push(d.sid.clone());
                assert(out@.map_values(|s: String| s@) =~= o.map_values(|s: String| s@).push(d.sid@));
            },
            None => {},
        }
        let ghost mid = out@.map_values(|s: String| s@);
        assert(decreases_to!(bs@ => bs@[i as int]));
        collect_branch_sids(&b.branches, out);
        proof {
            assert(before + (match b.dst {
                Some(d) => seq![d.sid@],
                None => Seq::empty(),
            }) =~= mid);
            assert(start + branch_sids(bs@.take(i + 1)) =~= start + branch_sids(bs@.take(i as int))
                + (match b.dst {
                Some(d) => seq![d.sid@],
                None => Seq::<Seq<char>>::empty(),
            }) + branch_sids(b.branches@));
        }
        i = i + 1;
    }
    assert(bs@.take(bs@.len() as int) =~= bs@);
}

/// The SIDs of the blocks a line touches.
fn line_sid_list(l: &Line) -> (r: Vec<String>)
    ensures
        r@.map_values(|s: String| s@) == line_sids(*l),
{
    let mut out: Vec<String> = Vec::new();
    assert(out@.map_values(|s: String| s@) =~= Seq::<Seq<char>>::empty());
    match &l.src {
        Some(s) => {
            out.push(s.sid.clone());
        },
        None => {},
    }
    match &l.dst {
        Some(d) => {
            let ghost o = out@;
            out.push(d.sid.clone());
            assert(out@.map_values(|s: String| s@) =~= o.map_values(|s: String| s@).push(d.sid@));
        },
        None => {},
    }
    let ghost mid = out@.map_values(|s: String| s@);
    assert(mid =~= (match l.src {
        Some(s) => seq![s.sid@],
        None => Seq::empty(),
    }) + (match l.dst {
        Some(d) => seq![d.sid@],
        None => Seq::empty(),
    }));
    collect_branch_sids(&l.branches, &mut out);
    out
}

/// Whether two SID lists have a SID in common.
fn lists_share(a: &Vec<String>, b: &Vec<String>) -> (r: bool)
    ensures
        r == share_sid(a@.map_values(|s: String| s@), b@.map_values(|s: String| s@)),
{
    let ghost av = a@.map_values(|s: String| s@);
    let ghost bv = b@.map_values(|s: String| s@);
    let mut p: usize = 0;
    while p < a.len()
        invariant
            p <= a@.len(),
            av == a@.map_values(|s: String| s@),
            bv == b@.map_values(|s: String| s@),
            forall|x: int, y: int| 0 <= x < p && 0 <= y < bv.len() ==> #[trigger] av[x] != #[trigger] bv[y],
        decreases a@.len() - p,
    {
        let mut q: usize = 0;
        while q < b.len()
            invariant
                p < a@.len(),
                q <= b@.len(),
                av == a@.map_values(|s: String| s@),
                bv == b@.map_values(|s: String| s@),
                forall|x: int, y: int| 0 <= x < p && 0 <= y < bv.len() ==> #[trigger] av[x] != #[trigger] bv[y],
                forall|y: int| 0 <= y < q ==> av[p as int] != #[trigger] bv[y],
            decreases b@.len() - q,
        {
            if str_eq(a[p].as_str(), b[q].as_str()) {
                assert(av[p as int] == bv[q as int]);
                return true;
            }
            q = q + 1;
        }
        p = p + 1;
    }
    false
}

/// For each line, the other lines adjacent to it (touching a common block),
/// each listed once, in increasing order.
pub fn compute_line_adjacency(lines: &[Line]) -> (r: Vec<Vec<usize>>)
    ensures
        r@.len() == lines@.len(),
        forall|i: int, j: int|
            0 <= i < lines@.len() ==> (#[trigger] r@[i]@.contains(j as usize) && 0 <= j
                < lines@.len() <==> 0 <= j < lines@.len() && adjacent(lines@, i, j)),
        forall|i: int| 0 <= i < lines@.len() ==> (#[trigger] r@[i]@).no_duplicates(),
        forall|i: int, a: int, b: int|
            0 <= i < lines@.len() && 0 <= a < b < r@[i]@.len() ==> #[trigger] r@[i]@[a] < #[trigger] r@[i]@[b],
        forall|i: int, k: int|
            0 <= i < lines@.len() && 0 <= k < r@[i]@.len() ==> #[trigger] r@[i]@[k] < lines@.len(),
{
    let n = lines.len();
    let mut sids: Vec<Vec<String>> = Vec::new();
    let mut i: usize = 0;
    while i < n
        invariant
            n == lines@.len(),
            i <= n,
            sids@.len() == i,
            forall|k: int| 0 <= k < i ==> (#[trigger] sids@[k])@.map_values(|s: String| s@) == line_sids(lines@[k]),
        decreases n - i,
    {
        sids.push(line_sid_list(&lines[i]));
        i = i + 1;
    }
    let mut adjacency: Vec<Vec<usize>> = Vec::new();
    let mut i: usize = 0;
    while i < n
        invariant
            n == lines@.len(),
            i <= n,
            sids@.len() == n,
            forall|k: int| 0 <= k < n ==> (#[trigger] sids@[k])@.map_values(|s: String| s@) == line_sids(lines@[k]),
            adjacency@.len() == i,
            forall|a: int, j: int|
                0 <= a < i ==> (#[trigger] adjacency@[a]@.contains(j as usize) && 0 <= j < n
                    <==> 0 <= j < n && adjacent(lines@, a, j)),
            forall|a: int| 0 <= a < i ==> (#[trigger] adjacency@[a]@).no_duplicates(),
            forall|a: int, x: int, y: int|
                0 <= a < i && 0 <= x < y < adjacency@[a]@.len() ==> #[trigger] adjacency@[a]@[x] < #[trigger] adjacency@[a]@[y],
            forall|a: int, k: int|
                0 <= a < i && 0 <= k < adjacency@[a]@.len() ==> #[trigger] adjacency@[a]@[k] < n,
        decreases n - i,
    {
        let mut row: Vec<usize> = Vec::new();
        let mut j: usize = 0;
        while j < n
            invariant
                n == lines@.len(),
                i < n,
                j <= n,
                sids@.len() == n,
                forall|k: int| 0 <= k < n ==> (#[trigger] sids@[k])@.map_values(|s: String| s@) == line_sids(lines@[k]),
                forall|x: int| 0 <= x < n ==> (#[trigger] row@.contains(x as usize) <==> x < j && adjacent(lines@, i as int, x)),
                row@.no_duplicates(),
                forall|k: int| 0 <= k < row@.len() ==> #[trigger] row@[k] < j,
                forall|x: int, y: int| 0 <= x < y < row@.len() ==> #[trigger] row@[x] < #[trigger] row@[y],
            decreases n - j,
        {
            let adj = if i == j {
                false
            } else {
                lists_share(&sids[i], &sids[j])
            };
            if adj {
                let ghost before = row@;
                row.push(j);
                assert forall|x: int| 0 <= x < n implies (#[trigger] row@.contains(x as usize) <==> x < j + 1
                    && adjacent(lines@, i as int, x)) by {
                    if x == j {
                        assert(row@[before.len() as int] == j);
                    } else if row@.contains(x as usize) {
                        let k = choose|k: int| 0 <= k < row@.len() && row@[k] == x as usize;
                        assert(k < before.len());
                        assert(before.contains(x as usize));
                    } else if x < j && adjacent(lines@, i as int, x) {
                        assert(before.contains(x as usize));
                        let k = choose|k: int| 0 <= k < before.len() && before[k] == x as usize;
                        assert(row@[k] == x as usize);
                    }
                }
                assert forall|a: int, b: int| 0 <= a < b < row@.len() implies row@[a] != row@[b] by {
                    if b == before.len() {
                        assert(before[a] < j);
                    }
                }
            } else {
                assert forall|x: int| 0 <= x < n implies (#[trigger] row@.contains(x as usize) <==> x < j + 1
                    && adjacent(lines@, i as int, x)) by {
                    if row@.contains(x as usize) {
                        let k = choose|k: int| 0 <= k < row@.len() && row@[k] == x as usize;
                        assert(row@[k] < j);
                    }
                }
            }
            j = j + 1;
        }
        let ghost before = adjacency@;
        adjacency.push(row);
        assert forall|a: int, x: int, y: int|
            0 <= a < i + 1 && 0 <= x < y < adjacency@[a]@.len() implies #[trigger] adjacency@[a]@[x] < #[trigger] adjacency@[a]@[y] by {
            if a < i {
                assert(adjacency@[a] == before[a]);
            }
        }
        assert forall|a: int, jj: int|
            0 <= a < i + 1 implies (#[trigger] adjacency@[a]@.contains(jj as usize) && 0 <= jj < n
                <==> 0 <= jj < n && adjacent(lines@, a, jj)) by {
            if a < i {
                assert(adjacency@[a] == before[a]);
            }
        }
        i = i + 1;
    }
    adjacency
}

/// Adjacency is symmetric: line `i` is adjacent to line `j` exactly when
/// `j` is adjacent to `i`.
pub proof fn lemma_adjacency_symmetric(lines: Seq<Line>, i: int, j: int)
    ensures
        adjacent(lines, i, j) == adjacent(lines, j, i),
{
    if i != j {
        let a = line_sids(lines[i]);
        let b = line_sids(lines[j]);
        if share_sid(a, b) {
            let (p, q) = choose|p: int, q: int| 0 <= p < a.len() && 0 <= q < b.len() && #[trigger] a[p] == #[trigger] b[q];
            assert(b[q] == a[p]);
            assert(share_sid(b, a));
        }
        if share_sid(b, a) {
            let (p, q) = choose|p: int, q: int| 0 <= p < b.len() && 0 <= q < a.len() && #[trigger] b[p] == #[trigger] a[q];
            assert(a[q] == b[p]);
            assert(share_sid(a, b));
        }
    }
}

/// Whether line `i` is colored before line `j`: lines with more neighbours
/// come first, and among lines with as many, the lower index.
pub open spec fn colored_before(adjacency: Seq<Vec<usize>>, i: int, j: int) -> bool {
    adjacency[i].len() > adjacency[j].len() || (adjacency[i].len() == adjacency[j].len() && i < j)
}

/// The order in which lines receive their colours: every line index exactly
/// once, from the most connected line to the least, ties by index.
pub fn coloring_order(adjacency: &Vec<Vec<usize>>) -> (order: Vec<usize>)
    ensures
        forall|k: int| 0 <= k < order.len() ==> order[k] < adjacency.len(),
        forall|k: int, l: int|
            0 <= k < l < order.len() ==> colored_before(adjacency@, #[trigger] order[k] as int, #[trigger] order[l] as int),
        forall|i: int| 0 <= i < adjacency.len() ==> #[trigger] order@.contains(i as usize),
{
    let n = adjacency.len();
    let mut max_deg: usize = 0;
    for i in 0..n
        invariant
            n == adjacency.len(),
            forall|j: int| 0 <= j < i ==> #[trigger] adjacency[j].len() <= max_deg,
    {
        if adjacency[i].len() > max_deg {
            max_deg = adjacency[i].len();
        }
    }
    let mut order: Vec<usize> = Vec::new();
    let mut level: usize = max_deg;
    loop
        invariant_except_break
            forall|k: int| 0 <= k < order.len() ==> adjacency[#[trigger] order[k] as int].len() > level,
            forall|j: int| 0 <= j < n && adjacency[j].len() > level ==> order@.contains(j as usize),
        invariant
            n == adjacency.len(),
            level <= max_deg,
            forall|j: int| 0 <= j < n ==> #[trigger] adjacency[j].len() <= max_deg,
            forall|k: int| 0 <= k < order.len() ==> order[k] < n,
            forall|k: int, l: int|
                0 <= k < l < order.len() ==> colored_before(adjacency@, #[trigger] order[k] as int, #[trigger] order[l] as int),
        ensures
            forall|j: int| 0 <= j < n ==> #[trigger] order@.contains(j as usize),
        decreases level,
    {
        for i in 0..n
            invariant
                n == adjacency.len(),
                forall|k: int| 0 <= k < order.len() ==> order[k] < n,
                forall|k: int, l: int|
                    0 <= k < l < order.len() ==> colored_before(adjacency@, #[trigger] order[k] as int, #[trigger] order[l] as int),
                forall|k: int|
                    0 <= k < order.len() ==> adjacency[#[trigger] order[k] as int].len() > level || (
                    adjacency[order[k] as int].len() == level && order[k] < i),
                forall|j: int| 0 <= j < n && adjacency[j].len() > level ==> order@.contains(j as usize),
                forall|j: int| 0 <= j < i && adjacency[j].len() == level ==> order@.contains(j as usize),
        {
            if adjacency[i].len() == level {
                let ghost before = order@;
                order.push(i);
                proof {
                    assert forall|j: int| 0 <= j < n && adjacency[j].len() > level implies order@.contains(j as usize) by {
                        let k = choose|k: int| 0 <= k < before.len() && before[k] == j as usize;
                        assert(order@[k] == j as usize);
                    }
                    assert forall|j: int| 0 <= j < i + 1 && adjacency[j].len() == level implies order@.contains(j as usize) by {
                        if j == i {
                            assert(order@[before.len() as int] == i);
                        } else {
                            let k = choose|k: int| 0 <= k < before.len() && before[k] == j as usize;
                            assert(order@[k] == j as usize);
                        }
                    }
                }
            }
        }
        if level == 0 {
            proof {
                assert forall|j: int| 0 <= j < n implies #[trigger] order@.contains(j as usize) by {
                    if adjacency[j].len() > level {
                    } else {
                        assert(adjacency[j].len() == 0);
                    }
                }
            }
            break;
        }
        level = level - 1;
    }
    order
}

} // verus!
