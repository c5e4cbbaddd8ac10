//! Enclosed background loops of a 128×128 digit sample: the background
//! components that the background reachable from the image border does not
//! reach. Digit 8 has two, 0, 6 and 9 have one, the others none.
use vstd::prelude::*;
use std::collections::VecDeque;

verus! {

/// Width of the sample grid.
pub const GRID_W: usize = 128;

/// Height of the sample grid.
pub const GRID_H: usize = 128;

/// Cells of the sample grid.
pub const GRID_N: usize = 16384;

// ---------------------------------------------------------------------------
// Specifications
// ---------------------------------------------------------------------------

/// `b` is one of the four neighbours of cell `a` (left, right, above, below).
pub open spec fn nbr(a: int, b: int) -> bool {
    &&& 0 <= a < 16384
    &&& {
        ||| (a % 128 > 0 && b == a - 1)
        ||| (a % 128 + 1 < 128 && b == a + 1)
        ||| (a / 128 > 0 && b == a - 128)
        ||| (a / 128 + 1 < 128 && b == a + 128)
    }
}

/// A walk through background cells, each step to a neighbour.
pub open spec fn is_path(bg: Seq<bool>, p: Seq<int>) -> bool {
    &&& p.len() >= 1
    &&& forall|i: int| 0 <= i < p.len() ==> 0 <= #[trigger] p[i] < 16384 && bg[p[i]]
    &&& forall|i: int| 0 <= i < p.len() - 1 ==> nbr(#[trigger] p[i], p[i + 1])
}

/// Cell `b` can be reached from cell `a` through the background.
pub open spec fn connected(bg: Seq<bool>, a: int, b: int) -> bool {
    exists|p: Seq<int>| #[trigger] is_path(bg, p) && p[0] == a && p.last() == b
}

pub open spec fn on_border(c: int) -> bool {
    c % 128 == 0 || c % 128 == 127 || c / 128 == 0 || c / 128 == 127
}

/// Background reachable from background on the image border.
pub open spec fn exterior(bg: Seq<bool>, c: int) -> bool {
    exists|b: int| 0 <= b < 16384 && on_border(b) && #[trigger] connected(bg, b, c)
}

/// `s` is the first cell (in row-major order) of an enclosed background component.
pub open spec fn is_loop_start(bg: Seq<bool>, s: int) -> bool {
    &&& 0 <= s < 16384
    &&& bg[s]
    &&& !exterior(bg, s)
    &&& forall|t: int| 0 <= t < s ==> !#[trigger] connected(bg, t, s)
}

/// The enclosed components whose first cell lies before `n`.
pub open spec fn loops_below(bg: Seq<bool>, n: int) -> nat
    decreases n,
{
    if n <= 0 {
        0
    } else {
        loops_below(bg, n - 1) + if is_loop_start(bg, n - 1) { 1nat } else { 0nat }
    }
}

/// The number of enclosed background components.
pub open spec fn enclosed_loops(bg: Seq<bool>) -> nat {
    loops_below(bg, 16384)
}

/// Unmarked cells.
pub open spec fn unmarked(v: Seq<bool>) -> nat
    decreases v.len(),
{
    if v.len() == 0 {
        0
    } else {
        unmarked(v.drop_last()) + if v.last() { 0nat } else { 1nat }
    }
}

/// Every marked cell outside the queue has its background neighbours marked.
pub open spec fn closed_except(bg: Seq<bool>, v: Seq<bool>, q: Seq<usize>) -> bool {
    forall|c: int, b: int|
        0 <= c < 16384 && v[c] && !q.contains(c as usize) && #[trigger] nbr(c, b) && bg[b]
            ==> v[b]
}

// ---------------------------------------------------------------------------
// Lemmas
// ---------------------------------------------------------------------------

proof fn lemma_unmarked_mark(v: Seq<bool>, i: int)
    requires
        0 <= i < v.len(),
        !v[i],
    ensures
        unmarked(v.update(i, true)) + 1 == unmarked(v),
    decreases v.len(),
{
    let w = v.update(i, true);
    if i == v.len() - 1 {
        assert(w.drop_last() =~= v.drop_last());
    } else {
        assert(w.drop_last() =~= v.drop_last().update(i, true));
        lemma_unmarked_mark(v.drop_last(), i);
    }
}

proof fn lemma_connected_refl(bg: Seq<bool>, a: int)
    requires
        0 <= a < 16384,
        bg.len() == 16384,
        bg[a],
    ensures
        connected(bg, a, a),
{
    let p = seq![a];
    assert(is_path(bg, p));
}

proof fn lemma_connected_step(bg: Seq<bool>, a: int, b: int, c: int)
    requires
        connected(bg, a, b),
        nbr(b, c),
        0 <= c < 16384,
        bg[c],
    ensures
        connected(bg, a, c),
{
    let p = choose|p: Seq<int>| #[trigger] is_path(bg, p) && p[0] == a && p.last() == b;
    let q = p.push(c);
    assert forall|i: int| 0 <= i < q.len() - 1 implies nbr(#[trigger] q[i], q[i + 1]) by {
        if i == p.len() - 1 {
            assert(q[i] == b);
        } else {
            assert(q[i] == p[i] && q[i + 1] == p[i + 1]);
        }
    }
    assert forall|i: int| 0 <= i < q.len() implies 0 <= #[trigger] q[i] < 16384 && bg[q[i]] by {
        if i < p.len() {
            assert(q[i] == p[i]);
        }
    }
    assert(is_path(bg, q));
}

proof fn lemma_connected_trans(bg: Seq<bool>, a: int, b: int, c: int)
    requires
        connected(bg, a, b),
        connected(bg, b, c),
    ensures
        connected(bg, a, c),
{
    let p = choose|p: Seq<int>| #[trigger] is_path(bg, p) && p[0] == a && p.last() == b;
    let r = choose|r: Seq<int>| #[trigger] is_path(bg, r) && r[0] == b && r.last() == c;
    let q = p + r.drop_first();
    assert forall|i: int| 0 <= i < q.len() implies 0 <= #[trigger] q[i] < 16384 && bg[q[i]] by {
        if i < p.len() {
            assert(q[i] == p[i]);
        } else {
            assert(q[i] == r[i - p.len() + 1]);
        }
    }
    assert forall|i: int| 0 <= i < q.len() - 1 implies nbr(#[trigger] q[i], q[i + 1]) by {
        if i < p.len() - 1 {
            assert(q[i] == p[i] && q[i + 1] == p[i + 1]);
        } else if i == p.len() - 1 {
            assert(q[i] == b);
            assert(q[i + 1] == r[1]);
            assert(r[0] == b);
            assert(nbr(r[0], r[1]));
        } else {
            assert(q[i] == r[i - p.len() + 1]);
            assert(q[i + 1] == r[i - p.len() + 2]);
        }
    }
    assert(is_path(bg, q));
    if r.len() == 1 {
        assert(q =~= p);
    } else {
        assert(q.last() == r.last());
    }
}

proof fn lemma_closed_path(bg: Seq<bool>, v: Seq<bool>, p: Seq<int>, k: int)
    requires
        v.len() == 16384,
        closed_except(bg, v, Seq::<usize>::empty()),
        is_path(bg, p),
        v[p[0]],
        0 <= k < p.len(),
    ensures
        v[p[k]],
    decreases k,
{
    if k > 0 {
        lemma_closed_path(bg, v, p, k - 1);
        assert(nbr(p[k - 1], p[k]));
        assert(0 <= p[k] < 16384 && bg[p[k]]);
        assert(0 <= p[k - 1] < 16384);
        assert(!Seq::<usize>::empty().contains(p[k - 1] as usize));
    }
}

/// A marked set that is closed under background neighbours holds every cell
/// reachable from one of its cells.
proof fn lemma_closed_reach(bg: Seq<bool>, v: Seq<bool>, a: int, c: int)
    requires
        v.len() == 16384,
        closed_except(bg, v, Seq::<usize>::empty()),
        0 <= a < 16384,
        v[a],
        connected(bg, a, c),
    ensures
        v[c],
{
    let p = choose|p: Seq<int>| #[trigger] is_path(bg, p) && p[0] == a && p.last() == c;
    lemma_closed_path(bg, v, p, p.len() - 1);
}

// ---------------------------------------------------------------------------
// Flood fill
// ---------------------------------------------------------------------------

/// Marks and queues a background neighbour not yet marked.
fn visit(bg: &Vec<bool>, visited: &mut Vec<bool>, queue: &mut VecDeque<usize>, nb: usize)
    requires
        bg@.len() == 16384,
        old(visited)@.len() == 16384,
        nb < 16384,
    ensures
        final(visited)@.len() == 16384,
        if bg@[nb as int] && !old(visited)@[nb as int] {
            &&& final(visited)@ == old(visited)@.update(nb as int, true)
            &&& final(queue)@ == old(queue)@.push(nb)
        } else {
            &&& final(visited)@ == old(visited)@
            &&& final(queue)@ == old(queue)@
        },
        forall|c: usize| old(queue)@.contains(c) ==> #[trigger] final(queue)@.contains(c),
        final(visited)@[nb as int] ==> final(queue)@.contains(nb) || old(visited)@[nb as int],
{
    let ghost q0 = queue@;
    if bg[nb] && !visited[nb] {
        visited.set(nb, true);
        queue.push_back(nb);
        proof {
            assert(queue@[q0.len() as int] == nb);
            assert forall|c: usize| q0.contains(c) implies #[trigger] queue@.contains(c) by {
                let k = choose|k: int| 0 <= k < q0.len() && q0[k] == c;
                assert(queue@[k] == c);
            }
        }
    }
}

/// Marks and queues the background neighbours of `idx` not yet marked, in the
/// order left, right, above, below.
#[verifier::rlimit(60)]
fn visit_neighbours(bg: &Vec<bool>, visited: &mut Vec<bool>, queue: &mut VecDeque<usize>, idx: usize)
    requires
        bg@.len() == 16384,
        old(visited)@.len() == 16384,
        idx < 16384,
    ensures
        final(visited)@.len() == 16384,
        forall|c: int|
            0 <= c < 16384 ==> #[trigger] final(visited)@[c] == (old(visited)@[c] || (nbr(
                idx as int,
                c,
            ) && bg@[c])),
        final(queue)@.len() >= old(queue)@.len(),
        forall|i: int| 0 <= i < old(queue)@.len() ==> #[trigger] final(queue)@[i] == old(queue)@[i],
        forall|i: int|
            old(queue)@.len() <= i < final(queue)@.len() ==> (#[trigger] final(queue)@[i]) < 16384
                && nbr(idx as int, final(queue)@[i] as int) && bg@[final(queue)@[i] as int]
                && !old(visited)@[final(queue)@[i] as int],
        unmarked(final(visited)@) + final(queue)@.len() == unmarked(old(visited)@) + old(
            queue,
        )@.len(),
        forall|c: int|
            0 <= c < 16384 && #[trigger] nbr(idx as int, c) && bg@[c] && !old(visited)@[c]
                ==> final(queue)@.contains(c as usize),
{
    let ghost v0 = visited@;
    let ghost q0 = queue@;
    let x = idx % 128;
    let y = idx / 128;
    let ghost i = idx as int;
    // left
    let ghost va = visited@;
    let ghost qa = queue@;
    if x > 0 {
        visit(bg, visited, queue, idx - 1);
        proof {
            if bg@[i - 1] && !va[i - 1] {
                lemma_unmarked_mark(va, i - 1);
            }
        }
    }
    // right
    let ghost vb = visited@;
    let ghost qb = queue@;
    if x + 1 < 128 {
        visit(bg, visited, queue, idx + 1);
        proof {
            if bg@[i + 1] && !vb[i + 1] {
                lemma_unmarked_mark(vb, i + 1);
            }
        }
    }
    // above
    let ghost vc = visited@;
    let ghost qc = queue@;
    if y > 0 {
        visit(bg, visited, queue, idx - 128);
        proof {
            if bg@[i - 128] && !vc[i - 128] {
                lemma_unmarked_mark(vc, i - 128);
            }
        }
    }
    // below
    let ghost vd = visited@;
    let ghost qd = queue@;
    if y + 1 < 128 {
        visit(bg, visited, queue, idx + 128);
        proof {
            if bg@[i + 128] && !vd[i + 128] {
                lemma_unmarked_mark(vd, i + 128);
            }
        }
    }
    proof {
        assert forall|c: int| 0 <= c < 16384 implies #[trigger] visited@[c] == (v0[c] || (nbr(i, c)
            && bg@[c])) by {
            if nbr(i, c) {
                assert(c == i - 1 || c == i + 1 || c == i - 128 || c == i + 128);
            }
        }
        assert forall|k: int| q0.len() <= k < queue@.len() implies (#[trigger] queue@[k]) < 16384
            && nbr(i, queue@[k] as int) && bg@[queue@[k] as int] && !v0[queue@[k] as int] by {
            let e = queue@[k] as int;
            if k < qb.len() {
                assert(e == i - 1);
            } else if k < qc.len() {
                assert(e == i + 1);
            } else if k < qd.len() {
                assert(e == i - 128);
            } else {
                assert(e == i + 128);
            }
        }
        assert forall|c: int|
            0 <= c < 16384 && #[trigger] nbr(i, c) && bg@[c] && !v0[c] implies queue@.contains(
            c as usize,
        ) by {
            if c == i - 1 {
                assert(queue@[qa.len() as int] == qb[qa.len() as int]);
            } else if c == i + 1 {
                assert(queue@[qb.len() as int] == qc[qb.len() as int]);
            } else if c == i - 128 {
                assert(queue@[qc.len() as int] == qd[qc.len() as int]);
            } else {
                assert(queue@[qd.len() as int] == c as usize);
            }
        }
    }
}

/// Cell `c` can be reached from one of the seeds.
pub open spec fn reached(bg: Seq<bool>, seeds: Seq<usize>, c: int) -> bool {
    exists|s: usize| seeds.contains(s) && #[trigger] connected(bg, s as int, c)
}

proof fn lemma_reached_step(bg: Seq<bool>, seeds: Seq<usize>, b: int, c: int)
    requires
        reached(bg, seeds, b),
        nbr(b, c),
        0 <= c < 16384,
        bg[c],
    ensures
        reached(bg, seeds, c),
{
    let s = choose|s: usize| seeds.contains(s) && #[trigger] connected(bg, s as int, b);
    lemma_connected_step(bg, s as int, b, c);
}

/// The flood-fill loop's invariant.
pub open spec fn flood_inv(
    bg: Seq<bool>,
    v0: Seq<bool>,
    seeds: Seq<usize>,
    v: Seq<bool>,
    q: Seq<usize>,
) -> bool {
    &&& bg.len() == 16384
    &&& v.len() == 16384
    &&& v0.len() == 16384
    &&& forall|i: int| 0 <= i < q.len() ==> (#[trigger] q[i]) < 16384 && v[q[i] as int]
    &&& forall|c: int| 0 <= c < 16384 && v[c] ==> bg[c]
    &&& closed_except(bg, v, q)
    &&& forall|c: int| 0 <= c < 16384 && v0[c] ==> v[c]
    &&& forall|c: int| 0 <= c < 16384 && v[c] ==> v0[c] || reached(bg, seeds, c)
    &&& forall|i: int| 0 <= i < q.len() ==> reached(bg, seeds, #[trigger] q[i] as int)
}

/// One round of the flood fill keeps its invariant.
proof fn lemma_flood_step(
    bg: Seq<bool>,
    v0: Seq<bool>,
    seeds: Seq<usize>,
    vq: Seq<bool>,
    qq: Seq<usize>,
    v: Seq<bool>,
    q: Seq<usize>,
    idx: usize,
)
    requires
        flood_inv(bg, v0, seeds, vq, qq),
        qq.len() >= 1,
        qq[0] == idx,
        v.len() == 16384,
        forall|c: int|
            0 <= c < 16384 ==> #[trigger] v[c] == (vq[c] || (nbr(idx as int, c) && bg[c])),
        q.len() >= qq.len() - 1,
        forall|i: int| 0 <= i < qq.len() - 1 ==> #[trigger] q[i] == qq[i + 1],
        forall|i: int|
            qq.len() - 1 <= i < q.len() ==> (#[trigger] q[i]) < 16384 && nbr(idx as int, q[i] as int)
                && bg[q[i] as int] && !vq[q[i] as int],
        forall|c: int|
            0 <= c < 16384 && #[trigger] nbr(idx as int, c) && bg[c] && !vq[c] ==> q.contains(
                c as usize,
            ),
    ensures
        flood_inv(bg, v0, seeds, v, q),
{
    let i = idx as int;
    assert(reached(bg, seeds, qq[0] as int));
    assert forall|k: int| 0 <= k < q.len() implies (#[trigger] q[k]) < 16384 && v[q[k] as int] by {
        if k < qq.len() - 1 {
            assert(q[k] == qq[k + 1]);
        }
    }
    assert forall|k: int| 0 <= k < q.len() implies reached(bg, seeds, #[trigger] q[k] as int) by {
        if k < qq.len() - 1 {
            assert(q[k] == qq[k + 1]);
        } else {
            lemma_reached_step(bg, seeds, i, q[k] as int);
        }
    }
    assert forall|c: int| 0 <= c < 16384 && v[c] implies v0[c] || reached(bg, seeds, c) by {
        if !vq[c] {
            lemma_reached_step(bg, seeds, i, c);
        }
    }
    assert forall|c: int, b: int|
        0 <= c < 16384 && v[c] && !q.contains(c as usize) && #[trigger] nbr(c, b) && bg[b] implies v[b] by {
        if c != i {
            if !vq[c] {
                assert(q.contains(c as usize));
            }
            assert(!qq.contains(c as usize)) by {
                if qq.contains(c as usize) {
                    let k = choose|k: int| 0 <= k < qq.len() && qq[k] == c as usize;
                    assert(k != 0);
                    assert(q[k - 1] == qq[k]);
                }
            }
            if 0 <= b < 16384 {
                assert(vq[b]);
            }
        } else {
            assert(0 <= b < 16384) by {
                assert(nbr(c, b));
            }
        }
    }
}

/// Marks every background cell reachable from the queued cells. The queued
/// cells are marked background cells, and every other marked cell has its
/// background neighbours marked; afterwards the marked set is closed and holds
/// only what was marked before or is reachable from a queued cell.
fn flood(bg: &Vec<bool>, visited: &mut Vec<bool>, queue: &mut VecDeque<usize>)
    requires
        bg@.len() == 16384,
        old(visited)@.len() == 16384,
        forall|i: int|
            0 <= i < old(queue)@.len() ==> (#[trigger] old(queue)@[i]) < 16384 && old(
                visited,
            )@[old(queue)@[i] as int],
        forall|c: int| 0 <= c < 16384 && old(visited)@[c] ==> bg@[c],
        closed_except(bg@, old(visited)@, old(queue)@),
    ensures
        final(visited)@.len() == 16384,
        forall|c: int| 0 <= c < 16384 && old(visited)@[c] ==> final(visited)@[c],
        forall|c: int| 0 <= c < 16384 && final(visited)@[c] ==> bg@[c],
        forall|c: int|
            0 <= c < 16384 && final(visited)@[c] ==> old(visited)@[c] || reached(
                bg@,
                old(queue)@,
                c,
            ),
        closed_except(bg@, final(visited)@, Seq::<usize>::empty()),
{
    let ghost seeds = queue@;
    let ghost v0 = visited@;
    proof {
        assert forall|i: int| 0 <= i < seeds.len() implies reached(bg@, seeds, #[trigger] seeds[i] as int) by {
            lemma_connected_refl(bg@, seeds[i] as int);
            assert(seeds.contains(seeds[i]));
        }
    }
    loop
        invariant
            flood_inv(bg@, v0, seeds, visited@, queue@),
        ensures
            flood_inv(bg@, v0, seeds, visited@, queue@),
            queue@.len() == 0,
        decreases unmarked(visited@), queue@.len(),
    {
        let ghost vq = visited@;
        let ghost qq = queue@;
        let popped = queue.pop_front();
        match popped {
            None => {
                break;
            },
            Some(idx) => {
                assert(qq[0] == idx);
                assert(queue@ =~= qq.drop_first());
                visit_neighbours(bg, visited, queue, idx);
                proof {
                    lemma_flood_step(bg@, v0, seeds, vq, qq, visited@, queue@, idx);
                }
            },
        }
    }
    assert(queue@ =~= Seq::<usize>::empty());
}

proof fn lemma_connected_bg(bg: Seq<bool>, a: int, b: int)
    requires
        connected(bg, a, b),
    ensures
        0 <= a < 16384,
        bg[a],
        0 <= b < 16384,
        bg[b],
{
    let p = choose|p: Seq<int>| #[trigger] is_path(bg, p) && p[0] == a && p.last() == b;
    assert(0 <= p[0] < 16384 && bg[p[0]]);
    assert(0 <= p[p.len() - 1] < 16384 && bg[p[p.len() - 1]]);
}

proof fn lemma_loops_below_bound(bg: Seq<bool>, n: int)
    requires
        n >= 0,
    ensures
        loops_below(bg, n) <= n,
    decreases n,
{
    if n > 0 {
        lemma_loops_below_bound(bg, n - 1);
    }
}

/// Marked cells of the second pass: the exterior and the components of the
/// cells before `start`.
pub open spec fn covered(bg: Seq<bool>, start: int, c: int) -> bool {
    exterior(bg, c) || exists|t: int| 0 <= t < start && #[trigger] connected(bg, t, c)
}

/// Marks the background reachable from the border: the exterior.
fn mark_exterior(bg: &Vec<bool>) -> (v: Vec<bool>)
    requires
        bg@.len() == 16384,
    ensures
        v@.len() == 16384,
        forall|c: int| 0 <= c < 16384 ==> (#[trigger] v@[c] <==> exterior(bg@, c)),
        closed_except(bg@, v@, Seq::<usize>::empty()),
{
    let mut exterior_v: Vec<bool> = Vec::new();
    let mut k: usize = 0;
    while k < 16384
        invariant
            k <= 16384,
            exterior_v@.len() == k,
            forall|c: int| 0 <= c < k ==> !(#[trigger] exterior_v@[c]),
        decreases 16384 - k,
    {
        exterior_v.push(false);
        k = k + 1;
    }
    let mut queue: VecDeque<usize> = VecDeque::new();
    // Seed the flood fill from all four borders.
    let mut x: usize = 0;
    while x < 128
        invariant
            x <= 128,
            bg@.len() == 16384,
            exterior_v@.len() == 16384,
            forall|c: int| 0 <= c < 16384 && #[trigger] exterior_v@[c] ==> bg@[c] && on_border(c),
            forall|c: int| 0 <= c < 16384 && #[trigger] exterior_v@[c] ==> queue@.contains(c as usize),
            forall|i: int| 0 <= i < queue@.len() ==> (#[trigger] queue@[i]) < 16384 && exterior_v@[queue@[i] as int],
            forall|c: int| 0 <= c < x ==> (bg@[c] ==> #[trigger] exterior_v@[c]),
            forall|c: int| 16256 <= c < 16256 + x ==> (bg@[c] ==> #[trigger] exterior_v@[c]),
        decreases 128 - x,
    {
        let idx_top = x;
        let idx_bot = 127 * 128 + x;
        visit(bg, &mut exterior_v, &mut queue, idx_top);
        visit(bg, &mut exterior_v, &mut queue, idx_bot);
        x = x + 1;
    }
    let mut y: usize = 0;
    while y < 128
        invariant
            y <= 128,
            bg@.len() == 16384,
            exterior_v@.len() == 16384,
            forall|c: int| 0 <= c < 16384 && #[trigger] exterior_v@[c] ==> bg@[c] && on_border(c),
            forall|c: int| 0 <= c < 16384 && #[trigger] exterior_v@[c] ==> queue@.contains(c as usize),
            forall|i: int| 0 <= i < queue@.len() ==> (#[trigger] queue@[i]) < 16384 && exterior_v@[queue@[i] as int],
            forall|c: int| 0 <= c < 128 ==> (bg@[c] ==> #[trigger] exterior_v@[c]),
            forall|c: int| 16256 <= c < 16384 ==> (bg@[c] ==> #[trigger] exterior_v@[c]),
            forall|r: int| 0 <= r < y ==> (bg@[r * 128] ==> #[trigger] exterior_v@[r * 128]),
            forall|r: int| 0 <= r < y ==> (bg@[r * 128 + 127] ==> #[trigger] exterior_v@[r * 128 + 127]),
        decreases 128 - y,
    {
        let idx_left = y * 128;
        let idx_right = y * 128 + 127;
        visit(bg, &mut exterior_v, &mut queue, idx_left);
        visit(bg, &mut exterior_v, &mut queue, idx_right);
        y = y + 1;
    }
    let ghost seeds = queue@;
    let ghost v0 = exterior_v@;
    proof {
        assert forall|c: int| 0 <= c < 16384 && on_border(c) && bg@[c] implies #[trigger] v0[c] by {
            let r = c / 128;
            if c % 128 == 0 {
                assert(c == r * 128);
            } else if c % 128 == 127 {
                assert(c == r * 128 + 127);
            }
        }
        assert(closed_except(bg@, v0, seeds));
    }
    flood(bg, &mut exterior_v, &mut queue);
    proof {
        assert forall|c: int| 0 <= c < 16384 implies (#[trigger] exterior_v@[c] <==> exterior(bg@, c)) by {
            if exterior_v@[c] {
                if v0[c] {
                    lemma_connected_refl(bg@, c);
                } else {
                    let s = choose|s: usize| seeds.contains(s) && #[trigger] connected(bg@, s as int, c);
                    let k = choose|k: int| 0 <= k < seeds.len() && seeds[k] == s;
                    assert(v0[s as int]);
                }
            }
            if exterior(bg@, c) {
                let b = choose|b: int| 0 <= b < 16384 && on_border(b) && #[trigger] connected(bg@, b, c);
                lemma_connected_bg(bg@, b, c);
                assert(v0[b]);
                lemma_closed_reach(bg@, exterior_v@, b, c);
            }
        }
    }
    exterior_v
}

/// The number of enclosed background components of a 128×128 mask (true for
/// background): components that no background path from the border reaches.
pub fn enclosed_components(is_bg: &Vec<bool>) -> (n: usize)
    requires
        is_bg@.len() == 16384,
    ensures
        n == enclosed_loops(is_bg@),
{
    let ghost bg = is_bg@;
    let mut visited = mark_exterior(is_bg);
    let mut loops: usize = 0;
    let mut start: usize = 0;
    while start < 16384
        invariant
            start <= 16384,
            bg == is_bg@,
            bg.len() == 16384,
            visited@.len() == 16384,
            forall|c: int| 0 <= c < 16384 ==> (#[trigger] visited@[c] <==> covered(bg, start as int, c)),
            closed_except(bg, visited@, Seq::<usize>::empty()),
            loops == loops_below(bg, start as int),
        decreases 16384 - start,
    {
        proof {
            lemma_loops_below_bound(bg, start as int + 1);
        }
        if is_bg[start] && !visited[start] {
            assert(is_loop_start(bg, start as int));
            loops = loops + 1;
            let ghost v1 = visited@;
            visited.set(start, true);
            let mut q2: VecDeque<usize> = VecDeque::new();
            q2.push_back(start);
            proof {
                assert forall|c: int| 0 <= c < 16384 && #[trigger] visited@[c] implies bg[c] by {
                    if c != start {
                        assert(covered(bg, start as int, c));
                        if exterior(bg, c) {
                            let b = choose|b: int| 0 <= b < 16384 && on_border(b) && #[trigger] connected(bg, b, c);
                            lemma_connected_bg(bg, b, c);
                        } else {
                            let t = choose|t: int| 0 <= t < start && #[trigger] connected(bg, t, c);
                            lemma_connected_bg(bg, t, c);
                        }
                    }
                }
                assert(q2@ =~= seq![start]);
                assert forall|c: int, b: int|
                    0 <= c < 16384 && visited@[c] && !q2@.contains(c as usize) && #[trigger] nbr(c, b)
                        && bg[b] implies visited@[b] by {
                    assert(q2@[0] == start);
                    if c != start {
                        assert(v1[c]);
                        assert(!Seq::<usize>::empty().contains(c as usize));
                    }
                }
            }
            let ghost v2 = visited@;
            let ghost seeds = q2@;
            flood(is_bg, &mut visited, &mut q2);
            proof {
                lemma_connected_refl(bg, start as int);
                assert forall|c: int| 0 <= c < 16384 implies (#[trigger] visited@[c] <==> covered(
                    bg,
                    start as int + 1,
                    c,
                )) by {
                    if visited@[c] {
                        if v2[c] {
                            if c != start {
                                assert(covered(bg, start as int, c));
                            }
                        } else {
                            let s = choose|s: usize| seeds.contains(s) && #[trigger] connected(bg, s as int, c);
                            assert(seeds[0] == start);
                            assert(s == start);
                        }
                    }
                    if covered(bg, start as int + 1, c) {
                        if !covered(bg, start as int, c) {
                            let t = choose|t: int| 0 <= t < start + 1 && #[trigger] connected(bg, t, c);
                            assert(t == start);
                            lemma_closed_reach(bg, visited@, start as int, c);
                        } else {
                            assert(v1[c]);
                        }
                    }
                }
            }
        } else {
            proof {
                assert(!is_loop_start(bg, start as int));
                assert forall|c: int| 0 <= c < 16384 implies (#[trigger] visited@[c] <==> covered(
                    bg,
                    start as int + 1,
                    c,
                )) by {
                    if covered(bg, start as int + 1, c) && !covered(bg, start as int, c) {
                        let t = choose|t: int| 0 <= t < start + 1 && #[trigger] connected(bg, t, c);
                        assert(t == start);
                        lemma_connected_bg(bg, t, c);
                        assert(visited@[start as int]);
                        if exterior(bg, start as int) {
                            let b = choose|b: int| 0 <= b < 16384 && on_border(b) && #[trigger] connected(bg, b, start as int);
                            lemma_connected_trans(bg, b, start as int, c);
                        } else {
                            let u = choose|u: int| 0 <= u < start && #[trigger] connected(bg, u, start as int);
                            lemma_connected_trans(bg, u, start as int, c);
                        }
                    }
                }
            }
        }
        start = start + 1;
    }
    loops
}

/// Count enclosed background loops of a 128×128 mask (true for background):
/// digit 8 has 2 loops, 0/6/9 have 1, all others have 0.
pub fn count_enclosed_loops(is_bg: &Vec<bool>) -> (loops: u8)
    requires
        is_bg@.len() == 16384,
        enclosed_loops(is_bg@) <= u8::MAX,
    ensures
        loops == enclosed_loops(is_bg@),
{
    let n = enclosed_components(is_bg);
    n as u8
}

} // verus!
