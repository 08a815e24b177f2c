//! Orbits: breadth-first traversals of the darts reachable through a set of beta compositions.

use crate::components::BetaFunctionsAt;
use crate::ids::{DartIdType, NULL_DART_ID};
use vstd::prelude::*;

verus! {

/// Orbit policies: which compositions of beta functions an orbit follows.
#[derive(Debug, Clone, Copy, PartialEq, Eq)]
pub enum OrbitPolicy {
    /// 0-cell (vertex) orbit.
    Vertex,
    /// 0-cell orbit, following a single rotation direction.
    VertexLinear,
    /// 1-cell (edge) orbit.
    Edge,
    /// 2-cell (face) orbit.
    Face,
    /// 2-cell orbit, following `b1` only.
    FaceLinear,
    /// 3-cell (volume) orbit.
    Volume,
    /// 3-cell orbit, following `b1` and `b2` only.
    VolumeLinear,
    /// Orbit following the listed beta functions.
    Custom(&'static [u8]),
}

/// One move of an orbit traversal.
#[derive(Debug, Clone, Copy, PartialEq, Eq, Structural)]
pub enum OrbitStep {
    /// `b<i>(d)`.
    One(u8),
    /// `b<j>(b<i>(d))` for `Two(i, j)`.
    Two(u8, u8),
}

/// Whether every beta index of the steps is below `n`.
pub open spec fn steps_below(steps: Seq<OrbitStep>, n: int) -> bool {
    forall|k: int| 0 <= k < steps.len() ==> match #[trigger] steps[k] {
        OrbitStep::One(i) => (i as int) < n,
        OrbitStep::Two(i, j) => (i as int) < n && (j as int) < n,
    }
}

/// Image of dart `d` through a step.
pub open spec fn step_img<const N: usize>(b: BetaFunctionsAt<N>, s: OrbitStep, d: DartIdType) -> DartIdType {
    match s {
        OrbitStep::One(i) => b.img(i as int, d as int),
        OrbitStep::Two(i, j) => b.img(j as int, b.img(i as int, d as int) as int),
    }
}

/// `x` is the image of `a` through one of the steps.
pub open spec fn is_next<const N: usize>(b: BetaFunctionsAt<N>, steps: Seq<OrbitStep>, a: DartIdType, x: DartIdType) -> bool {
    exists|k: int| 0 <= k < steps.len() && step_img(b, #[trigger] steps[k], a) == x
}

/// `p` is a walk from `d`: it starts at `d`, and each of its darts but the last is non-null and
/// has the next one as an image through one of the steps.
pub open spec fn is_walk<const N: usize>(b: BetaFunctionsAt<N>, steps: Seq<OrbitStep>, d: DartIdType, p: Seq<DartIdType>) -> bool {
    &&& 1 <= p.len()
    &&& p[0] == d
    &&& forall|t: int| 0 <= t < p.len() - 1 ==> #[trigger] p[t] != NULL_DART_ID && is_next(b, steps, p[t], p[t + 1])
}

/// `x` is reachable from `d` through the steps.
pub open spec fn reachable<const N: usize>(b: BetaFunctionsAt<N>, steps: Seq<OrbitStep>, d: DartIdType, x: DartIdType) -> bool {
    exists|p: Seq<DartIdType>| #[trigger] is_walk(b, steps, d, p) && p.last() == x
}

/// `x` belongs to the orbit of `d`: it is `d` itself, or a non-null dart reachable from `d`.
pub open spec fn in_orbit<const N: usize>(b: BetaFunctionsAt<N>, steps: Seq<OrbitStep>, d: DartIdType, x: DartIdType) -> bool {
    x == d || (x != NULL_DART_ID && reachable(b, steps, d, x))
}

/// `r` lists the orbit of `d`: `d` first, then every other member once.
pub open spec fn is_orbit_of<const N: usize>(b: BetaFunctionsAt<N>, steps: Seq<OrbitStep>, d: DartIdType, r: Seq<DartIdType>) -> bool {
    &&& 1 <= r.len()
    &&& r[0] == d
    &&& r.no_duplicates()
    &&& forall|x: DartIdType| #[trigger] r.contains(x) <==> in_orbit(b, steps, d, x)
}

/// `r` followed by the images of `x` through the steps `k..`, in step order, leaving out the
/// null dart and the darts already listed.
pub open spec fn bfs_expand<const N: usize>(
    b: BetaFunctionsAt<N>,
    steps: Seq<OrbitStep>,
    r: Seq<DartIdType>,
    x: DartIdType,
    k: int,
) -> Seq<DartIdType>
    decreases steps.len() - k,
{
    if k < 0 || k >= steps.len() {
        r
    } else {
        let y = step_img(b, steps[k], x);
        let r2 = if y == NULL_DART_ID || r.contains(y) { r } else { r.push(y) };
        bfs_expand(b, steps, r2, x, k + 1)
    }
}

/// Breadth-first continuation of the listing `r`: its darts from position `head` on are
/// expanded in turn (at most `fuel` of them), each appending its new images.
pub open spec fn bfs_from<const N: usize>(
    b: BetaFunctionsAt<N>,
    steps: Seq<OrbitStep>,
    r: Seq<DartIdType>,
    head: int,
    fuel: nat,
) -> Seq<DartIdType>
    decreases fuel,
{
    if fuel == 0 || head < 0 || head >= r.len() {
        r
    } else {
        bfs_from(b, steps, bfs_expand(b, steps, r, r[head], 0), head + 1, (fuel - 1) as nat)
    }
}

/// Breadth-first listing of the orbit of `d`: `d`, then the new images of each listed dart in
/// turn. Each dart of a map with `n` slots is listed at most once, so `n + 1` expansions
/// exhaust the listing.
pub open spec fn bfs_orbit<const N: usize>(b: BetaFunctionsAt<N>, steps: Seq<OrbitStep>, d: DartIdType) -> Seq<DartIdType> {
    bfs_from(b, steps, seq![d], 0, b.n() + 1)
}

/// Number of `false` entries.
pub open spec fn count_unmarked(s: Seq<bool>) -> nat
    decreases s.len(),
{
    if s.len() == 0 {
        0
    } else {
        count_unmarked(s.drop_last()) + if s.last() { 0nat } else { 1nat }
    }
}

proof fn lemma_mark_decreases(s: Seq<bool>, i: int)
    requires
        0 <= i < s.len(),
        !s[i],
    ensures
        count_unmarked(s.update(i, true)) + 1 == count_unmarked(s),
    decreases s.len(),
{
    let t = s.update(i, true);
    if i == s.len() - 1 {
        assert(t.drop_last() =~= s.drop_last());
    } else {
        assert(t.drop_last() =~= s.drop_last().update(i, true));
        lemma_mark_decreases(s.drop_last(), i);
    }
}

/// A sequence of distinct darts below `n` has at most `n` darts.
proof fn lemma_distinct_below_len(r: Seq<DartIdType>, n: int)
    requires
        0 <= n,
        r.no_duplicates(),
        forall|j: int| 0 <= j < r.len() ==> (#[trigger] r[j] as int) < n,
    ensures
        r.len() <= n,
{
    let s = r.to_set();
    r.unique_seq_to_set();
    {
        let ints = vstd::set_lib::set_int_range(0, n);
        let f = |i: int| i as DartIdType;
        let y = ints.map(f);
        vstd::set_lib::lemma_int_range(0, n);
        vstd::set_lib::lemma_map_size_bound(ints, y, f);
        assert forall|x: DartIdType| #[trigger] s.contains(x) implies y.contains(x) by {
            let j = choose|j: int| 0 <= j < r.len() && r[j] == x;
            assert(ints.contains(x as int));
            assert(f(x as int) == x);
        }
        vstd::set_lib::lemma_len_subset(s, y);
    }
}

/// A set of darts that contains `d`, and the image of each of its non-null darts, contains
/// every dart reachable from `d`.
pub(crate) proof fn lemma_closed_contains_walk_end<const N: usize>(
    b: BetaFunctionsAt<N>,
    steps: Seq<OrbitStep>,
    d: DartIdType,
    r: Seq<DartIdType>,
    p: Seq<DartIdType>,
)
    requires
        r.contains(d),
        forall|j: int, k: int| 0 <= j < r.len() && 0 <= k < steps.len() && r[j] != NULL_DART_ID ==> {
            let y = #[trigger] step_img(b, steps[k], r[j]);
            y == NULL_DART_ID || r.contains(y)
        },
        is_walk(b, steps, d, p),
    ensures
        p.last() == NULL_DART_ID || r.contains(p.last()),
    decreases p.len(),
{
    if p.len() == 1 {
    } else {
        let q = p.drop_last();
        assert(is_walk(b, steps, d, q)) by {
            assert forall|t: int| 0 <= t < q.len() - 1 implies #[trigger] q[t] != NULL_DART_ID && is_next(b, steps, q[t], q[t + 1]) by {
                assert(p[t] != NULL_DART_ID && is_next(b, steps, p[t], p[t + 1]));
            }
        }
        lemma_closed_contains_walk_end(b, steps, d, r, q);
        let y = q.last();
        let x = p.last();
        assert(p[p.len() - 2] != NULL_DART_ID && is_next(b, steps, p[p.len() - 2], p[p.len() - 1]));
        assert(y == p[p.len() - 2]);
        let j = choose|j: int| 0 <= j < r.len() && r[j] == y;
        let k = choose|k: int| 0 <= k < steps.len() && step_img(b, #[trigger] steps[k], y) == x;
        assert(step_img(b, steps[k], r[j]) == x);
    }
}

/// Image of `d` through the step `s`.
pub fn step_image<const N: usize>(b: &BetaFunctionsAt<N>, s: OrbitStep, d: DartIdType) -> (r: DartIdType)
    requires
        b.wf(),
        (d as int) < b.n(),
        steps_below(seq![s], N as int),
    ensures
        r == step_img(*b, s, d),
        (r as int) < b.n(),
{
    assert(seq![s][0] == s);
    match s {
        OrbitStep::One(i) => b.get(i, d),
        OrbitStep::Two(i, j) => {
            let e = b.get(i, d);
            b.get(j, e)
        },
    }
}

/// Breadth-first traversal of the orbit of `d`.
///
/// The darts are listed in visiting order: `d` first, then, for each listed dart in turn, the
/// images through the steps in their order, each dart once; the null dart is never listed
/// (unless it is `d` itself).
pub fn orbit_bfs<const N: usize>(b: &BetaFunctionsAt<N>, steps: &Vec<OrbitStep>, d: DartIdType) -> (r: Vec<DartIdType>)
    requires
        b.wf(),
        (d as int) < b.n(),
        steps_below(steps@, N as int),
    ensures
        is_orbit_of(*b, steps@, d, r@),
        r@ == bfs_orbit(*b, steps@, d),
        forall|j: int| 0 <= j < r@.len() ==> (#[trigger] r@[j] as int) < b.n(),
        r@.len() <= b.n(),
{
    let n = b.len();
    let mut marked: Vec<bool> = Vec::with_capacity(n);
    let mut c: usize = 0;
    while c < n
        invariant
            c <= n,
            marked@.len() == c,
            forall|x: int| 0 <= x < c ==> !marked@[x],
        decreases n - c,
    {
        marked.push(false);
        c = c + 1;
    }
    marked.set(0, true);
    marked.set(d as usize, true);
    let mut res: Vec<DartIdType> = Vec::new();
    res.push(d);
    assert(is_walk(*b, steps@, d, seq![d]));
    assert forall|x: DartIdType| (x as int) < n implies #[trigger] marked@[x as int] == (x == NULL_DART_ID || res@.contains(x)) by {
        if x == d {
            assert(res@[0] == d);
        }
        if res@.contains(x) {
            let j = choose|j: int| 0 <= j < res@.len() && res@[j] == x;
            assert(j == 0);
        }
    }
    let mut head: usize = 0;
    assert(n >= 1);
    while head < res.len()
        invariant
            b.wf(),
            n == b.n(),
            (d as int) < n,
            steps_below(steps@, N as int),
            marked@.len() == n,
            1 <= res@.len(),
            res@[0] == d,
            head <= res@.len(),
            res@.no_duplicates(),
            forall|j: int| 0 <= j < res@.len() ==> (#[trigger] res@[j] as int) < n,
            forall|j: int| 0 < j < res@.len() ==> #[trigger] res@[j] != NULL_DART_ID,
            forall|x: DartIdType| (x as int) < n ==> #[trigger] marked@[x as int] == (x == NULL_DART_ID || res@.contains(x)),
            forall|j: int| 0 <= j < res@.len() ==> reachable(*b, steps@, d, #[trigger] res@[j]),
            forall|j: int, k: int| 0 <= j < head && 0 <= k < steps@.len() ==>
                marked@[#[trigger] step_img(*b, steps@[k], res@[j]) as int],
            res@.len() <= n,
            bfs_orbit(*b, steps@, d) == bfs_from(*b, steps@, res@, head as int, (n + 1 - head) as nat),
        decreases count_unmarked(marked@), res@.len() - head,
    {
        let cur = res[head];
        let ghost res0 = res@;
        let ghost p0 = choose|p: Seq<DartIdType>| #[trigger] is_walk(*b, steps@, d, p) && p.last() == cur;
        let ghost marked0 = marked@;
        let ghost len0 = res@.len();
        let mut k: usize = 0;
        while k < steps.len()
            invariant
                b.wf(),
                n == b.n(),
                (d as int) < n,
                steps_below(steps@, N as int),
                marked@.len() == n,
                len0 <= res@.len(),
                1 <= res@.len(),
                res@[0] == d,
                head < len0,
                res@[head as int] == cur,
                is_walk(*b, steps@, d, p0),
                p0.last() == cur,
                k <= steps@.len(),
                res@.no_duplicates(),
                forall|j: int| 0 <= j < res@.len() ==> (#[trigger] res@[j] as int) < n,
                forall|j: int| 0 < j < res@.len() ==> #[trigger] res@[j] != NULL_DART_ID,
                forall|x: DartIdType| (x as int) < n ==> #[trigger] marked@[x as int] == (x == NULL_DART_ID || res@.contains(x)),
                forall|j: int| 0 <= j < res@.len() ==> reachable(*b, steps@, d, #[trigger] res@[j]),
                forall|j: int, kk: int| 0 <= j < head && 0 <= kk < steps@.len() ==>
                    marked@[#[trigger] step_img(*b, steps@[kk], res@[j]) as int],
                forall|kk: int| 0 <= kk < k ==> marked@[#[trigger] step_img(*b, steps@[kk], cur) as int],
                count_unmarked(marked@) <= count_unmarked(marked0),
                count_unmarked(marked@) == count_unmarked(marked0) ==> res@.len() == len0,
                bfs_expand(*b, steps@, res@, cur, k as int) == bfs_expand(*b, steps@, res0, cur, 0),
            decreases steps@.len() - k,
        {
            let s = steps[k];
            assert(steps_below(seq![s], N as int)) by {
                assert(seq![s][0] == steps@[k as int]);
            }
            let img = step_image(b, s, cur);
            if !marked[img as usize] {
                let ghost pre_res = res@;
                let ghost pre_marked = marked@;
                proof {
                    lemma_mark_decreases(marked@, img as int);
                }
                marked.set(img as usize, true);
                res.push(img);
                proof {
                    assert(img != NULL_DART_ID);
                    if cur == NULL_DART_ID {
                        match s {
                            OrbitStep::One(i) => {},
                            OrbitStep::Two(i, j) => {},
                        }
                        assert(false);
                    }
                    assert(is_next(*b, steps@, cur, img)) by {
                        assert(step_img(*b, steps@[k as int], cur) == img);
                    }
                    let p1 = p0.push(img);
                    assert(is_walk(*b, steps@, d, p1)) by {
                        assert forall|t: int| 0 <= t < p1.len() - 1 implies #[trigger] p1[t] != NULL_DART_ID && is_next(*b, steps@, p1[t], p1[t + 1]) by {
                            if t < p0.len() - 1 {
                                assert(p0[t] != NULL_DART_ID && is_next(*b, steps@, p0[t], p0[t + 1]));
                            }
                        }
                    }
                    assert(reachable(*b, steps@, d, img));
                    assert(res@ == pre_res.push(img));
                    assert forall|x: DartIdType| (x as int) < n implies #[trigger] marked@[x as int] == (x == NULL_DART_ID || res@.contains(x)) by {
                        if x == img {
                            assert(res@[res@.len() - 1] == img);
                        } else {
                            assert(pre_marked[x as int] == (x == NULL_DART_ID || pre_res.contains(x)));
                            if pre_res.contains(x) {
                                let j = choose|j: int| 0 <= j < pre_res.len() && pre_res[j] == x;
                                assert(res@[j] == x);
                            }
                            if res@.contains(x) {
                                let j = choose|j: int| 0 <= j < res@.len() && res@[j] == x;
                                assert(j < pre_res.len());
                                assert(pre_res[j] == x);
                            }
                        }
                    }
                    assert forall|j: int| 0 <= j < res@.len() implies reachable(*b, steps@, d, #[trigger] res@[j]) by {
                        if j < pre_res.len() {
                            assert(res@[j] == pre_res[j]);
                        }
                    }
                    assert(res@.no_duplicates()) by {
                        assert forall|i1: int, i2: int| 0 <= i1 < i2 < res@.len() implies res@[i1] != res@[i2] by {
                            if i2 == pre_res.len() {
                                assert(pre_res.contains(res@[i1]));
                                assert(!pre_marked[img as int]);
                            } else {
                                assert(res@[i1] == pre_res[i1] && res@[i2] == pre_res[i2]);
                            }
                        }
                    }
                }
            }
            k = k + 1;
        }
        proof {
            assert(bfs_expand(*b, steps@, res@, cur, k as int) == res@);
            lemma_distinct_below_len(res@, n as int);
        }
        head = head + 1;
    }
    proof {
        let r = res@;
        assert(r.contains(d)) by {
            assert(r[0] == d);
        }
        assert forall|j: int, k: int| 0 <= j < r.len() && 0 <= k < steps@.len() && r[j] != NULL_DART_ID implies {
            let y = #[trigger] step_img(*b, steps@[k], r[j]);
            y == NULL_DART_ID || r.contains(y)
        } by {
            let y = step_img(*b, steps@[k], r[j]);
            assert(marked@[y as int]);
            assert((y as int) < n);
        }
        assert forall|x: DartIdType| #[trigger] r.contains(x) <==> in_orbit(*b, steps@, d, x) by {
            if r.contains(x) {
                let j = choose|j: int| 0 <= j < r.len() && r[j] == x;
                assert(reachable(*b, steps@, d, r[j]));
            }
            if in_orbit(*b, steps@, d, x) && x != d {
                let p = choose|p: Seq<DartIdType>| #[trigger] is_walk(*b, steps@, d, p) && p.last() == x;
                lemma_closed_contains_walk_end(*b, steps@, d, r, p);
            }
        }
    }
    res
}

} // verus!

verus! {

/// Whether a policy is defined for 2-maps (volumes are not).
pub open spec fn policy_ok_2d(p: OrbitPolicy) -> bool {
    match p {
        OrbitPolicy::Volume | OrbitPolicy::VolumeLinear => false,
        OrbitPolicy::Custom(s) => forall|k: int| 0 <= k < s@.len() ==> (#[trigger] s@[k] as int) < 3,
        _ => true,
    }
}

/// Whether a policy is valid for 3-maps.
pub open spec fn policy_ok_3d(p: OrbitPolicy) -> bool {
    match p {
        OrbitPolicy::Custom(s) => forall|k: int| 0 <= k < s@.len() ==> (#[trigger] s@[k] as int) < 4,
        _ => true,
    }
}

/// Steps of a custom policy: one step per listed beta function, in order.
pub open spec fn custom_steps(s: Seq<u8>) -> Seq<OrbitStep> {
    Seq::new(s.len(), |k: int| OrbitStep::One(s[k]))
}

/// Steps followed by each policy in a 2-map.
pub open spec fn steps_2d(p: OrbitPolicy) -> Seq<OrbitStep> {
    match p {
        OrbitPolicy::Vertex => seq![OrbitStep::Two(2, 1), OrbitStep::Two(0, 2)],
        OrbitPolicy::VertexLinear => seq![OrbitStep::Two(2, 1)],
        OrbitPolicy::Edge => seq![OrbitStep::One(2)],
        OrbitPolicy::Face => seq![OrbitStep::One(1), OrbitStep::One(0)],
        OrbitPolicy::FaceLinear => seq![OrbitStep::One(1)],
        OrbitPolicy::Custom(s) => custom_steps(s@),
        _ => Seq::empty(),
    }
}

/// Steps followed by each policy in a 3-map.
pub open spec fn steps_3d(p: OrbitPolicy) -> Seq<OrbitStep> {
    match p {
        OrbitPolicy::Vertex => seq![
            OrbitStep::Two(2, 3),
            OrbitStep::Two(3, 1),
            OrbitStep::Two(2, 1),
            OrbitStep::Two(0, 3),
            OrbitStep::Two(0, 2),
        ],
        OrbitPolicy::VertexLinear => seq![OrbitStep::Two(2, 3), OrbitStep::Two(3, 1), OrbitStep::Two(2, 1)],
        OrbitPolicy::Edge => seq![OrbitStep::One(2), OrbitStep::One(3)],
        OrbitPolicy::Face => seq![OrbitStep::One(1), OrbitStep::One(0), OrbitStep::One(3)],
        OrbitPolicy::FaceLinear => seq![OrbitStep::One(1), OrbitStep::One(3)],
        OrbitPolicy::Volume => seq![OrbitStep::One(1), OrbitStep::One(0), OrbitStep::One(2)],
        OrbitPolicy::VolumeLinear => seq![OrbitStep::One(1), OrbitStep::One(2)],
        OrbitPolicy::Custom(s) => custom_steps(s@),
    }
}

fn custom_steps_exec(s: &[u8]) -> (r: Vec<OrbitStep>)
    ensures
        r@ == custom_steps(s@),
{
    let mut r: Vec<OrbitStep> = Vec::new();
    let mut k: usize = 0;
    while k < s.len()
        invariant
            k <= s@.len(),
            r@ == custom_steps(s@.take(k as int)),
        decreases s@.len() - k,
    {
        r.push(OrbitStep::One(s[k]));
        k = k + 1;
        assert(r@ =~= custom_steps(s@.take(k as int)));
    }
    assert(s@.take(s@.len() as int) =~= s@);
    r
}

/// Steps of a policy in a 2-map.
pub fn policy_steps_2d(p: &OrbitPolicy) -> (r: Vec<OrbitStep>)
    requires
        policy_ok_2d(*p),
    ensures
        r@ == steps_2d(*p),
        steps_below(r@, 3),
{
    let r = match p {
        OrbitPolicy::Vertex => vec![OrbitStep::Two(2, 1), OrbitStep::Two(0, 2)],
        OrbitPolicy::VertexLinear => vec![OrbitStep::Two(2, 1)],
        OrbitPolicy::Edge => vec![OrbitStep::One(2)],
        OrbitPolicy::Face => vec![OrbitStep::One(1), OrbitStep::One(0)],
        OrbitPolicy::FaceLinear => vec![OrbitStep::One(1)],
        OrbitPolicy::Custom(s) => custom_steps_exec(s),
        OrbitPolicy::Volume | OrbitPolicy::VolumeLinear => Vec::new(),
    };
    assert(r@ =~= steps_2d(*p));
    r
}

/// Steps of a policy in a 3-map.
pub fn policy_steps_3d(p: &OrbitPolicy) -> (r: Vec<OrbitStep>)
    requires
        policy_ok_3d(*p),
    ensures
        r@ == steps_3d(*p),
        steps_below(r@, 4),
{
    let r = match p {
        OrbitPolicy::Vertex => vec![
            OrbitStep::Two(2, 3),
            OrbitStep::Two(3, 1),
            OrbitStep::Two(2, 1),
            OrbitStep::Two(0, 3),
            OrbitStep::Two(0, 2),
        ],
        OrbitPolicy::VertexLinear => vec![OrbitStep::Two(2, 3), OrbitStep::Two(3, 1), OrbitStep::Two(2, 1)],
        OrbitPolicy::Edge => vec![OrbitStep::One(2), OrbitStep::One(3)],
        OrbitPolicy::Face => vec![OrbitStep::One(1), OrbitStep::One(0), OrbitStep::One(3)],
        OrbitPolicy::FaceLinear => vec![OrbitStep::One(1), OrbitStep::One(3)],
        OrbitPolicy::Volume => vec![OrbitStep::One(1), OrbitStep::One(0), OrbitStep::One(2)],
        OrbitPolicy::VolumeLinear => vec![OrbitStep::One(1), OrbitStep::One(2)],
        OrbitPolicy::Custom(s) => custom_steps_exec(s),
    };
    assert(r@ =~= steps_3d(*p));
    r
}

/// Steps that identify the vertex of a dart in a 3-map: those of the vertex orbit, and
/// *β<sub>2</sub>∘β<sub>3</sub>*, which undoes *β<sub>3</sub>∘β<sub>2</sub>* where a volume is
/// left open.
pub open spec fn vertex_id_steps_3d() -> Seq<OrbitStep> {
    steps_3d(OrbitPolicy::Vertex).push(OrbitStep::Two(3, 2))
}

/// Steps of [`vertex_id_steps_3d`].
pub fn vertex_id_steps_3d_exec() -> (r: Vec<OrbitStep>)
    ensures
        r@ == vertex_id_steps_3d(),
        steps_below(r@, 4),
{
    let mut r = policy_steps_3d(&OrbitPolicy::Vertex);
    r.push(OrbitStep::Two(3, 2));
    proof {
        assert forall|k: int| 0 <= k < r@.len() implies match #[trigger] r@[k] {
            OrbitStep::One(i) => (i as int) < 4,
            OrbitStep::Two(i, j) => (i as int) < 4 && (j as int) < 4,
        } by {
            if k < r@.len() - 1 {
                assert(r@[k] == steps_3d(OrbitPolicy::Vertex)[k]);
            }
        }
    }
    r
}

/// Smallest dart of a list.
pub fn min_of(v: &Vec<DartIdType>) -> (r: DartIdType)
    requires
        1 <= v@.len(),
    ensures
        v@.contains(r),
        forall|j: int| 0 <= j < v@.len() ==> r <= #[trigger] v@[j],
{
    let mut m = v[0];
    let mut j: usize = 1;
    assert(v@.take(1)[0] == m);
    while j < v.len()
        invariant
            1 <= j <= v@.len(),
            v@.take(j as int).contains(m),
            forall|i: int| 0 <= i < j ==> m <= #[trigger] v@[i],
        decreases v@.len() - j,
    {
        if v[j] < m {
            m = v[j];
            assert(v@.take(j + 1)[j as int] == m);
        } else {
            let ghost i0 = choose|i: int| 0 <= i < j && v@.take(j as int)[i] == m;
            assert(v@.take(j + 1)[i0] == m);
        }
        j = j + 1;
    }
    assert(v@.take(v@.len() as int) =~= v@);
    m
}

/// `m` is the smallest dart of the orbit of `d`.
pub open spec fn is_orbit_min<const N: usize>(b: BetaFunctionsAt<N>, steps: Seq<OrbitStep>, d: DartIdType, m: DartIdType) -> bool {
    in_orbit(b, steps, d, m) && forall|x: DartIdType| #[trigger] in_orbit(b, steps, d, x) ==> m <= x
}

/// Identifier of the orbit of `d`: its smallest dart.
pub open spec fn orbit_id<const N: usize>(b: BetaFunctionsAt<N>, steps: Seq<OrbitStep>, d: DartIdType) -> DartIdType {
    choose|m: DartIdType| is_orbit_min(b, steps, d, m)
}

/// The smallest dart of an orbit is its identifier.
pub proof fn lemma_orbit_id_unique<const N: usize>(b: BetaFunctionsAt<N>, steps: Seq<OrbitStep>, d: DartIdType, m: DartIdType)
    requires
        is_orbit_min(b, steps, d, m),
    ensures
        orbit_id(b, steps, d) == m,
{
    let c = orbit_id(b, steps, d);
    assert(is_orbit_min(b, steps, d, c));
    assert(c <= m && m <= c);
}

/// Smallest dart of the orbit of `d`.
pub fn orbit_min<const N: usize>(b: &BetaFunctionsAt<N>, steps: &Vec<OrbitStep>, d: DartIdType) -> (r: DartIdType)
    requires
        b.wf(),
        (d as int) < b.n(),
        steps_below(steps@, N as int),
    ensures
        is_orbit_min(*b, steps@, d, r),
        r == orbit_id(*b, steps@, d),
        r <= d,
{
    let o = orbit_bfs(b, steps, d);
    let m = min_of(&o);
    assert(o@.contains(d)) by {
        assert(o@[0] == d);
    }
    assert forall|x: DartIdType| in_orbit(*b, steps@, d, x) implies m <= x by {
        assert(o@.contains(x));
        let j = choose|j: int| 0 <= j < o@.len() && o@[j] == x;
        assert(m <= o@[j]);
    }
    proof {
        lemma_orbit_id_unique(*b, steps@, d, m);
    }
    m
}

} // verus!

verus! {

/// Each step taken from a non-null dart to a non-null dart can be undone by one of the steps.
pub open spec fn steps_invertible<const N: usize>(b: BetaFunctionsAt<N>, steps: Seq<OrbitStep>) -> bool {
    forall|k: int, a: DartIdType| 0 <= k < steps.len() && a != NULL_DART_ID && (a as int) < b.n()
        && #[trigger] step_img(b, steps[k], a) != NULL_DART_ID ==> is_next(b, steps, step_img(b, steps[k], a), a)
}

/// Images through the steps of darts of the storage are darts of the storage.
proof fn lemma_step_below<const N: usize>(b: BetaFunctionsAt<N>, steps: Seq<OrbitStep>, k: int, a: DartIdType)
    requires
        b.wf(),
        steps_below(steps, N as int),
        0 <= k < steps.len(),
        (a as int) < b.n(),
    ensures
        (step_img(b, steps[k], a) as int) < b.n(),
{
    match steps[k] {
        OrbitStep::One(i) => {},
        OrbitStep::Two(i, j) => {
            assert((b.img(i as int, a as int) as int) < b.n());
        },
    }
}

/// The darts of a walk are darts of the storage.
proof fn lemma_walk_below<const N: usize>(b: BetaFunctionsAt<N>, steps: Seq<OrbitStep>, d: DartIdType, p: Seq<DartIdType>)
    requires
        b.wf(),
        steps_below(steps, N as int),
        (d as int) < b.n(),
        is_walk(b, steps, d, p),
    ensures
        forall|t: int| 0 <= t < p.len() ==> (#[trigger] p[t] as int) < b.n(),
    decreases p.len(),
{
    if p.len() > 1 {
        let q = p.drop_last();
        assert(is_walk(b, steps, d, q)) by {
            assert forall|t: int| 0 <= t < q.len() - 1 implies #[trigger] q[t] != NULL_DART_ID && is_next(b, steps, q[t], q[t + 1]) by {
                assert(p[t] != NULL_DART_ID && is_next(b, steps, p[t], p[t + 1]));
            }
        }
        lemma_walk_below(b, steps, d, q);
        let t0 = p.len() - 2;
        assert(p[t0] != NULL_DART_ID && is_next(b, steps, p[t0], p[t0 + 1]));
        let k = choose|k: int| 0 <= k < steps.len() && step_img(b, #[trigger] steps[k], p[t0]) == p[t0 + 1];
        assert(q[t0] == p[t0]);
        lemma_step_below(b, steps, k, p[t0]);
        assert forall|t: int| 0 <= t < p.len() implies (#[trigger] p[t] as int) < b.n() by {
            if t < q.len() {
                assert(p[t] == q[t]);
            }
        }
    }
}

/// Orbit membership is transitive.
pub proof fn lemma_in_orbit_transitive<const N: usize>(
    b: BetaFunctionsAt<N>,
    steps: Seq<OrbitStep>,
    d: DartIdType,
    x: DartIdType,
    z: DartIdType,
)
    requires
        x != NULL_DART_ID,
        in_orbit(b, steps, d, x),
        in_orbit(b, steps, x, z),
    ensures
        in_orbit(b, steps, d, z),
{
    if x == d || z == x {
    } else {
        let p = choose|p: Seq<DartIdType>| #[trigger] is_walk(b, steps, d, p) && p.last() == x;
        let q = choose|p: Seq<DartIdType>| #[trigger] is_walk(b, steps, x, p) && p.last() == z;
        let w = p + q.skip(1);
        assert(is_walk(b, steps, d, w)) by {
            assert forall|t: int| 0 <= t < w.len() - 1 implies #[trigger] w[t] != NULL_DART_ID && is_next(b, steps, w[t], w[t + 1]) by {
                if t < p.len() - 1 {
                    assert(p[t] != NULL_DART_ID && is_next(b, steps, p[t], p[t + 1]));
                } else {
                    let u = t - (p.len() - 1);
                    assert(q[u] != NULL_DART_ID && is_next(b, steps, q[u], q[u + 1]));
                    if u == 0 {
                        assert(w[t] == p[p.len() - 1]);
                    } else {
                        assert(w[t] == q[u]);
                    }
                    assert(w[t + 1] == q[u + 1]);
                }
            }
        }
        assert(w.last() == z);
    }
}

/// With invertible steps, orbit membership between non-null darts is symmetric.
pub proof fn lemma_in_orbit_symmetric<const N: usize>(
    b: BetaFunctionsAt<N>,
    steps: Seq<OrbitStep>,
    d: DartIdType,
    x: DartIdType,
)
    requires
        b.wf(),
        steps_below(steps, N as int),
        steps_invertible(b, steps),
        d != NULL_DART_ID,
        (d as int) < b.n(),
        in_orbit(b, steps, d, x),
    ensures
        in_orbit(b, steps, x, d),
{
    if x == d {
    } else {
        let p = choose|p: Seq<DartIdType>| #[trigger] is_walk(b, steps, d, p) && p.last() == x;
        lemma_walk_below(b, steps, d, p);
        let len = p.len() as int;
        let r = Seq::new(p.len(), |t: int| p[len - 1 - t]);
        assert forall|t: int| 0 <= t < p.len() implies #[trigger] p[t] != NULL_DART_ID by {
            if t < len - 1 {
                assert(p[t] != NULL_DART_ID && is_next(b, steps, p[t], p[t + 1]));
            }
        }
        assert(is_walk(b, steps, x, r)) by {
            assert forall|t: int| 0 <= t < r.len() - 1 implies #[trigger] r[t] != NULL_DART_ID && is_next(b, steps, r[t], r[t + 1]) by {
                let j = len - 2 - t;
                assert(p[j] != NULL_DART_ID && is_next(b, steps, p[j], p[j + 1]));
                let k = choose|k: int| 0 <= k < steps.len() && step_img(b, #[trigger] steps[k], p[j]) == p[j + 1];
                assert(p[j + 1] != NULL_DART_ID);
                assert((p[j] as int) < b.n());
                assert(step_img(b, steps[k], p[j]) != NULL_DART_ID);
                assert(r[t] == p[j + 1]);
                assert(r[t + 1] == p[j]);
            }
        }
        assert(r.last() == d);
    }
}

/// Every orbit has a smallest dart: the first dart, counting up from `v`, that belongs to it,
/// when none below `v` does.
proof fn lemma_orbit_min_from<const N: usize>(b: BetaFunctionsAt<N>, steps: Seq<OrbitStep>, d: DartIdType, v: DartIdType)
    requires
        v <= d,
        forall|x: DartIdType| x < v ==> !#[trigger] in_orbit(b, steps, d, x),
    ensures
        exists|m: DartIdType| is_orbit_min(b, steps, d, m),
    decreases d - v,
{
    if in_orbit(b, steps, d, v) {
        assert forall|x: DartIdType| #[trigger] in_orbit(b, steps, d, x) implies v <= x by {
            if x < v {
                assert(!in_orbit(b, steps, d, x));
            }
        }
        assert(is_orbit_min(b, steps, d, v));
    } else {
        assert(v != d);
        let w = (v + 1) as DartIdType;
        assert forall|x: DartIdType| x < w implies !#[trigger] in_orbit(b, steps, d, x) by {
            if x < v {
            }
        }
        lemma_orbit_min_from(b, steps, d, w);
    }
}

/// With invertible steps, all the non-null darts of an orbit have the same orbit identifier.
pub proof fn lemma_orbit_id_constant<const N: usize>(
    b: BetaFunctionsAt<N>,
    steps: Seq<OrbitStep>,
    d: DartIdType,
    x: DartIdType,
)
    requires
        b.wf(),
        steps_below(steps, N as int),
        steps_invertible(b, steps),
        d != NULL_DART_ID,
        x != NULL_DART_ID,
        (d as int) < b.n(),
        in_orbit(b, steps, d, x),
    ensures
        orbit_id(b, steps, x) == orbit_id(b, steps, d),
{
    lemma_in_orbit_symmetric(b, steps, d, x);
    let m = orbit_id(b, steps, d);
    assert(in_orbit(b, steps, d, d));
    assert(exists|mm: DartIdType| is_orbit_min(b, steps, d, mm)) by {
        lemma_orbit_min_from(b, steps, d, 0);
    }
    assert(is_orbit_min(b, steps, d, m));
    assert(is_orbit_min(b, steps, x, m)) by {
        if m != NULL_DART_ID {
            lemma_in_orbit_transitive(b, steps, x, d, m);
        } else {
            assert(m == d);
            assert(false);
        }
        assert forall|z: DartIdType| #[trigger] in_orbit(b, steps, x, z) implies m <= z by {
            lemma_in_orbit_transitive(b, steps, d, x, z);
        }
    }
    lemma_orbit_id_unique(b, steps, x, m);
}

} // verus!

verus! {

/// Whether `b2` extends `b1`: it has at least its darts, with the same images on them.
pub open spec fn extends<const N: usize>(b2: BetaFunctionsAt<N>, b1: BetaFunctionsAt<N>) -> bool {
    &&& b1.n() <= b2.n()
    &&& forall|i: int, x: int| 0 <= i < N && 0 <= x < b1.n() ==> #[trigger] b2.img(i, x) == b1.img(i, x)
}

/// Steps from a dart of `b1` lead to the same dart in an extension `b2`, a dart of `b1`.
proof fn lemma_step_extend<const N: usize>(
    b1: BetaFunctionsAt<N>,
    b2: BetaFunctionsAt<N>,
    steps: Seq<OrbitStep>,
    k: int,
    a: DartIdType,
)
    requires
        b1.wf(),
        extends(b2, b1),
        steps_below(steps, N as int),
        0 <= k < steps.len(),
        (a as int) < b1.n(),
    ensures
        step_img(b1, steps[k], a) == step_img(b2, steps[k], a),
        (step_img(b1, steps[k], a) as int) < b1.n(),
{
    lemma_step_below(b1, steps, k, a);
    match steps[k] {
        OrbitStep::One(i) => {},
        OrbitStep::Two(i, j) => {
            assert((b1.img(i as int, a as int) as int) < b1.n());
        },
    }
}

/// A walk in `b1` from one of its darts is a walk in an extension `b2`.
proof fn lemma_walk_to_extension<const N: usize>(
    b1: BetaFunctionsAt<N>,
    b2: BetaFunctionsAt<N>,
    steps: Seq<OrbitStep>,
    d: DartIdType,
    p: Seq<DartIdType>,
)
    requires
        b1.wf(),
        extends(b2, b1),
        steps_below(steps, N as int),
        (d as int) < b1.n(),
        is_walk(b1, steps, d, p),
    ensures
        is_walk(b2, steps, d, p),
{
    lemma_walk_below(b1, steps, d, p);
    assert forall|t: int| 0 <= t < p.len() - 1 implies #[trigger] p[t] != NULL_DART_ID && is_next(b2, steps, p[t], p[t + 1]) by {
        assert(p[t] != NULL_DART_ID && is_next(b1, steps, p[t], p[t + 1]));
        let k = choose|k: int| 0 <= k < steps.len() && step_img(b1, #[trigger] steps[k], p[t]) == p[t + 1];
        lemma_step_extend(b1, b2, steps, k, p[t]);
    }
}

/// A walk in an extension `b2` from a dart of `b1` is a walk in `b1`.
proof fn lemma_walk_from_extension<const N: usize>(
    b1: BetaFunctionsAt<N>,
    b2: BetaFunctionsAt<N>,
    steps: Seq<OrbitStep>,
    d: DartIdType,
    p: Seq<DartIdType>,
)
    requires
        b1.wf(),
        extends(b2, b1),
        steps_below(steps, N as int),
        (d as int) < b1.n(),
        is_walk(b2, steps, d, p),
    ensures
        is_walk(b1, steps, d, p),
    decreases p.len(),
{
    if p.len() > 1 {
        let q = p.drop_last();
        assert(is_walk(b2, steps, d, q)) by {
            assert forall|t: int| 0 <= t < q.len() - 1 implies #[trigger] q[t] != NULL_DART_ID && is_next(b2, steps, q[t], q[t + 1]) by {
                assert(p[t] != NULL_DART_ID && is_next(b2, steps, p[t], p[t + 1]));
            }
        }
        lemma_walk_from_extension(b1, b2, steps, d, q);
        lemma_walk_below(b1, steps, d, q);
        let a = p[p.len() - 2];
        let x = p[p.len() - 1];
        assert(a == q[q.len() - 1]);
        assert(p[p.len() - 2] != NULL_DART_ID && is_next(b2, steps, p[p.len() - 2], p[p.len() - 1]));
        let k = choose|k: int| 0 <= k < steps.len() && step_img(b2, #[trigger] steps[k], a) == x;
        lemma_step_extend(b1, b2, steps, k, a);
        assert forall|t: int| 0 <= t < p.len() - 1 implies #[trigger] p[t] != NULL_DART_ID && is_next(b1, steps, p[t], p[t + 1]) by {
            if t < p.len() - 2 {
                assert(q[t] != NULL_DART_ID && is_next(b1, steps, q[t], q[t + 1]));
            } else {
                assert(step_img(b1, steps[k], a) == x);
            }
        }
    }
}

/// Orbit identifiers of the darts of `b1` are the same in an extension `b2`.
pub proof fn lemma_orbit_id_extend<const N: usize>(
    b1: BetaFunctionsAt<N>,
    b2: BetaFunctionsAt<N>,
    steps: Seq<OrbitStep>,
    d: DartIdType,
)
    requires
        b1.wf(),
        extends(b2, b1),
        steps_below(steps, N as int),
        (d as int) < b1.n(),
    ensures
        orbit_id(b2, steps, d) == orbit_id(b1, steps, d),
{
    assert forall|x: DartIdType| #![trigger in_orbit(b1, steps, d, x)] #![trigger in_orbit(b2, steps, d, x)]
        in_orbit(b1, steps, d, x) <==> in_orbit(b2, steps, d, x) by {
        if x != d && x != NULL_DART_ID {
            if reachable(b1, steps, d, x) {
                let p = choose|p: Seq<DartIdType>| #[trigger] is_walk(b1, steps, d, p) && p.last() == x;
                lemma_walk_to_extension(b1, b2, steps, d, p);
            }
            if reachable(b2, steps, d, x) {
                let p = choose|p: Seq<DartIdType>| #[trigger] is_walk(b2, steps, d, p) && p.last() == x;
                lemma_walk_from_extension(b1, b2, steps, d, p);
            }
        }
    }
    lemma_orbit_min_from(b1, steps, d, 0);
    let m = orbit_id(b1, steps, d);
    assert(is_orbit_min(b1, steps, d, m));
    assert(is_orbit_min(b2, steps, d, m));
    lemma_orbit_id_unique(b2, steps, d, m);
}

} // verus!

verus! {

/// Every orbit has a smallest dart, its identifier, which is at most the dart it starts from.
pub proof fn lemma_orbit_id_min<const N: usize>(b: BetaFunctionsAt<N>, steps: Seq<OrbitStep>, d: DartIdType)
    ensures
        is_orbit_min(b, steps, d, orbit_id(b, steps, d)),
        orbit_id(b, steps, d) <= d,
{
    lemma_orbit_min_from(b, steps, d, 0);
    assert(in_orbit(b, steps, d, d));
}

} // verus!

verus! {

/// The orbit of `d` holds the non-null image through each step of each of its non-null darts.
pub proof fn lemma_orbit_step_closed<const N: usize>(
    b: BetaFunctionsAt<N>,
    steps: Seq<OrbitStep>,
    d: DartIdType,
    r: Seq<DartIdType>,
    x: DartIdType,
    k: int,
)
    requires
        is_orbit_of(b, steps, d, r),
        r.contains(x),
        x != NULL_DART_ID,
        0 <= k < steps.len(),
        step_img(b, steps[k], x) != NULL_DART_ID,
    ensures
        r.contains(step_img(b, steps[k], x)),
{
    let y = step_img(b, steps[k], x);
    assert(is_next(b, steps, x, y));
    assert(in_orbit(b, steps, d, x));
    if x == d {
        let p = seq![d, y];
        assert(is_walk(b, steps, d, p));
        assert(p.last() == y);
    } else {
        let p = choose|p: Seq<DartIdType>| #[trigger] is_walk(b, steps, d, p) && p.last() == x;
        let q = p.push(y);
        assert forall|t: int| 0 <= t < q.len() - 1 implies #[trigger] q[t] != NULL_DART_ID && is_next(b, steps, q[t], q[t + 1]) by {
            if t < p.len() - 1 {
                assert(q[t] == p[t] && q[t + 1] == p[t + 1]);
                assert(p[t] != NULL_DART_ID && is_next(b, steps, p[t], p[t + 1]));
            } else {
                assert(q[t] == x && q[t + 1] == y);
            }
        }
        assert(is_walk(b, steps, d, q));
        assert(q.last() == y);
    }
    assert(in_orbit(b, steps, d, y));
}

/// Every non-null dart of a walk from `d` lies in a set that holds `d` and the non-null image
/// through each step of each of its non-null darts.
proof fn lemma_walk_in_set<const N: usize>(
    b: BetaFunctionsAt<N>,
    steps: Seq<OrbitStep>,
    d: DartIdType,
    s: Set<DartIdType>,
    p: Seq<DartIdType>,
)
    requires
        s.contains(d),
        forall|x: DartIdType, k: int| s.contains(x) && x != NULL_DART_ID && 0 <= k < steps.len()
            && #[trigger] step_img(b, steps[k], x) != NULL_DART_ID ==> s.contains(step_img(b, steps[k], x)),
        is_walk(b, steps, d, p),
    ensures
        p.last() == NULL_DART_ID || s.contains(p.last()),
    decreases p.len(),
{
    if p.len() > 1 {
        let q = p.drop_last();
        assert(is_walk(b, steps, d, q)) by {
            assert forall|t: int| 0 <= t < q.len() - 1 implies #[trigger] q[t] != NULL_DART_ID && is_next(b, steps, q[t], q[t + 1]) by {
                assert(p[t] != NULL_DART_ID && is_next(b, steps, p[t], p[t + 1]));
            }
        }
        lemma_walk_in_set(b, steps, d, s, q);
        let y = q.last();
        let x = p.last();
        assert(p[p.len() - 2] != NULL_DART_ID && is_next(b, steps, p[p.len() - 2], p[p.len() - 1]));
        assert(y == p[p.len() - 2]);
        let k = choose|k: int| 0 <= k < steps.len() && step_img(b, #[trigger] steps[k], y) == x;
        assert(step_img(b, steps[k], y) == x);
    }
}

/// The orbit of `d` lies in every set that holds `d` and the non-null image through each step
/// of each of its non-null darts.
pub proof fn lemma_orbit_least<const N: usize>(
    b: BetaFunctionsAt<N>,
    steps: Seq<OrbitStep>,
    d: DartIdType,
    r: Seq<DartIdType>,
    s: Set<DartIdType>,
)
    requires
        is_orbit_of(b, steps, d, r),
        s.contains(d),
        forall|x: DartIdType, k: int| s.contains(x) && x != NULL_DART_ID && 0 <= k < steps.len()
            && #[trigger] step_img(b, steps[k], x) != NULL_DART_ID ==> s.contains(step_img(b, steps[k], x)),
    ensures
        forall|x: DartIdType| r.contains(x) ==> s.contains(x),
{
    assert forall|x: DartIdType| r.contains(x) implies s.contains(x) by {
        assert(in_orbit(b, steps, d, x));
        if x != d {
            let p = choose|p: Seq<DartIdType>| #[trigger] is_walk(b, steps, d, p) && p.last() == x;
            lemma_walk_in_set(b, steps, d, s, p);
        }
    }
}

} // verus!

verus! {

/// Every dart of `r` after the first is the image, through one of the steps, of a non-null dart
/// listed before it.
pub open spec fn listed_after_parent<const N: usize>(b: BetaFunctionsAt<N>, steps: Seq<OrbitStep>, r: Seq<DartIdType>) -> bool {
    forall|j: int| #![trigger r[j]] 1 <= j < r.len() ==> exists|i: int, k: int|
        0 <= i < j && 0 <= k < steps.len() && r[i] != NULL_DART_ID && #[trigger] step_img(b, steps[k], r[i]) == r[j]
}

/// Expanding a listed dart keeps each dart after the first an image of an earlier one.
proof fn lemma_bfs_expand_parent<const N: usize>(
    b: BetaFunctionsAt<N>,
    steps: Seq<OrbitStep>,
    r: Seq<DartIdType>,
    h: int,
    k: int,
)
    requires
        b.wf(),
        steps_below(steps, N as int),
        0 <= h < r.len(),
        0 <= k,
        listed_after_parent(b, steps, r),
    ensures
        listed_after_parent(b, steps, bfs_expand(b, steps, r, r[h], k)),
        bfs_expand(b, steps, r, r[h], k).len() >= r.len(),
        forall|j: int| 0 <= j < r.len() ==> #[trigger] bfs_expand(b, steps, r, r[h], k)[j] == r[j],
    decreases steps.len() - k,
{
    if k < steps.len() {
        let x = r[h];
        let y = step_img(b, steps[k], x);
        if !(y == NULL_DART_ID || r.contains(y)) {
            let r2 = r.push(y);
            if x == NULL_DART_ID {
                match steps[k] {
                    OrbitStep::One(i) => {},
                    OrbitStep::Two(i, j) => {},
                }
                assert(y == NULL_DART_ID);
            }
            assert forall|j: int| #![trigger r2[j]] 1 <= j < r2.len() implies exists|i: int, kk: int|
                0 <= i < j && 0 <= kk < steps.len() && r2[i] != NULL_DART_ID && #[trigger] step_img(b, steps[kk], r2[i]) == r2[j] by {
                if j < r.len() {
                    let (i, kk) = choose|i: int, kk: int|
                        0 <= i < j && 0 <= kk < steps.len() && r[i] != NULL_DART_ID && #[trigger] step_img(b, steps[kk], r[i]) == r[j];
                    assert(r2[i] == r[i] && r2[j] == r[j]);
                    assert(step_img(b, steps[kk], r2[i]) == r2[j]);
                } else {
                    assert(r2[h] == x && r2[j] == y);
                    assert(step_img(b, steps[k], r2[h]) == r2[j]);
                }
            }
            assert(r2[h] == r[h]);
            lemma_bfs_expand_parent(b, steps, r2, h, k + 1);
            assert forall|j: int| 0 <= j < r.len() implies #[trigger] bfs_expand(b, steps, r, r[h], k)[j] == r[j] by {
                assert(r2[j] == r[j]);
            }
        } else {
            lemma_bfs_expand_parent(b, steps, r, h, k + 1);
        }
    }
}

/// Breadth-first continuation keeps each dart after the first an image of an earlier one.
proof fn lemma_bfs_from_parent<const N: usize>(
    b: BetaFunctionsAt<N>,
    steps: Seq<OrbitStep>,
    r: Seq<DartIdType>,
    head: int,
    fuel: nat,
)
    requires
        b.wf(),
        steps_below(steps, N as int),
        listed_after_parent(b, steps, r),
        r.len() >= 1,
    ensures
        listed_after_parent(b, steps, bfs_from(b, steps, r, head, fuel)),
        bfs_from(b, steps, r, head, fuel).len() >= 1,
        bfs_from(b, steps, r, head, fuel)[0] == r[0],
    decreases fuel,
{
    if !(fuel == 0 || head < 0 || head >= r.len()) {
        lemma_bfs_expand_parent(b, steps, r, head, 0);
        let r2 = bfs_expand(b, steps, r, r[head], 0);
        assert(r2[0] == r[0]);
        lemma_bfs_from_parent(b, steps, r2, head + 1, (fuel - 1) as nat);
    }
}

/// Visiting order of an orbit: it starts with `d`, and every dart listed after it is the image,
/// through one of the steps, of a non-null dart listed before it.
pub proof fn lemma_orbit_listed_after_parent<const N: usize>(
    b: BetaFunctionsAt<N>,
    steps: Seq<OrbitStep>,
    d: DartIdType,
)
    requires
        b.wf(),
        steps_below(steps, N as int),
    ensures
        bfs_orbit(b, steps, d)[0] == d,
        forall|j: int| #![trigger bfs_orbit(b, steps, d)[j]] 1 <= j < bfs_orbit(b, steps, d).len() ==> exists|i: int, k: int|
            0 <= i < j && 0 <= k < steps.len() && bfs_orbit(b, steps, d)[i] != NULL_DART_ID
            && #[trigger] step_img(b, steps[k], bfs_orbit(b, steps, d)[i]) == bfs_orbit(b, steps, d)[j],
{
    let r = seq![d];
    assert(listed_after_parent(b, steps, r));
    lemma_bfs_from_parent(b, steps, r, 0, b.n() + 1);
}

} // verus!
