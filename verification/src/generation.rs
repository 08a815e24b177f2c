//! Generation of square meshes as [`TwoMap`]s.

use crate::ids::{DartIdType, NULL_DART_ID};
use crate::twomap::TwoMap;
use vstd::prelude::*;

verus! {

/// First dart of square `t`: square `t` is made of darts `4t+1` (bottom), `4t+2` (right),
/// `4t+3` (top) and `4t+4` (left).
pub open spec fn square_base(t: int) -> int {
    4 * t
}

/// *β<sub>2</sub>* image of the `k`-th dart (`k` in `1..=4`) of square `t` in a grid of `n * n`
/// squares numbered row by row: the facing dart of the neighbouring square, or the null dart on
/// the boundary.
pub open spec fn grid_b2(n: int, t: int, k: int) -> int {
    if k == 1 {
        if t >= n { square_base(t - n) + 3 } else { 0 }
    } else if k == 2 {
        if (t + 1) % n != 0 { square_base(t + 1) + 4 } else { 0 }
    } else if k == 3 {
        if t + n < n * n { square_base(t + n) + 1 } else { 0 }
    } else {
        if t % n != 0 { square_base(t - 1) + 2 } else { 0 }
    }
}

/// Images of the darts of square `t` in the grid map `m` of `n * n` squares.
pub open spec fn square_ok<V: Copy, const N_MARKS: usize>(m: TwoMap<V, N_MARKS>, n: int, t: int) -> bool {
    let b = square_base(t);
    &&& m.img(1, b + 1) == b + 2 && m.img(1, b + 2) == b + 3 && m.img(1, b + 3) == b + 4 && m.img(1, b + 4) == b + 1
    &&& m.img(0, b + 1) == b + 4 && m.img(0, b + 2) == b + 1 && m.img(0, b + 3) == b + 2 && m.img(0, b + 4) == b + 3
    &&& m.img(2, b + 1) == grid_b2(n, t, 1)
    &&& m.img(2, b + 2) == grid_b2(n, t, 2)
    &&& m.img(2, b + 3) == grid_b2(n, t, 3)
    &&& m.img(2, b + 4) == grid_b2(n, t, 4)
}

proof fn lemma_mod_step(t: int, n: int, x: int)
    requires
        n > 0,
        t >= 0,
        x == t % n,
    ensures
        (t + 1) % n == if x + 1 == n { 0 } else { x + 1 },
{
    vstd::arithmetic::div_mod::lemma_fundamental_div_mod(t, n);
    let q = t / n;
    assert(t == n * q + x);
    if x + 1 == n {
        assert(t + 1 == (q + 1) * n) by (nonlinear_arith)
            requires
                t == n * q + x,
                x + 1 == n,
        ;
        vstd::arithmetic::div_mod::lemma_fundamental_div_mod_converse(t + 1, n, q + 1, 0);
    } else {
        assert(t + 1 == q * n + (x + 1)) by (nonlinear_arith)
            requires
                t == n * q + x,
        ;
        vstd::arithmetic::div_mod::lemma_fundamental_div_mod_converse(t + 1, n, q, x + 1);
    }
}

fn write_square<V: Copy, const N_MARKS: usize>(map: &mut TwoMap<V, N_MARKS>, t: usize, x: usize, n_square: usize, nn: usize)
    requires
        old(map).wf(),
        nn == n_square * n_square,
        n_square <= nn,
        n_square > 0,
        old(map).n() == 4 * nn + 1,
        4 * nn < u32::MAX,
        t < nn,
        x as int == (t as int) % (n_square as int),
        (t as int + 1) % (n_square as int) == if x + 1 == n_square { 0 } else { x + 1 },
        nn % n_square == 0,
    ensures
        final(map).wf(),
        final(map).n() == old(map).n(),
        square_ok(*final(map), n_square as int, t as int),
        forall|i: int, d: int| 0 <= i < 3 && 0 <= d < old(map).n() && !(square_base(t as int) < d <= square_base(t as int) + 4)
            ==> #[trigger] final(map).img(i, d) == old(map).img(i, d),
{
    let ghost n = n_square as int;
    assert(x + 1 != n_square ==> t + 1 < nn);
    assert(x != 0 ==> t >= 1) by {
        if t == 0 {
            assert(0int % n == 0);
        }
    }
    let b: usize = 4 * t;
    let d1 = (b + 1) as DartIdType;
    let d2 = (b + 2) as DartIdType;
    let d3 = (b + 3) as DartIdType;
    let d4 = (b + 4) as DartIdType;
    let b2_1: DartIdType = if t >= n_square { (4 * (t - n_square) + 3) as DartIdType } else { NULL_DART_ID };
    let b2_2: DartIdType = if x + 1 != n_square { (4 * (t + 1) + 4) as DartIdType } else { NULL_DART_ID };
    let b2_3: DartIdType = if t + n_square < nn { (4 * (t + n_square) + 1) as DartIdType } else { NULL_DART_ID };
    let b2_4: DartIdType = if x != 0 { (4 * (t - 1) + 2) as DartIdType } else { NULL_DART_ID };
    assert(b2_2 as int == grid_b2(n, t as int, 2));
    assert(b2_4 as int == grid_b2(n, t as int, 4));
    map.set_d_betas(d1, [d4, d2, b2_1]);
    map.set_d_betas(d2, [d1, d3, b2_2]);
    map.set_d_betas(d3, [d2, d4, b2_3]);
    map.set_d_betas(d4, [d3, d1, b2_4]);
}

/// Build a [`TwoMap`] representing a mesh of `n_square * n_square` square cells.
///
/// Squares are numbered row by row from the bottom-left one; square `t` is made of darts
/// `4t+1..=4t+4` linked in a *β<sub>1</sub>* cycle, and is 2-linked to its neighbours. Darts on
/// the boundary of the mesh are 2-free.
pub fn square_two_map<V: Copy, const N_MARKS: usize>(n_square: usize) -> (r: TwoMap<V, N_MARKS>)
    requires
        4 * n_square * n_square < u32::MAX,
    ensures
        r.wf(),
        r.n() == 4 * n_square * n_square + 1,
        forall|t: int| 0 <= t < n_square * n_square ==> #[trigger] square_ok(r, n_square as int, t),
{
    let ghost n = n_square as int;
    assert(n_square * n_square <= 4 * n_square * n_square) by (nonlinear_arith);
    assert(n_square <= n_square * n_square) by (nonlinear_arith);
    assert(4 * (n_square * n_square) == 4 * n_square * n_square) by (nonlinear_arith);
    let nn: usize = n_square * n_square;
    let total: usize = 4 * nn;
    let mut map: TwoMap<V, N_MARKS> = TwoMap::new(total);
    let mut t: usize = 0;
    let mut x: usize = 0;
    proof {
        if n_square > 0 {
            vstd::arithmetic::div_mod::lemma_mod_multiples_basic(n_square as int, n_square as int);
            assert(nn % n_square == 0);
            assert(0usize % n_square == 0);
        }
    }
    while t < nn
        invariant
            n == n_square,
            nn == n * n,
            total == 4 * nn,
            total < u32::MAX,
            n_square <= nn,
            total == 4 * n_square * n_square,
            n_square > 0 ==> nn % n_square == 0,
            map.wf(),
            map.n() == total + 1,
            t <= nn,
            n_square > 0 || nn == 0,
            n_square > 0 ==> x as int == (t as int) % n,
            forall|u: int| 0 <= u < t ==> #[trigger] square_ok(map, n, u),
            forall|i: int, d: int| 0 <= i < 3 && square_base(t as int) < d < map.n() ==> #[trigger] map.img(i, d) == NULL_DART_ID,
        decreases nn - t,
    {
        let ghost pre = map;
        proof {
            lemma_mod_step(t as int, n, x as int);
        }
        write_square(&mut map, t, x, n_square, nn);
        assert forall|u: int| 0 <= u < t + 1 implies #[trigger] square_ok(map, n, u) by {
            if u < t {
                assert(square_ok(pre, n, u));
                let bu = square_base(u);
                assert(bu + 4 <= square_base(t as int));
            }
        }
        t = t + 1;
        x = if x + 1 == n_square { 0 } else { x + 1 };
    }
    map
}

} // verus!
