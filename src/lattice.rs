//! The base-4 walk: four cardinal steps on an integer lattice, where repeated visits to a
//! cell stack upward.
use vstd::prelude::*;
use std::collections::HashMap;
use crate::walk::{subsample, subsampled};

verus! {

broadcast use vstd::std_specs::hash::group_hash_axioms;

/// A point of the base-4 walk: a lattice cell and its stacking height.
#[derive(Clone, Copy, Debug, PartialEq, Eq, Structural)]
pub struct LatticePoint {
    pub x: i64,
    pub y: i64,
    pub z: i64,
}

/// The lattice step of a base-4 digit, taken mod 4: +X, -X, +Y, -Y.
pub open spec fn step4(d: u8) -> (int, int) {
    let r = d % 4;
    if r == 0 {
        (1, 0)
    } else if r == 1 {
        (-1, 0)
    } else if r == 2 {
        (0, 1)
    } else {
        (0, -1)
    }
}

/// The cell reached from the origin after the first `n` digits of `ds`.
pub open spec fn cell_after(ds: Seq<u8>, n: nat) -> (int, int)
    decreases n,
{
    if n == 0 {
        (0, 0)
    } else {
        let p = cell_after(ds, (n - 1) as nat);
        let s = step4(ds[n - 1]);
        (p.0 + s.0, p.1 + s.1)
    }
}

/// How many of the first `n` steps of `ds` end on cell `c`.
pub open spec fn visits(ds: Seq<u8>, n: nat, c: (int, int)) -> nat
    decreases n,
{
    if n == 0 {
        0
    } else {
        visits(ds, (n - 1) as nat, c) + if cell_after(ds, n) == c {
            1nat
        } else {
            0nat
        }
    }
}

/// The point emitted for digit `i`: the cell after it, stacked by the number of earlier
/// steps that ended on the same cell.
pub open spec fn point_at(ds: Seq<u8>, i: nat) -> LatticePoint {
    let c = cell_after(ds, i + 1);
    LatticePoint { x: c.0 as i64, y: c.1 as i64, z: visits(ds, i, c) as i64 }
}

/// The full base-4 path: one point per digit.
pub open spec fn lattice_path(ds: Seq<u8>) -> Seq<LatticePoint> {
    Seq::new(ds.len(), |i: int| point_at(ds, i as nat))
}

/// What `walk_base4` returns: the thinned path, or the origin alone for no digits.
pub open spec fn walk4(ds: Seq<u8>, max_points: nat) -> Seq<LatticePoint> {
    if ds.len() == 0 {
        seq![LatticePoint { x: 0, y: 0, z: 0 }]
    } else {
        subsampled(lattice_path(ds), max_points)
    }
}

pub open spec fn in_key_range(c: (int, int)) -> bool {
    i64::MIN <= c.0 <= i64::MAX && i64::MIN <= c.1 <= i64::MAX
}

/// The revisit-map key of a cell: both coordinates offset into `u64` and packed.
pub open spec fn cell_key(c: (int, int)) -> int {
    (c.0 - i64::MIN) * 0x1_0000_0000_0000_0000 + (c.1 - i64::MIN)
}

proof fn lemma_cell_key_injective(a: (int, int), b: (int, int))
    requires
        in_key_range(a),
        in_key_range(b),
        cell_key(a) == cell_key(b),
    ensures
        a == b,
{
    let m: int = 0x1_0000_0000_0000_0000;
    let (a0, a1) = (a.0 - i64::MIN, a.1 - i64::MIN);
    let (b0, b1) = (b.0 - i64::MIN, b.1 - i64::MIN);
    assert(a0 == b0 && a1 == b1) by (nonlinear_arith)
        requires
            0 <= a1 < m,
            0 <= b1 < m,
            0 <= a0,
            0 <= b0,
            a0 * m + a1 == b0 * m + b1,
    ;
}

proof fn lemma_cell_bounds(ds: Seq<u8>, n: nat)
    ensures
        -n <= cell_after(ds, n).0 <= n,
        -n <= cell_after(ds, n).1 <= n,
    decreases n,
{
    if n > 0 {
        lemma_cell_bounds(ds, (n - 1) as nat);
    }
}

proof fn lemma_visits_bound(ds: Seq<u8>, n: nat, c: (int, int))
    ensures
        visits(ds, n, c) <= n,
    decreases n,
{
    if n > 0 {
        lemma_visits_bound(ds, (n - 1) as nat, c);
    }
}

fn key_of(x: i64, y: i64) -> (k: u128)
    ensures
        k == cell_key((x as int, y as int)),
{
    let kx: u128 = (x as i128 - i64::MIN as i128) as u128;
    let ky: u128 = (y as i128 - i64::MIN as i128) as u128;
    assert(kx * 0x1_0000_0000_0000_0000 + ky <= u128::MAX) by (nonlinear_arith)
        requires
            kx < 0x1_0000_0000_0000_0000,
            ky < 0x1_0000_0000_0000_0000,
    ;
    kx * 0x1_0000_0000_0000_0000u128 + ky
}

/// The full base-4 path of `digits`, one point per digit.
pub fn lattice_points(digits: &[u8]) -> (path: Vec<LatticePoint>)
    requires
        digits@.len() <= i64::MAX,
    ensures
        path@ == lattice_path(digits@),
{
    let ghost ds = digits@;
    let mut path: Vec<LatticePoint> = Vec::new();
    let mut seen: HashMap<u128, u64> = HashMap::new();
    let mut x: i64 = 0;
    let mut y: i64 = 0;
    let mut i: usize = 0;
    while i < digits.len()
        invariant
            ds == digits@,
            ds.len() <= i64::MAX,
            i <= ds.len(),
            (x as int, y as int) == cell_after(ds, i as nat),
            path@ == lattice_path(ds).take(i as int),
            forall|c: (int, int)|
                in_key_range(c) ==> #[trigger] visits(ds, i as nat, c) == if seen@.contains_key(
                    cell_key(c) as u128,
                ) {
                    seen@[cell_key(c) as u128] as nat
                } else {
                    0nat
                },
        decreases ds.len() - i,
    {
        proof {
            lemma_cell_bounds(ds, i as nat);
        }
        let d = digits[i] % 4;
        if d == 0 {
            x = x + 1;
        } else if d == 1 {
            x = x - 1;
        } else if d == 2 {
            y = y + 1;
        } else {
            y = y - 1;
        }
        let ghost c: (int, int) = (x as int, y as int);
        assert(c == cell_after(ds, (i + 1) as nat));
        let key = key_of(x, y);
        let before: u64 = match seen.get(&key) {
            Some(n) => *n,
            None => 0,
        };
        assert(before == visits(ds, i as nat, c));
        proof {
            lemma_visits_bound(ds, i as nat, c);
        }
        seen.insert(key, before + 1);
        path.push(LatticePoint { x, y, z: before as i64 });
        proof {
            assert forall|e: (int, int)| in_key_range(e) implies #[trigger] visits(
                ds,
                (i + 1) as nat,
                e,
            ) == if seen@.contains_key(cell_key(e) as u128) {
                seen@[cell_key(e) as u128] as nat
            } else {
                0nat
            } by {
                if e != c {
                    if cell_key(e) == cell_key(c) {
                        lemma_cell_key_injective(e, c);
                    }
                    assert(visits(ds, i as nat, e) == visits(ds, (i + 1) as nat, e));
                }
            }
            assert(path@ =~= lattice_path(ds).take(i + 1));
        }
        i = i + 1;
    }
    assert(path@ =~= lattice_path(ds));
    path
}

/// Walks a base-4 digit sequence on the lattice, thinned to about `max_points` points;
/// no digits give the origin alone.
pub fn walk_base4(base4: &[u8], max_points: usize) -> (path: Vec<LatticePoint>)
    requires
        base4@.len() <= i64::MAX,
    ensures
        path@ == walk4(base4@, max_points as nat),
{
    if base4.len() == 0 {
        return vec![LatticePoint { x: 0, y: 0, z: 0 }];
    }
    let full = lattice_points(base4);
    subsample(&full, max_points)
}

/// Without thinning, the base-4 walk has one point per digit, and consecutive points lie
/// on neighbouring cells: one unit apart along exactly one of the two lattice axes.
pub proof fn lemma_walk4_unit_steps(ds: Seq<u8>, max_points: nat)
    requires
        ds.len() <= max_points,
        ds.len() <= i64::MAX,
    ensures
        ds.len() > 0 ==> walk4(ds, max_points).len() == ds.len(),
        forall|i: int|
            0 <= i < ds.len() - 1 ==> {
                let a = #[trigger] walk4(ds, max_points)[i];
                let b = walk4(ds, max_points)[i + 1];
                ||| (b.x - a.x == 1 || b.x - a.x == -1) && b.y == a.y
                ||| (b.y - a.y == 1 || b.y - a.y == -1) && b.x == a.x
            },
{
    assert forall|i: int| 0 <= i < ds.len() - 1 implies {
        let a = #[trigger] walk4(ds, max_points)[i];
        let b = walk4(ds, max_points)[i + 1];
        ||| (b.x - a.x == 1 || b.x - a.x == -1) && b.y == a.y
        ||| (b.y - a.y == 1 || b.y - a.y == -1) && b.x == a.x
    } by {
        lemma_cell_bounds(ds, (i + 1) as nat);
        lemma_cell_bounds(ds, (i + 2) as nat);
        let c1 = cell_after(ds, (i + 1) as nat);
        let c2 = cell_after(ds, (i + 2) as nat);
        assert(c2 == (c1.0 + step4(ds[i + 1]).0, c1.1 + step4(ds[i + 1]).1));
    }
}

} // verus!
