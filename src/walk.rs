//! The turtle walk engine: from digits and a digit mapping to moves and points.
use vstd::prelude::*;
use crate::text::same_text;

verus! {

broadcast use vstd::string::group_string_axioms;

/// A digit mapping: digit `d` performs the action of digit `m[d]`.
pub type Mapping = [u8; 12];

/// Every digit performs its own action.
pub const IDENTITY: Mapping = [0, 1, 2, 3, 4, 5, 6, 7, 8, 9, 10, 11];

/// The "Optimal" preset: the positive turns about Y and Z trade places.
pub const OPTIMAL: Mapping = [0, 1, 2, 3, 4, 5, 6, 7, 10, 9, 8, 11];

/// The "Spiral" preset: digits 0..5 take the even actions in order, 6..11 the odd ones.
pub const SPIRAL: Mapping = [0, 2, 4, 6, 8, 10, 1, 3, 5, 7, 9, 11];

/// The "Stock-opt" preset.
pub const STOCK_OPT: Mapping = [1, 0, 2, 4, 10, 5, 6, 9, 8, 7, 3, 11];

/// Whether `m` is a permutation of the twelve digits: each entry a digit, no two equal.
pub open spec fn is_permutation(m: Mapping) -> bool {
    &&& forall|i: int| 0 <= i < 12 ==> #[trigger] m@[i] < 12
    &&& forall|i: int, j: int| 0 <= i < j < 12 ==> #[trigger] m@[i] != #[trigger] m@[j]
}

/// Every named mapping, known or not, is a permutation of the twelve digits.
pub proof fn lemma_presets_are_permutations(name: Seq<char>)
    ensures
        is_permutation(preset_mapping(name)),
{
}

/// The preset that `name` denotes; every other name denotes the identity.
pub open spec fn preset_mapping(name: Seq<char>) -> Mapping {
    if name == "Optimal"@ {
        OPTIMAL
    } else if name == "Spiral"@ {
        SPIRAL
    } else if name == "Stock-opt"@ {
        STOCK_OPT
    } else {
        IDENTITY
    }
}

/// The preset mapping called `name`, or the identity for an unknown name.
pub fn named_mapping(name: &str) -> (m: Mapping)
    ensures
        m == preset_mapping(name@),
{
    proof {
        reveal_strlit("Identity");
        reveal_strlit("Optimal");
        reveal_strlit("Spiral");
        reveal_strlit("Stock-opt");
        assert("Identity"@.len() == 8 && "Optimal"@.len() == 7);
        assert("Spiral"@.len() == 6 && "Stock-opt"@.len() == 9);
    }
    if same_text(name, "Identity") {
        IDENTITY
    } else if same_text(name, "Optimal") {
        OPTIMAL
    } else if same_text(name, "Spiral") {
        SPIRAL
    } else if same_text(name, "Stock-opt") {
        STOCK_OPT
    } else {
        IDENTITY
    }
}

/// One turtle instruction.
///
/// `Step` moves one unit along the turtle's local `axis` (0 = X, 1 = Y, 2 = Z), forward or
/// backward; `Turn` rotates the turtle by one fixed angle step about the world `axis`.
#[derive(Clone, Copy, Debug, PartialEq, Eq, Structural)]
pub enum Move {
    Step { axis: u8, forward: bool },
    Turn { axis: u8, positive: bool },
}

/// The action digit that `digit` performs under `m`: `m[digit mod 12]`, or `digit mod 12`
/// itself when that entry is not a digit.
pub open spec fn action_of(digit: u8, m: Mapping) -> u8 {
    let d = digit % 12;
    if m@[d as int] < 12 {
        m@[d as int]
    } else {
        d
    }
}

/// The move an action digit stands for: 0..5 step along +X, -X, +Y, -Y, +Z, -Z;
/// 6..11 turn positively, then negatively, about X, Y and Z.
pub open spec fn move_of(a: u8) -> Move {
    if a < 6 {
        Move::Step { axis: a / 2, forward: a % 2 == 0 }
    } else {
        Move::Turn { axis: ((a - 6) / 2) as u8, positive: (a - 6) % 2 == 0 }
    }
}

/// The moves of digit sequence `d` under mapping `m`, one per digit.
pub open spec fn planned(d: Seq<u8>, m: Mapping) -> Seq<Move> {
    Seq::new(d.len(), |i: int| move_of(action_of(d[i], m)))
}

/// The action digit of `digit` under `mapping`.
pub fn action_digit(digit: u8, mapping: &Mapping) -> (a: u8)
    ensures
        a == action_of(digit, *mapping),
        a < 12,
{
    let d = digit % 12;
    let m = mapping[d as usize];
    if m < 12 {
        m
    } else {
        d
    }
}

/// The move of an action digit.
pub fn move_for(a: u8) -> (mv: Move)
    ensures
        mv == move_of(a),
{
    if a < 6 {
        Move::Step { axis: a / 2, forward: a % 2 == 0 }
    } else {
        Move::Turn { axis: (a - 6) / 2, positive: (a - 6) % 2 == 0 }
    }
}

/// The moves of a digit sequence under `mapping`, one per digit.
pub fn plan_walk(digits: &[u8], mapping: &Mapping) -> (moves: Vec<Move>)
    ensures
        moves@ == planned(digits@, *mapping),
{
    let mut moves: Vec<Move> = Vec::new();
    let mut i: usize = 0;
    while i < digits.len()
        invariant
            i <= digits@.len(),
            moves@.len() == i,
            forall|j: int| 0 <= j < i ==> moves@[j] == move_of(#[trigger] action_of(digits@[j], *mapping)),
        decreases digits@.len() - i,
    {
        let a = action_digit(digits[i], mapping);
        moves.push(move_for(a));
        i = i + 1;
    }
    assert(moves@ =~= planned(digits@, *mapping));
    moves
}

/// Every digit gives exactly one move, whatever the mapping: a turn exactly when its action
/// digit is 6 or more, a unit step otherwise, each about or along one of the three axes.
pub proof fn lemma_one_move_per_digit(d: Seq<u8>, m: Mapping)
    ensures
        planned(d, m).len() == d.len(),
        forall|i: int|
            0 <= i < d.len() ==> (#[trigger] planned(d, m)[i] is Turn <==> action_of(d[i], m) >= 6),
        forall|i: int|
            0 <= i < d.len() ==> match #[trigger] planned(d, m)[i] {
                Move::Step { axis, forward: _ } => axis < 3,
                Move::Turn { axis, positive: _ } => axis < 3,
            },
{
}

/// The stride with which a path of `len` points is thinned to about `max_points`:
/// `ceil(len / max_points)`, where a bound of zero counts as one.
pub open spec fn stride(len: nat, max_points: nat) -> nat {
    let m = if max_points == 0 { 1 } else { max_points };
    ((len + m - 1) / m as int) as nat
}

/// `path` thinned to at most about `max_points` points: unchanged when it is short enough,
/// else every `stride`-th point from the first, with the final point added when the
/// stride does not land on it.
pub open spec fn subsampled<T>(path: Seq<T>, max_points: nat) -> Seq<T> {
    if path.len() <= max_points {
        path
    } else {
        let k = stride(path.len(), max_points);
        let n = (path.len() - 1) / k as int + 1;
        let picked = Seq::new(n as nat, |j: int| path[j * k]);
        if (path.len() - 1) % (k as int) == 0 {
            picked
        } else {
            picked.push(path.last())
        }
    }
}

proof fn lemma_stride_bounds(len: nat, max_points: nat)
    requires
        len > max_points,
    ensures
        1 <= stride(len, max_points) <= len,
{
    let m: int = if max_points == 0 { 1 } else { max_points as int };
    assert((len + m - 1) / m >= 1) by (nonlinear_arith)
        requires
            len >= m,
            m >= 1,
    ;
    assert((len + m - 1) / m <= len) by (nonlinear_arith)
        requires
            len >= 1,
            m >= 1,
    ;
}

/// A copy of `path`.
fn copy_points<T: Copy>(path: &Vec<T>) -> (r: Vec<T>)
    ensures
        r@ == path@,
{
    let mut r: Vec<T> = Vec::new();
    let mut i: usize = 0;
    while i < path.len()
        invariant
            i <= path@.len(),
            r@ == path@.take(i as int),
        decreases path@.len() - i,
    {
        r.push(path[i]);
        i = i + 1;
        assert(r@ =~= path@.take(i as int));
    }
    assert(r@ =~= path@);
    r
}

/// `path` thinned as `subsampled` says.
pub fn subsample<T: Copy>(path: &Vec<T>, max_points: usize) -> (r: Vec<T>)
    ensures
        r@ == subsampled(path@, max_points as nat),
{
    let len = path.len();
    if len <= max_points {
        return copy_points(path);
    }
    let m: usize = if max_points == 0 { 1 } else { max_points };
    proof {
        lemma_stride_bounds(len as nat, max_points as nat);
    }
    assert(len % m != 0 ==> len / m < len) by (nonlinear_arith)
        requires
            m >= 1,
            len >= 1,
    ;
    let k: usize = len / m + if len % m == 0 { 0 } else { 1 };
    assert(k == stride(len as nat, max_points as nat)) by (nonlinear_arith)
        requires
            m >= 1,
            m == (if max_points == 0 { 1 } else { max_points as int }),
            k == len / m + (if len % m == 0 { 0int } else { 1 }),
    ;
    let ghost n: int = (len - 1) / k as int + 1;
    let ghost picked = Seq::new(n as nat, |j: int| path@[j * k]);
    let mut r: Vec<T> = Vec::new();
    let mut i: usize = 0;
    let mut j: usize = 0;
    loop
        invariant
            1 <= k <= len,
            i == j * k,
            i < len,
            j < n,
            n == (len - 1) / k as int + 1,
            picked == Seq::new(n as nat, |j: int| path@[j * k]),
            r@ == picked.take(j as int),
            len == path@.len(),
            len > max_points,
            k == stride(len as nat, max_points as nat),
        decreases len - i,
    {
        r.push(path[i]);
        proof {
            assert(r@ =~= picked.take(j + 1));
        }
        if len - 1 - i < k {
            assert(j + 1 == n) by (nonlinear_arith)
                requires
                    i == j * k,
                    len - 1 - i < k,
                    i <= len - 1,
                    k >= 1,
                    n == (len - 1) / k as int + 1,
            ;
            assert(r@ =~= picked);
            if len - 1 != i {
                assert((len - 1) % (k as int) != 0) by (nonlinear_arith)
                    requires
                        i == j * k,
                        len - 1 - i < k,
                        len - 1 != i,
                        i <= len - 1,
                        k >= 1,
                ;
                r.push(path[len - 1]);
            } else {
                assert((len - 1) % (k as int) == 0) by (nonlinear_arith)
                    requires
                        i == j * k,
                        len - 1 == i,
                        k >= 1,
                ;
            }
            return r;
        }
        assert(j + 1 < n) by (nonlinear_arith)
            requires
                i == j * k,
                len - 1 - i >= k,
                i <= len - 1,
                k >= 1,
                n == (len - 1) / k as int + 1,
        ;
        i = i + k;
        j = j + 1;
        assert(i == j * k) by (nonlinear_arith)
            requires
                i == (j - 1) * k + k,
        ;
    }
}

/// Thinning a path that is longer than the bound never loses its final point, and keeps
/// the first one.
pub proof fn lemma_subsample_keeps_ends<T>(path: Seq<T>, max_points: nat)
    requires
        path.len() > max_points,
    ensures
        subsampled(path, max_points).len() >= 1,
        subsampled(path, max_points).last() == path.last(),
        subsampled(path, max_points)[0] == path[0],
{
    let len = path.len();
    lemma_stride_bounds(len, max_points);
    let k = stride(len, max_points);
    let n = (len - 1) / k as int + 1;
    assert(n >= 1) by (nonlinear_arith)
        requires
            k >= 1,
            len >= 1,
            n == (len - 1) / k as int + 1,
    ;
    if (len - 1) % (k as int) == 0 {
        assert((n - 1) * k == len - 1) by (nonlinear_arith)
            requires
                k >= 1,
                len >= 1,
                (len - 1) % (k as int) == 0,
                n == (len - 1) / k as int + 1,
        ;
    }
    assert(0 * k == 0);
}

/// Thinning leaves at most one point more than the bound, when the bound is positive.
pub proof fn lemma_subsample_size<T>(path: Seq<T>, max_points: nat)
    requires
        max_points >= 1,
    ensures
        subsampled(path, max_points).len() <= max_points + 1,
{
    let len = path.len();
    if len > max_points {
        lemma_stride_bounds(len, max_points);
        let k = stride(len, max_points);
        let m = max_points as int;
        assert((len - 1) / (k as int) + 1 <= m) by (nonlinear_arith)
            requires
                m >= 1,
                len > m,
                k == (len + m - 1) / m,
                k >= 1,
        {
            assert(k * m >= len) by (nonlinear_arith)
                requires
                    m >= 1,
                    k == (len + m - 1) / m,
            ;
            assert((len - 1) / (k as int) < m) by (nonlinear_arith)
                requires
                    k * m >= len,
                    k >= 1,
                    len >= 1,
            ;
        }
    }
}

} // verus!
