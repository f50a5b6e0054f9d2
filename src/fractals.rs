//! L-system fractals: an axiom rewritten a number of times, then read as turtle digits.
//!
//! Forward symbols (`F`, `G`, `A`, `B`) give digit 0, a step along +X; `+` and `-` give
//! as many turn digits about Z (10 and 11) as a 15-degree step needs for the curve's angle.
use vstd::prelude::*;
use crate::text::text_chars;

verus! {

/// The fractals that this library draws, each an axiom with rewrite rules.
#[derive(Clone, Copy, Debug, PartialEq, Eq, Structural)]
pub enum LSystem {
    Dragon,
    Koch,
    Sierpinski,
    Hilbert,
    Peano,
    Gosper,
}

/// The string that rewriting starts from.
pub open spec fn axiom_of(sys: LSystem) -> Seq<char> {
    match sys {
        LSystem::Dragon => "F"@,
        LSystem::Koch => "F--F--F"@,
        LSystem::Sierpinski => "F"@,
        LSystem::Hilbert => "A"@,
        LSystem::Peano => "F"@,
        LSystem::Gosper => "A"@,
    }
}

/// What one symbol becomes in one rewriting step; symbols without a rule stay.
pub open spec fn production(sys: LSystem, c: char) -> Seq<char> {
    match sys {
        LSystem::Dragon => if c == 'F' {
            "F+G"@
        } else if c == 'G' {
            "F-G"@
        } else {
            seq![c]
        },
        LSystem::Koch => if c == 'F' {
            "F+F--F+F"@
        } else {
            seq![c]
        },
        LSystem::Sierpinski => if c == 'F' {
            "G-F-G"@
        } else if c == 'G' {
            "F+G+F"@
        } else {
            seq![c]
        },
        LSystem::Hilbert => if c == 'A' {
            "-BF+AFA+FB-"@
        } else if c == 'B' {
            "+AF-BFB-FA+"@
        } else {
            seq![c]
        },
        LSystem::Peano => if c == 'F' {
            "F+F-F-F-F+F+F+F-F"@
        } else {
            seq![c]
        },
        LSystem::Gosper => if c == 'A' {
            "A-B--B+A++AA+B-"@
        } else if c == 'B' {
            "+A-BB--B-A++A+B"@
        } else {
            seq![c]
        },
    }
}

/// The turn angle of the curve, in degrees.
pub open spec fn angle_of(sys: LSystem) -> u32 {
    match sys {
        LSystem::Dragon => 90,
        LSystem::Koch => 60,
        LSystem::Sierpinski => 60,
        LSystem::Hilbert => 90,
        LSystem::Peano => 90,
        LSystem::Gosper => 60,
    }
}

/// One rewriting step: every symbol of `s` replaced by its production.
pub open spec fn rewrite(sys: LSystem, s: Seq<char>) -> Seq<char>
    decreases s.len(),
{
    if s.len() == 0 {
        seq![]
    } else {
        rewrite(sys, s.drop_last()) + production(sys, s.last())
    }
}

/// The string after `n` rewriting steps from the axiom.
pub open spec fn generation(sys: LSystem, n: nat) -> Seq<char>
    decreases n,
{
    if n == 0 {
        axiom_of(sys)
    } else {
        rewrite(sys, generation(sys, (n - 1) as nat))
    }
}

/// How many 15-degree turn digits make one turn of `angle_degrees`: at least one.
pub open spec fn turn_count(angle_degrees: u32) -> nat {
    if angle_degrees / 15 >= 1 {
        (angle_degrees / 15) as nat
    } else {
        1
    }
}

/// The digits of one symbol.
pub open spec fn symbol_digits(c: char, n_rot: nat) -> Seq<u8> {
    if c == 'F' || c == 'G' || c == 'A' || c == 'B' {
        seq![0u8]
    } else if c == '+' {
        Seq::new(n_rot, |i: int| 10u8)
    } else if c == '-' {
        Seq::new(n_rot, |i: int| 11u8)
    } else {
        seq![]
    }
}

/// The digits of a whole L-system string, symbol by symbol.
pub open spec fn lsystem_digits(s: Seq<char>, angle_degrees: u32) -> Seq<u8>
    decreases s.len(),
{
    if s.len() == 0 {
        seq![]
    } else {
        lsystem_digits(s.drop_last(), angle_degrees) + symbol_digits(
            s.last(),
            turn_count(angle_degrees),
        )
    }
}

/// The digits of fractal `sys` after `iterations` rewriting steps.
pub open spec fn fractal_digits(sys: LSystem, iterations: nat) -> Seq<u8> {
    lsystem_digits(generation(sys, iterations), angle_of(sys))
}

/// Whether every entry of `d` is a forward step (0) or a turn about Z (10 or 11).
pub open spec fn turtle_digits_only(d: Seq<u8>) -> bool {
    forall|i: int| 0 <= i < d.len() ==> #[trigger] d[i] == 0 || d[i] == 10 || d[i] == 11
}

proof fn lemma_lsystem_digits_kinds(s: Seq<char>, angle_degrees: u32)
    ensures
        turtle_digits_only(lsystem_digits(s, angle_degrees)),
    decreases s.len(),
{
    if s.len() > 0 {
        lemma_lsystem_digits_kinds(s.drop_last(), angle_degrees);
        let a = lsystem_digits(s.drop_last(), angle_degrees);
        let b = symbol_digits(s.last(), turn_count(angle_degrees));
        assert forall|i: int| 0 <= i < (a + b).len() implies #[trigger] (a + b)[i] == 0 || (a
            + b)[i] == 10 || (a + b)[i] == 11 by {
            if i >= a.len() {
                assert((a + b)[i] == b[i - a.len()]);
            }
        }
    }
}

/// How many forward symbols (`F`, `G`, `A`, `B`) `s` holds.
pub open spec fn forward_count(s: Seq<char>) -> nat
    decreases s.len(),
{
    if s.len() == 0 {
        0
    } else {
        forward_count(s.drop_last()) + if s.last() == 'F' || s.last() == 'G' || s.last() == 'A'
            || s.last() == 'B' {
            1nat
        } else {
            0nat
        }
    }
}

/// How many turn symbols (`+`, `-`) `s` holds.
pub open spec fn turn_symbol_count(s: Seq<char>) -> nat
    decreases s.len(),
{
    if s.len() == 0 {
        0
    } else {
        turn_symbol_count(s.drop_last()) + if s.last() == '+' || s.last() == '-' {
            1nat
        } else {
            0nat
        }
    }
}

proof fn lemma_counts_concat(a: Seq<char>, b: Seq<char>)
    ensures
        forward_count(a + b) == forward_count(a) + forward_count(b),
        turn_symbol_count(a + b) == turn_symbol_count(a) + turn_symbol_count(b),
    decreases b.len(),
{
    if b.len() > 0 {
        assert((a + b).drop_last() =~= a + b.drop_last());
        lemma_counts_concat(a, b.drop_last());
    } else {
        assert(a + b =~= a);
    }
}

proof fn lemma_counts_single(c: char)
    ensures
        forward_count(seq![c]) == if c == 'F' || c == 'G' || c == 'A' || c == 'B' {
            1nat
        } else {
            0nat
        },
        turn_symbol_count(seq![c]) == if c == '+' || c == '-' {
            1nat
        } else {
            0nat
        },
{
    let e = seq![c];
    assert(e.len() == 1 && e.last() == c);
    assert(e.drop_last() =~= Seq::<char>::empty());
    assert(forward_count(Seq::<char>::empty()) == 0);
    assert(turn_symbol_count(Seq::<char>::empty()) == 0);
    assert(forward_count(e) == forward_count(e.drop_last()) + if c == 'F' || c == 'G' || c
        == 'A' || c == 'B' {
        1nat
    } else {
        0nat
    });
    assert(turn_symbol_count(e) == turn_symbol_count(e.drop_last()) + if c == '+' || c == '-' {
        1nat
    } else {
        0nat
    });
}

proof fn lemma_digit_count(s: Seq<char>, angle_degrees: u32)
    ensures
        lsystem_digits(s, angle_degrees).len() == forward_count(s) + turn_count(angle_degrees)
            * turn_symbol_count(s),
    decreases s.len(),
{
    if s.len() > 0 {
        let t = s.drop_last();
        let c = s.last();
        let k = turn_count(angle_degrees);
        lemma_digit_count(t, angle_degrees);
        let d = symbol_digits(c, k);
        assert(lsystem_digits(s, angle_degrees).len() == lsystem_digits(t, angle_degrees).len()
            + d.len());
        let ts = turn_symbol_count(t);
        if c == '+' || c == '-' {
            assert(d.len() == k);
            assert(turn_symbol_count(s) == ts + 1);
            assert(forward_count(s) == forward_count(t));
            assert(k * (ts + 1) == k * ts + k) by (nonlinear_arith);
        } else if c == 'F' || c == 'G' || c == 'A' || c == 'B' {
            assert(d.len() == 1);
            assert(turn_symbol_count(s) == ts);
            assert(forward_count(s) == forward_count(t) + 1);
        } else {
            assert(d.len() == 0);
            assert(turn_symbol_count(s) == ts);
            assert(forward_count(s) == forward_count(t));
        }
    } else {
        assert(turn_symbol_count(s) == 0);
        assert(turn_count(angle_degrees) * 0 == 0);
    }
}

/// Whether `s` holds neither `A` nor `B`, the symbols the dragon's rules leave alone.
pub open spec fn no_ab(s: Seq<char>) -> bool {
    forall|i: int| 0 <= i < s.len() ==> #[trigger] s[i] != 'A' && s[i] != 'B'
}

proof fn lemma_dragon_rewrite_no_ab(s: Seq<char>)
    requires
        no_ab(s),
    ensures
        no_ab(rewrite(LSystem::Dragon, s)),
    decreases s.len(),
{
    if s.len() > 0 {
        let c = s.last();
        let t = s.drop_last();
        assert(no_ab(t)) by {
            assert forall|i: int| 0 <= i < t.len() implies #[trigger] t[i] != 'A' && t[i] != 'B' by {
                assert(t[i] == s[i]);
            }
        }
        lemma_dragon_rewrite_no_ab(t);
        reveal_strlit("F+G");
        reveal_strlit("F-G");
        let a = rewrite(LSystem::Dragon, t);
        let p = production(LSystem::Dragon, c);
        assert(c == s[s.len() - 1]);
        assert(no_ab(p));
        assert(rewrite(LSystem::Dragon, s) == a + p);
        assert forall|i: int| 0 <= i < (a + p).len() implies #[trigger] (a + p)[i] != 'A' && (a
            + p)[i] != 'B' by {
            if i >= a.len() {
                assert((a + p)[i] == p[i - a.len()]);
            } else {
                assert((a + p)[i] == a[i]);
            }
        }
    }
}

proof fn lemma_dragon_generation_no_ab(n: nat)
    ensures
        no_ab(generation(LSystem::Dragon, n)),
    decreases n,
{
    reveal_strlit("F");
    if n > 0 {
        lemma_dragon_generation_no_ab((n - 1) as nat);
        lemma_dragon_rewrite_no_ab(generation(LSystem::Dragon, (n - 1) as nat));
    }
}

proof fn lemma_dragon_rewrite_counts(s: Seq<char>)
    requires
        no_ab(s),
    ensures
        forward_count(rewrite(LSystem::Dragon, s)) == 2 * forward_count(s),
        turn_symbol_count(rewrite(LSystem::Dragon, s)) == turn_symbol_count(s) + forward_count(s),
    decreases s.len(),
{
    if s.len() > 0 {
        let c = s.last();
        let t = s.drop_last();
        assert(c == s[s.len() - 1]);
        assert(no_ab(t)) by {
            assert forall|i: int| 0 <= i < t.len() implies #[trigger] t[i] != 'A' && t[i] != 'B' by {
                assert(t[i] == s[i]);
            }
        }
        lemma_dragon_rewrite_counts(t);
        lemma_counts_concat(rewrite(LSystem::Dragon, t), production(LSystem::Dragon, c));
        assert(rewrite(LSystem::Dragon, s) == rewrite(LSystem::Dragon, t) + production(
            LSystem::Dragon,
            c,
        ));
        reveal_strlit("F+G");
        reveal_strlit("F-G");
        let p = production(LSystem::Dragon, c);
        lemma_counts_single(c);
        assert(seq![c] =~= s.subrange(s.len() - 1, s.len() as int));
        assert(s =~= t + seq![c]);
        lemma_counts_concat(t, seq![c]);
        if c == 'F' || c == 'G' {
            assert(p =~= seq![p[0]] + seq![p[1]] + seq![p[2]]);
            lemma_counts_single(p[0]);
            lemma_counts_single(p[1]);
            lemma_counts_single(p[2]);
            lemma_counts_concat(seq![p[0]], seq![p[1]]);
            lemma_counts_concat(seq![p[0]] + seq![p[1]], seq![p[2]]);
            assert(forward_count(p) == 2 && turn_symbol_count(p) == 1);
        } else {
            assert(p =~= seq![c]);
        }
    }
}

proof fn lemma_dragon_has_forward(n: nat)
    ensures
        forward_count(generation(LSystem::Dragon, n)) >= 1,
    decreases n,
{
    reveal_strlit("F");
    if n == 0 {
        assert("F"@ =~= seq!['F']);
        lemma_counts_single('F');
    } else {
        lemma_dragon_has_forward((n - 1) as nat);
        lemma_dragon_generation_no_ab((n - 1) as nat);
        lemma_dragon_rewrite_counts(generation(LSystem::Dragon, (n - 1) as nat));
    }
}

/// Every rewriting step makes the dragon curve strictly longer: one step adds seven digits
/// for each forward symbol of the string before it.
pub proof fn lemma_dragon_grows(n: nat)
    ensures
        fractal_digits(LSystem::Dragon, n).len() < fractal_digits(LSystem::Dragon, n + 1).len(),
{
    let s = generation(LSystem::Dragon, n);
    lemma_dragon_generation_no_ab(n);
    lemma_dragon_has_forward(n);
    lemma_dragon_rewrite_counts(s);
    lemma_digit_count(s, 90);
    lemma_digit_count(rewrite(LSystem::Dragon, s), 90);
    assert(generation(LSystem::Dragon, n + 1) == rewrite(LSystem::Dragon, s));
}

/// The axiom of `sys`, as characters.
fn axiom_chars(sys: LSystem) -> (r: Vec<char>)
    ensures
        r@ == axiom_of(sys),
{
    match sys {
        LSystem::Dragon => text_chars("F"),
        LSystem::Koch => text_chars("F--F--F"),
        LSystem::Sierpinski => text_chars("F"),
        LSystem::Hilbert => text_chars("A"),
        LSystem::Peano => text_chars("F"),
        LSystem::Gosper => text_chars("A"),
    }
}

/// What `c` becomes in one step of `sys`, as characters.
fn production_chars(sys: LSystem, c: char) -> (r: Vec<char>)
    ensures
        r@ == production(sys, c),
{
    match sys {
        LSystem::Dragon => if c == 'F' {
            text_chars("F+G")
        } else if c == 'G' {
            text_chars("F-G")
        } else {
            vec![c]
        },
        LSystem::Koch => if c == 'F' {
            text_chars("F+F--F+F")
        } else {
            vec![c]
        },
        LSystem::Sierpinski => if c == 'F' {
            text_chars("G-F-G")
        } else if c == 'G' {
            text_chars("F+G+F")
        } else {
            vec![c]
        },
        LSystem::Hilbert => if c == 'A' {
            text_chars("-BF+AFA+FB-")
        } else if c == 'B' {
            text_chars("+AF-BFB-FA+")
        } else {
            vec![c]
        },
        LSystem::Peano => if c == 'F' {
            text_chars("F+F-F-F-F+F+F+F-F")
        } else {
            vec![c]
        },
        LSystem::Gosper => if c == 'A' {
            text_chars("A-B--B+A++AA+B-")
        } else if c == 'B' {
            text_chars("+A-BB--B-A++A+B")
        } else {
            vec![c]
        },
    }
}

/// One rewriting step of `sys` over `s`.
fn rewrite_once(sys: LSystem, s: &Vec<char>) -> (r: Vec<char>)
    ensures
        r@ == rewrite(sys, s@),
{
    let mut r: Vec<char> = Vec::new();
    let mut i: usize = 0;
    while i < s.len()
        invariant
            i <= s@.len(),
            r@ == rewrite(sys, s@.take(i as int)),
        decreases s@.len() - i,
    {
        let mut p = production_chars(sys, s[i]);
        r.append(&mut p);
        proof {
            assert(s@.take(i + 1).drop_last() =~= s@.take(i as int));
        }
        i = i + 1;
    }
    assert(s@.take(s@.len() as int) =~= s@);
    r
}

/// The string of `sys` after `iterations` rewriting steps.
fn lsystem_string(sys: LSystem, iterations: u32) -> (s: Vec<char>)
    ensures
        s@ == generation(sys, iterations as nat),
{
    let mut s = axiom_chars(sys);
    let mut k: u32 = 0;
    while k < iterations
        invariant
            k <= iterations,
            s@ == generation(sys, k as nat),
        decreases iterations - k,
    {
        s = rewrite_once(sys, &s);
        k = k + 1;
    }
    s
}

/// The digits of the symbols `s`, with turns of `angle_degrees`.
fn symbols_to_base12(s: &Vec<char>, angle_degrees: u32) -> (r: Vec<u8>)
    ensures
        r@ == lsystem_digits(s@, angle_degrees),
{
    let n_rot: u32 = if angle_degrees / 15 >= 1 { angle_degrees / 15 } else { 1 };
    let mut r: Vec<u8> = Vec::new();
    let mut i: usize = 0;
    while i < s.len()
        invariant
            i <= s@.len(),
            n_rot == turn_count(angle_degrees),
            r@ == lsystem_digits(s@.take(i as int), angle_degrees),
        decreases s@.len() - i,
    {
        let c = s[i];
        let ghost before = r@;
        if c == 'F' || c == 'G' || c == 'A' || c == 'B' {
            r.push(0);
        } else if c == '+' || c == '-' {
            let d: u8 = if c == '+' { 10 } else { 11 };
            let mut k: u32 = 0;
            while k < n_rot
                invariant
                    k <= n_rot,
                    r@ == before + Seq::new(k as nat, |j: int| d),
                decreases n_rot - k,
            {
                r.push(d);
                k = k + 1;
                assert(r@ =~= before + Seq::new(k as nat, |j: int| d));
            }
        }
        proof {
            assert(s@.take(i + 1).drop_last() =~= s@.take(i as int));
            assert(r@ =~= before + symbol_digits(c, turn_count(angle_degrees)));
        }
        i = i + 1;
    }
    assert(s@.take(s@.len() as int) =~= s@);
    r
}

/// The turtle digits of an L-system string, with turns of `angle_degrees`.
pub fn lsystem_to_base12(s: &str, angle_degrees: u32) -> (r: Vec<u8>)
    ensures
        r@ == lsystem_digits(s@, angle_degrees),
        turtle_digits_only(r@),
{
    proof {
        lemma_lsystem_digits_kinds(s@, angle_degrees);
    }
    symbols_to_base12(&text_chars(s), angle_degrees)
}

/// The digits of fractal `sys` after `iterations` rewriting steps.
pub fn fractal_base12(sys: LSystem, iterations: u32) -> (r: Vec<u8>)
    ensures
        r@ == fractal_digits(sys, iterations as nat),
        turtle_digits_only(r@),
{
    let s = lsystem_string(sys, iterations);
    let angle: u32 = match sys {
        LSystem::Dragon => 90,
        LSystem::Koch => 60,
        LSystem::Sierpinski => 60,
        LSystem::Hilbert => 90,
        LSystem::Peano => 90,
        LSystem::Gosper => 60,
    };
    proof {
        lemma_lsystem_digits_kinds(s@, angle);
    }
    symbols_to_base12(&s, angle)
}

/// The Heighway dragon: axiom `F`, `F -> F+G`, `G -> F-G`, 90-degree turns.
pub fn dragon_curve(iterations: u32) -> (r: Vec<u8>)
    ensures
        r@ == fractal_digits(LSystem::Dragon, iterations as nat),
        turtle_digits_only(r@),
{
    fractal_base12(LSystem::Dragon, iterations)
}

/// The Koch snowflake: axiom `F--F--F`, `F -> F+F--F+F`, 60-degree turns.
pub fn koch_snowflake(iterations: u32) -> (r: Vec<u8>)
    ensures
        r@ == fractal_digits(LSystem::Koch, iterations as nat),
        turtle_digits_only(r@),
{
    fractal_base12(LSystem::Koch, iterations)
}

/// The Sierpinski arrowhead: axiom `F`, `F -> G-F-G`, `G -> F+G+F`, 60-degree turns.
pub fn sierpinski_arrowhead(iterations: u32) -> (r: Vec<u8>)
    ensures
        r@ == fractal_digits(LSystem::Sierpinski, iterations as nat),
        turtle_digits_only(r@),
{
    fractal_base12(LSystem::Sierpinski, iterations)
}

/// The Hilbert curve: axiom `A`, `A -> -BF+AFA+FB-`, `B -> +AF-BFB-FA+`, 90-degree turns.
pub fn hilbert_curve(iterations: u32) -> (r: Vec<u8>)
    ensures
        r@ == fractal_digits(LSystem::Hilbert, iterations as nat),
        turtle_digits_only(r@),
{
    fractal_base12(LSystem::Hilbert, iterations)
}

/// The Peano curve: axiom `F`, `F -> F+F-F-F-F+F+F+F-F`, 90-degree turns.
pub fn peano_curve(iterations: u32) -> (r: Vec<u8>)
    ensures
        r@ == fractal_digits(LSystem::Peano, iterations as nat),
        turtle_digits_only(r@),
{
    fractal_base12(LSystem::Peano, iterations)
}

/// The Gosper flowsnake: axiom `A`, `A -> A-B--B+A++AA+B-`, `B -> +A-BB--B-A++A+B`,
/// 60-degree turns.
pub fn gosper_curve(iterations: u32) -> (r: Vec<u8>)
    ensures
        r@ == fractal_digits(LSystem::Gosper, iterations as nat),
        turtle_digits_only(r@),
{
    fractal_base12(LSystem::Gosper, iterations)
}

} // verus!
