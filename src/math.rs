//! Math sources named by converter strings such as `math.constant.pi`.
use vstd::prelude::*;
use crate::text::{same_chars, text_chars};
use crate::constants::{
    e_base12, e_digits, ln2_base12, ln2_digits, phi_base12, phi_digits, pi_base12, pi_digits,
    sqrt2_base12, sqrt2_digits,
};
use crate::fractals::{
    dragon_curve, fractal_digits, hilbert_curve, koch_snowflake, peano_curve,
    sierpinski_arrowhead, LSystem,
};

verus! {

broadcast use vstd::string::group_string_axioms;

/// Named points of the Mandelbrot set whose orbits are drawn.
#[derive(Clone, Copy, Debug, PartialEq, Eq, Structural)]
pub enum MandelbrotPreset {
    Cardioid,
    Spiral,
    Antenna,
    Period3,
}

/// Named Julia-set parameters whose orbits are drawn.
#[derive(Clone, Copy, Debug, PartialEq, Eq, Structural)]
pub enum JuliaPreset {
    Rabbit,
    Dragon,
    Spiral,
    Siegel,
}

/// A math source: a constant, a fractal, or the orbit of a named complex point.
#[derive(Clone, Copy, Debug, PartialEq, Eq, Structural)]
pub enum MathGenerator {
    Pi,
    E,
    Sqrt2,
    Phi,
    Ln2,
    DragonCurve,
    KochSnowflake,
    SierpinskiArrowhead,
    HilbertCurve,
    PeanoCurve,
    Mandelbrot(MandelbrotPreset),
    Julia(JuliaPreset),
}

/// The rewriting steps each fractal source is drawn with.
pub const DRAGON_ITERATIONS: u32 = 14;

pub const KOCH_ITERATIONS: u32 = 5;

pub const SIERPINSKI_ITERATIONS: u32 = 9;

pub const HILBERT_ITERATIONS: u32 = 6;

pub const PEANO_ITERATIONS: u32 = 4;

/// `s` cut at every `.`: always at least one part.
pub open spec fn split_dots(s: Seq<char>) -> Seq<Seq<char>>
    decreases s.len(),
{
    if s.len() == 0 {
        seq![seq![]]
    } else {
        let p = split_dots(s.drop_last());
        if s.last() == '.' {
            p.push(seq![])
        } else {
            p.update(p.len() - 1, p.last().push(s.last()))
        }
    }
}

proof fn lemma_split_dots_nonempty(s: Seq<char>)
    ensures
        split_dots(s).len() >= 1,
    decreases s.len(),
{
    if s.len() > 0 {
        lemma_split_dots_nonempty(s.drop_last());
    }
}

/// The generator a converter kind and name denote, if any.
pub open spec fn generator_named(kind: Seq<char>, name: Seq<char>) -> Option<MathGenerator> {
    if kind == "constant"@ {
        if name == "pi"@ {
            Some(MathGenerator::Pi)
        } else if name == "e"@ {
            Some(MathGenerator::E)
        } else if name == "sqrt2"@ {
            Some(MathGenerator::Sqrt2)
        } else if name == "phi"@ {
            Some(MathGenerator::Phi)
        } else if name == "ln2"@ {
            Some(MathGenerator::Ln2)
        } else {
            None
        }
    } else if kind == "fractal"@ {
        if name == "dragon"@ {
            Some(MathGenerator::DragonCurve)
        } else if name == "koch"@ {
            Some(MathGenerator::KochSnowflake)
        } else if name == "sierpinski"@ {
            Some(MathGenerator::SierpinskiArrowhead)
        } else if name == "hilbert"@ {
            Some(MathGenerator::HilbertCurve)
        } else if name == "peano"@ {
            Some(MathGenerator::PeanoCurve)
        } else {
            None
        }
    } else if kind == "mandelbrot"@ {
        if name == "cardioid"@ {
            Some(MathGenerator::Mandelbrot(MandelbrotPreset::Cardioid))
        } else if name == "spiral"@ {
            Some(MathGenerator::Mandelbrot(MandelbrotPreset::Spiral))
        } else if name == "antenna"@ {
            Some(MathGenerator::Mandelbrot(MandelbrotPreset::Antenna))
        } else if name == "period3"@ {
            Some(MathGenerator::Mandelbrot(MandelbrotPreset::Period3))
        } else {
            None
        }
    } else if kind == "julia"@ {
        if name == "rabbit"@ {
            Some(MathGenerator::Julia(JuliaPreset::Rabbit))
        } else if name == "dragon"@ {
            Some(MathGenerator::Julia(JuliaPreset::Dragon))
        } else if name == "spiral"@ {
            Some(MathGenerator::Julia(JuliaPreset::Spiral))
        } else if name == "siegel"@ {
            Some(MathGenerator::Julia(JuliaPreset::Siegel))
        } else {
            None
        }
    } else {
        None
    }
}

/// The generator a converter string denotes: `math.<kind>.<name>`, where anything after a
/// third dot is ignored.
pub open spec fn generator_of(s: Seq<char>) -> Option<MathGenerator> {
    let p = split_dots(s);
    if p[0] != "math"@ || p.len() < 3 {
        None
    } else {
        generator_named(p[1], p[2])
    }
}

/// The digits a generator gives for `n` requested digits; `None` for the orbits, whose
/// digits come from floating-point iteration.
pub open spec fn generated(g: MathGenerator, n: nat) -> Option<Seq<u8>> {
    match g {
        MathGenerator::Pi => Some(pi_digits(n)),
        MathGenerator::E => Some(e_digits(n)),
        MathGenerator::Sqrt2 => Some(sqrt2_digits(n)),
        MathGenerator::Phi => Some(phi_digits(n)),
        MathGenerator::Ln2 => Some(ln2_digits(n)),
        MathGenerator::DragonCurve => Some(fractal_digits(LSystem::Dragon, DRAGON_ITERATIONS as nat)),
        MathGenerator::KochSnowflake => Some(fractal_digits(LSystem::Koch, KOCH_ITERATIONS as nat)),
        MathGenerator::SierpinskiArrowhead => Some(
            fractal_digits(LSystem::Sierpinski, SIERPINSKI_ITERATIONS as nat),
        ),
        MathGenerator::HilbertCurve => Some(
            fractal_digits(LSystem::Hilbert, HILBERT_ITERATIONS as nat),
        ),
        MathGenerator::PeanoCurve => Some(fractal_digits(LSystem::Peano, PEANO_ITERATIONS as nat)),
        MathGenerator::Mandelbrot(_) => None,
        MathGenerator::Julia(_) => None,
    }
}

/// The parts of `s` between dots.
fn split_on_dots(s: &str) -> (parts: Vec<Vec<char>>)
    ensures
        parts@.len() == split_dots(s@).len(),
        forall|i: int| 0 <= i < parts@.len() ==> #[trigger] parts@[i]@ == split_dots(s@)[i],
{
    let v = text_chars(s);
    let mut parts: Vec<Vec<char>> = Vec::new();
    let mut cur: Vec<char> = Vec::new();
    let mut i: usize = 0;
    while i < v.len()
        invariant
            v@ == s@,
            i <= v@.len(),
            parts@.len() + 1 == split_dots(s@.take(i as int)).len(),
            forall|k: int| 0 <= k < parts@.len() ==> #[trigger] parts@[k]@ == split_dots(s@.take(i as int))[k],
            cur@ == split_dots(s@.take(i as int)).last(),
        decreases v@.len() - i,
    {
        proof {
            assert(s@.take(i + 1).drop_last() =~= s@.take(i as int));
        }
        if v[i] == '.' {
            parts.push(cur);
            cur = Vec::new();
        } else {
            cur.push(v[i]);
        }
        i = i + 1;
    }
    assert(s@.take(s@.len() as int) =~= s@);
    parts.push(cur);
    parts
}

fn is_word(part: &Vec<char>, word: &str) -> (r: bool)
    ensures
        r == (part@ == word@),
{
    same_chars(part, &text_chars(word))
}

fn named_generator(kind: &Vec<char>, name: &Vec<char>) -> (g: Option<MathGenerator>)
    ensures
        g == generator_named(kind@, name@),
{
    if is_word(kind, "constant") {
        if is_word(name, "pi") {
            Some(MathGenerator::Pi)
        } else if is_word(name, "e") {
            Some(MathGenerator::E)
        } else if is_word(name, "sqrt2") {
            Some(MathGenerator::Sqrt2)
        } else if is_word(name, "phi") {
            Some(MathGenerator::Phi)
        } else if is_word(name, "ln2") {
            Some(MathGenerator::Ln2)
        } else {
            None
        }
    } else if is_word(kind, "fractal") {
        if is_word(name, "dragon") {
            Some(MathGenerator::DragonCurve)
        } else if is_word(name, "koch") {
            Some(MathGenerator::KochSnowflake)
        } else if is_word(name, "sierpinski") {
            Some(MathGenerator::SierpinskiArrowhead)
        } else if is_word(name, "hilbert") {
            Some(MathGenerator::HilbertCurve)
        } else if is_word(name, "peano") {
            Some(MathGenerator::PeanoCurve)
        } else {
            None
        }
    } else if is_word(kind, "mandelbrot") {
        if is_word(name, "cardioid") {
            Some(MathGenerator::Mandelbrot(MandelbrotPreset::Cardioid))
        } else if is_word(name, "spiral") {
            Some(MathGenerator::Mandelbrot(MandelbrotPreset::Spiral))
        } else if is_word(name, "antenna") {
            Some(MathGenerator::Mandelbrot(MandelbrotPreset::Antenna))
        } else if is_word(name, "period3") {
            Some(MathGenerator::Mandelbrot(MandelbrotPreset::Period3))
        } else {
            None
        }
    } else if is_word(kind, "julia") {
        if is_word(name, "rabbit") {
            Some(MathGenerator::Julia(JuliaPreset::Rabbit))
        } else if is_word(name, "dragon") {
            Some(MathGenerator::Julia(JuliaPreset::Dragon))
        } else if is_word(name, "spiral") {
            Some(MathGenerator::Julia(JuliaPreset::Spiral))
        } else if is_word(name, "siegel") {
            Some(MathGenerator::Julia(JuliaPreset::Siegel))
        } else {
            None
        }
    } else {
        None
    }
}

impl MathGenerator {
    /// The generator a converter string such as `math.fractal.dragon` denotes, if any.
    pub fn from_converter_string(s: &str) -> (g: Option<MathGenerator>)
        ensures
            g == generator_of(s@),
    {
        proof {
            lemma_split_dots_nonempty(s@);
        }
        let parts = split_on_dots(s);
        if !is_word(&parts[0], "math") || parts.len() < 3 {
            return None;
        }
        named_generator(&parts[1], &parts[2])
    }

    /// The digits of this generator: `n_digits` digits of a constant, or a fractal at its
    /// fixed depth; `None` for the orbits.
    pub fn generate(&self, n_digits: usize) -> (r: Option<Vec<u8>>)
        ensures
            match generated(*self, n_digits as nat) {
                Some(d) => r matches Some(v) && v@ == d,
                None => r is None,
            },
    {
        match self {
            MathGenerator::Pi => Some(pi_base12(n_digits)),
            MathGenerator::E => Some(e_base12(n_digits)),
            MathGenerator::Sqrt2 => Some(sqrt2_base12(n_digits)),
            MathGenerator::Phi => Some(phi_base12(n_digits)),
            MathGenerator::Ln2 => Some(ln2_base12(n_digits)),
            MathGenerator::DragonCurve => Some(dragon_curve(DRAGON_ITERATIONS)),
            MathGenerator::KochSnowflake => Some(koch_snowflake(KOCH_ITERATIONS)),
            MathGenerator::SierpinskiArrowhead => Some(sierpinski_arrowhead(SIERPINSKI_ITERATIONS)),
            MathGenerator::HilbertCurve => Some(hilbert_curve(HILBERT_ITERATIONS)),
            MathGenerator::PeanoCurve => Some(peano_curve(PEANO_ITERATIONS)),
            MathGenerator::Mandelbrot(_) => None,
            MathGenerator::Julia(_) => None,
        }
    }
}

} // verus!
