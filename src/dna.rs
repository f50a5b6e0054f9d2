//! Nucleotide sequences to digits.
//!
//! Each recognised base (A, C, G, T in either case) is a base-4 symbol 0..3; anything else
//! is skipped. For base-12 output the symbols are packed in chunks of five, the first symbol
//! least significant (5 symbols < 4^5 = 1024), and each chunk's value is written in base 12,
//! least significant digit first; a chunk of value zero writes nothing. A sequence that
//! packs to nothing gives the single digit 0.
use vstd::prelude::*;
use crate::text::text_chars;
use crate::converters::ConvertError;
use crate::all_base12;

verus! {

broadcast use vstd::string::group_string_axioms;

/// How many base-4 symbols make one chunk.
pub const CHUNK: usize = 5;

/// The base-4 symbol of a nucleotide character, if it is one.
pub open spec fn base4_of(c: char) -> Option<u8> {
    if c == 'A' || c == 'a' {
        Some(0u8)
    } else if c == 'C' || c == 'c' {
        Some(1u8)
    } else if c == 'G' || c == 'g' {
        Some(2u8)
    } else if c == 'T' || c == 't' {
        Some(3u8)
    } else {
        None
    }
}

/// The base-4 symbols of the nucleotides in `s`, in order; other characters are skipped.
pub open spec fn nucleotides(s: Seq<char>) -> Seq<u8>
    decreases s.len(),
{
    if s.len() == 0 {
        seq![]
    } else {
        nucleotides(s.drop_last()) + match base4_of(s.last()) {
            Some(d) => seq![d],
            None => seq![],
        }
    }
}

/// A chunk of base-4 symbols read as a number, first symbol least significant.
pub open spec fn chunk_value(c: Seq<u8>) -> nat
    decreases c.len(),
{
    if c.len() == 0 {
        0
    } else {
        c[0] as nat + 4 * chunk_value(c.drop_first())
    }
}

/// The base-12 digits of `v`, least significant first; none for zero.
pub open spec fn base12_digits(v: nat) -> Seq<u8>
    decreases v,
{
    if v == 0 {
        seq![]
    } else {
        seq![(v % 12) as u8] + base12_digits(v / 12)
    }
}

/// The base-12 digits of the symbols `ns`, chunk by chunk.
pub open spec fn packed(ns: Seq<u8>) -> Seq<u8>
    decreases ns.len(),
{
    if ns.len() <= CHUNK {
        base12_digits(chunk_value(ns))
    } else {
        base12_digits(chunk_value(ns.take(CHUNK as int))) + packed(ns.skip(CHUNK as int))
    }
}

/// `packed(ns)`, or the single digit 0 when that is empty.
pub open spec fn packed_or_zero(ns: Seq<u8>) -> Seq<u8> {
    if packed(ns).len() == 0 {
        seq![0u8]
    } else {
        packed(ns)
    }
}

/// What `convert_dna` gives for the text `s`.
pub open spec fn dna_digits(s: Seq<char>) -> Seq<u8> {
    packed_or_zero(nucleotides(s))
}

proof fn lemma_base12_digits_valid(v: nat)
    ensures
        all_base12(base12_digits(v)),
    decreases v,
{
    if v > 0 {
        lemma_base12_digits_valid(v / 12);
        let t = base12_digits(v / 12);
        assert forall|i: int| 0 <= i < (seq![(v % 12) as u8] + t).len() implies #[trigger] (seq![
            (v % 12) as u8,
        ] + t)[i] < 12 by {
            if i > 0 {
                assert((seq![(v % 12) as u8] + t)[i] == t[i - 1]);
            }
        }
    }
}

proof fn lemma_packed_valid(ns: Seq<u8>)
    ensures
        all_base12(packed(ns)),
    decreases ns.len(),
{
    if ns.len() <= CHUNK {
        lemma_base12_digits_valid(chunk_value(ns));
    } else {
        let a = base12_digits(chunk_value(ns.take(CHUNK as int)));
        let b = packed(ns.skip(CHUNK as int));
        lemma_base12_digits_valid(chunk_value(ns.take(CHUNK as int)));
        lemma_packed_valid(ns.skip(CHUNK as int));
        assert forall|i: int| 0 <= i < (a + b).len() implies #[trigger] (a + b)[i] < 12 by {
            if i >= a.len() {
                assert((a + b)[i] == b[i - a.len()]);
            }
        }
    }
}

proof fn lemma_chunk_value_bound(c: Seq<u8>)
    requires
        forall|i: int| 0 <= i < c.len() ==> #[trigger] c[i] < 4,
    ensures
        chunk_value(c) < vstd::arithmetic::power::pow(4, c.len()),
    decreases c.len(),
{
    vstd::arithmetic::power::lemma_pow_positive(4, c.len());
    if c.len() > 0 {
        let t = c.drop_first();
        assert forall|i: int| 0 <= i < t.len() implies #[trigger] t[i] < 4 by {
            assert(t[i] == c[i + 1]);
        }
        lemma_chunk_value_bound(t);
        vstd::arithmetic::power::lemma_pow_adds(4, 1, t.len());
        vstd::arithmetic::power::lemma_pow1(4);
    }
}

/// The base-4 symbol of `c`, or 4 when `c` is no nucleotide.
fn base4_symbol(c: char) -> (d: u8)
    ensures
        match base4_of(c) {
            Some(v) => d == v,
            None => d == 4,
        },
{
    if c == 'A' || c == 'a' {
        0
    } else if c == 'C' || c == 'c' {
        1
    } else if c == 'G' || c == 'g' {
        2
    } else if c == 'T' || c == 't' {
        3
    } else {
        4
    }
}

/// Appends the base-12 digits of `v` to `out`.
fn push_base12_digits(out: &mut Vec<u8>, v: u64)
    ensures
        final(out)@ == old(out)@ + base12_digits(v as nat),
{
    let ghost v0 = v;
    let mut v = v;
    while v > 0
        invariant
            out@ + base12_digits(v as nat) == old(out)@ + base12_digits(v0 as nat),
        decreases v,
    {
        let ghost before = out@;
        out.push((v % 12) as u8);
        proof {
            assert(out@ + base12_digits((v / 12) as nat) =~= before + base12_digits(v as nat));
        }
        v = v / 12;
    }
    assert(out@ =~= out@ + base12_digits(v as nat));
}

/// Packs base-4 symbols into base-12 digits, chunk by chunk, without the fallback.
fn pack_symbols(ns: &Vec<u8>) -> (r: Vec<u8>)
    requires
        forall|i: int| 0 <= i < ns@.len() ==> #[trigger] ns@[i] < 4,
    ensures
        r@ == packed(ns@),
{
    let mut r: Vec<u8> = Vec::new();
    let mut start: usize = 0;
    assert(ns@.skip(0) =~= ns@);
    assert(r@ + packed(ns@) =~= packed(ns@));
    loop
        invariant
            forall|i: int| 0 <= i < ns@.len() ==> #[trigger] ns@[i] < 4,
            start <= ns@.len(),
            r@ + packed(ns@.skip(start as int)) == packed(ns@),
        decreases ns@.len() - start,
    {
        let rest = ns.len() - start;
        let end: usize = if rest <= CHUNK { ns.len() } else { start + CHUNK };
        let ghost chunk = ns@.subrange(start as int, end as int);
        let mut v: u64 = 0;
        let mut t: usize = end;
        while t > start
            invariant
                forall|i: int| 0 <= i < ns@.len() ==> #[trigger] ns@[i] < 4,
                start <= t <= end,
                end - start <= CHUNK,
                end <= ns@.len(),
                v == chunk_value(ns@.subrange(t as int, end as int)),
            decreases t - start,
        {
            let ghost c = ns@.subrange(t - 1, end as int);
            proof {
                assert(c.drop_first() =~= ns@.subrange(t as int, end as int));
                assert forall|i: int| 0 <= i < c.len() implies #[trigger] c[i] < 4 by {
                    assert(c[i] == ns@[t - 1 + i]);
                }
                lemma_chunk_value_bound(c);
                vstd::arithmetic::power::lemma_pow_increases(4, c.len(), 5);
                reveal_with_fuel(vstd::arithmetic::power::pow, 6);
                assert(vstd::arithmetic::power::pow(4, 5) == 1024);
                assert(c[0] == ns@[t - 1]);
            }
            v = ns[t - 1] as u64 + 4 * v;
            t = t - 1;
        }
        let ghost rest_seq = ns@.skip(start as int);
        push_base12_digits(&mut r, v);
        if rest <= CHUNK {
            proof {
                assert(chunk =~= rest_seq);
                assert(ns@.skip(ns@.len() as int) =~= seq![]);
                assert(packed(ns@.skip(ns@.len() as int)) =~= seq![]);
            }
            start = ns.len();
            assert(r@ =~= packed(ns@));
            return r;
        }
        proof {
            assert(rest_seq.take(CHUNK as int) =~= chunk);
            assert(rest_seq.skip(CHUNK as int) =~= ns@.skip(end as int));
        }
        start = end;
    }
}

/// The base-4 symbols of the nucleotides in `s`.
fn nucleotide_symbols(s: &str) -> (ns: Vec<u8>)
    ensures
        ns@ == nucleotides(s@),
        forall|i: int| 0 <= i < ns@.len() ==> #[trigger] ns@[i] < 4,
{
    let v = text_chars(s);
    let mut ns: Vec<u8> = Vec::new();
    let mut i: usize = 0;
    while i < v.len()
        invariant
            v@ == s@,
            i <= v@.len(),
            ns@ == nucleotides(s@.take(i as int)),
            forall|j: int| 0 <= j < ns@.len() ==> #[trigger] ns@[j] < 4,
        decreases v@.len() - i,
    {
        let d = base4_symbol(v[i]);
        if d < 4 {
            ns.push(d);
        }
        proof {
            assert(s@.take(i + 1).drop_last() =~= s@.take(i as int));
        }
        i = i + 1;
    }
    assert(s@.take(s@.len() as int) =~= s@);
    ns
}

/// Packs base-4 symbols into base-12 digits, with the single digit 0 when nothing results.
fn pack_or_zero(ns: &Vec<u8>) -> (r: Vec<u8>)
    requires
        forall|i: int| 0 <= i < ns@.len() ==> #[trigger] ns@[i] < 4,
    ensures
        r@ == packed_or_zero(ns@),
        r@.len() >= 1,
        all_base12(r@),
{
    proof {
        lemma_packed_valid(ns@);
    }
    let mut r = pack_symbols(ns);
    if r.len() == 0 {
        r.push(0);
    }
    r
}

/// Converts a nucleotide text to base-12 digits; never empty, and every digit below 12.
pub fn convert_dna(sequence: &str) -> (r: Vec<u8>)
    ensures
        r@ == dna_digits(sequence@),
        r@.len() >= 1,
        all_base12(r@),
{
    let ns = nucleotide_symbols(sequence);
    pack_or_zero(&ns)
}

/// Converts a nucleotide text to base-4 digits, one per nucleotide; the single digit 0 when
/// there is none.
pub fn convert_dna_base4(sequence: &str) -> (r: Vec<u8>)
    ensures
        r@ == (if nucleotides(sequence@).len() == 0 {
            seq![0u8]
        } else {
            nucleotides(sequence@)
        }),
{
    let mut ns = nucleotide_symbols(sequence);
    if ns.len() == 0 {
        ns.push(0);
    }
    ns
}

/// The base-4 symbols of the nucleotides of `s` that stand outside header lines (lines
/// whose first character is `>`). `header` says whether the current line is a header, and
/// `line_start` whether none of its characters has been read yet.
pub open spec fn fasta_scan(s: Seq<char>, header: bool, line_start: bool) -> Seq<u8>
    decreases s.len(),
{
    if s.len() == 0 {
        seq![]
    } else if s[0] == '\n' {
        fasta_scan(s.drop_first(), false, true)
    } else {
        let h = if line_start {
            s[0] == '>'
        } else {
            header
        };
        let here = if !h && base4_of(s[0]) is Some {
            seq![base4_of(s[0])->0]
        } else {
            seq![]
        };
        here + fasta_scan(s.drop_first(), h, false)
    }
}

/// The base-4 symbols of the sequence lines of a FASTA text.
pub open spec fn fasta_bases(s: Seq<char>) -> Seq<u8> {
    fasta_scan(s, false, true)
}

proof fn lemma_nucleotides_concat(a: Seq<char>, b: Seq<char>)
    ensures
        nucleotides(a + b) == nucleotides(a) + nucleotides(b),
    decreases b.len(),
{
    if b.len() == 0 {
        assert(a + b =~= a);
        assert(nucleotides(a) + nucleotides(b) =~= nucleotides(a));
    } else {
        assert((a + b).drop_last() =~= a + b.drop_last());
        lemma_nucleotides_concat(a, b.drop_last());
        let tail = match base4_of(b.last()) {
            Some(d) => seq![d],
            None => seq![],
        };
        assert(nucleotides(a) + nucleotides(b.drop_last()) + tail =~= nucleotides(a) + (
        nucleotides(b.drop_last()) + tail));
    }
}

/// A character that is no nucleotide contributes nothing: inserting one anywhere in a text
/// leaves its digits unchanged.
pub proof fn lemma_unrecognised_skipped(a: Seq<char>, c: char, b: Seq<char>)
    requires
        base4_of(c) is None,
    ensures
        dna_digits(a + seq![c] + b) == dna_digits(a + b),
{
    lemma_nucleotides_concat(a + seq![c], b);
    lemma_nucleotides_concat(a, seq![c]);
    lemma_nucleotides_concat(a, b);
    let e = seq![c];
    assert(e.len() == 1 && e.last() == c);
    assert(e.drop_last() =~= Seq::<char>::empty());
    assert(nucleotides(Seq::<char>::empty()) =~= Seq::<u8>::empty());
    assert(nucleotides(e) == nucleotides(e.drop_last()) + Seq::<u8>::empty());
    assert(nucleotides(e) =~= Seq::<u8>::empty());
    assert(nucleotides(a) + nucleotides(seq![c]) =~= nucleotides(a));
}

/// Every entry of `d` is a base-4 symbol.
pub open spec fn all_base4(d: Seq<u8>) -> bool {
    forall|i: int| 0 <= i < d.len() ==> #[trigger] d[i] < 4
}

proof fn lemma_fasta_scan_symbols(s: Seq<char>, header: bool, line_start: bool)
    ensures
        all_base4(fasta_scan(s, header, line_start)),
    decreases s.len(),
{
    if s.len() > 0 {
        if s[0] == '\n' {
            lemma_fasta_scan_symbols(s.drop_first(), false, true);
            assert(fasta_scan(s, header, line_start) == fasta_scan(s.drop_first(), false, true));
        } else {
            let h = if line_start {
                s[0] == '>'
            } else {
                header
            };
            lemma_fasta_scan_symbols(s.drop_first(), h, false);
            let here = if !h && base4_of(s[0]) is Some {
                seq![base4_of(s[0])->0]
            } else {
                seq![]
            };
            let rest = fasta_scan(s.drop_first(), h, false);
            assert(fasta_scan(s, header, line_start) == here + rest);
            assert forall|i: int| 0 <= i < (here + rest).len() implies #[trigger] (here + rest)[i]
                < 4 by {
                if i >= here.len() {
                    assert((here + rest)[i] == rest[i - here.len()]);
                } else {
                    assert((here + rest)[i] == base4_of(s[0])->0);
                }
            }
        }
    }
}

/// The base-4 symbols of the sequence lines of the FASTA text `fasta`.
fn fasta_symbols(fasta: &str) -> (ns: Vec<u8>)
    ensures
        ns@ == fasta_bases(fasta@),
        forall|i: int| 0 <= i < ns@.len() ==> #[trigger] ns@[i] < 4,
{
    let v = text_chars(fasta);
    let mut ns: Vec<u8> = Vec::new();
    let mut header = false;
    let mut line_start = true;
    let mut i: usize = 0;
    assert(v@.skip(0) =~= v@);
    assert(ns@ + fasta_bases(fasta@) =~= fasta_bases(fasta@));
    while i < v.len()
        invariant
            v@ == fasta@,
            i <= v@.len(),
            ns@ + fasta_scan(v@.skip(i as int), header, line_start) == fasta_bases(fasta@),
        decreases v@.len() - i,
    {
        let c = v[i];
        let ghost rest = v@.skip(i as int);
        let ghost h0 = header;
        let ghost ls0 = line_start;
        let ghost before = ns@;
        assert(rest.drop_first() =~= v@.skip(i + 1));
        assert(rest[0] == c);
        if c == '\n' {
            header = false;
            line_start = true;
        } else {
            if line_start {
                header = c == '>';
            }
            line_start = false;
            let d = base4_symbol(c);
            if !header && d < 4 {
                ns.push(d);
            }
        }
        assert(ns@ + fasta_scan(v@.skip(i + 1), header, line_start) =~= before + fasta_scan(
            rest,
            h0,
            ls0,
        ));
        i = i + 1;
    }
    proof {
        assert(v@.skip(i as int) =~= seq![]);
        assert(ns@ =~= fasta_bases(fasta@));
        lemma_fasta_scan_symbols(fasta@, false, true);
        assert(all_base4(ns@));
    }
    ns
}

/// The digits of a FASTA text in base 4 (one per nucleotide) or, for any other `base`,
/// packed in base 12. A text without a single nucleotide outside its header lines cannot
/// be converted.
pub fn fasta_to_digits(fasta: &str, base: u32) -> (r: Result<Vec<u8>, ConvertError>)
    ensures
        match r {
            Ok(d) => {
                &&& fasta_bases(fasta@).len() > 0
                &&& d@ == if base == 4 {
                    fasta_bases(fasta@)
                } else {
                    packed_or_zero(fasta_bases(fasta@))
                }
            },
            Err(e) => fasta_bases(fasta@).len() == 0 && e is ConversionFailed,
        },
{
    let ns = fasta_symbols(fasta);
    if ns.len() == 0 {
        return Err(ConvertError::ConversionFailed(String::from_str("No sequence data found in FASTA")));
    }
    if base == 4 {
        Ok(ns)
    } else {
        Ok(pack_or_zero(&ns))
    }
}

/// The base-12 digits of a FASTA text; fails when it holds no nucleotide outside its
/// header lines.
pub fn fasta_to_base12(fasta: &str) -> (r: Result<Vec<u8>, ConvertError>)
    ensures
        match r {
            Ok(d) => {
                &&& fasta_bases(fasta@).len() > 0
                &&& d@ == packed_or_zero(fasta_bases(fasta@))
                &&& all_base12(d@)
            },
            Err(e) => fasta_bases(fasta@).len() == 0 && e is ConversionFailed,
        },
{
    proof {
        lemma_fasta_scan_symbols(fasta@, false, true);
        lemma_packed_valid(fasta_bases(fasta@));
    }
    fasta_to_digits(fasta, 12)
}

} // verus!
