//! The tunable parameters that the engine reads once per tick.

use vstd::prelude::*;

verus! {

/// One whole unit of a scale, in thousandths.
pub const SCALE_UNIT: i32 = 1000;

/// What one press of an adjusting key adds or takes away: a tenth.
pub const SCALE_STEP: i32 = 100;

/// A motion probability of one, in millionths.
pub const CERTAIN: u32 = 1_000_000;

/// The parameters of both variants of the engine.
#[derive(Clone, Copy, Debug, PartialEq, Eq, Structural)]
pub struct Params {
    /// Displacement scale, in thousandths of a cell.
    pub displacement: i32,
    /// Rotation scale, in thousandths.
    pub rotation: i32,
    /// Chance that a stone moves at a decision point, in millionths.
    pub motion: u32,
    /// The seed of the static arrangement.
    pub seed: u64,
}


/// Whether `c` is a decimal digit.
pub open spec fn is_digit(c: char) -> bool {
    '0' <= c <= '9'
}

/// The number that a string of decimal digits writes.
pub open spec fn digits_value(s: Seq<char>) -> int
    decreases s.len(),
{
    if s.len() == 0 {
        0
    } else {
        digits_value(s.drop_last()) * 10 + (s.last() as u32 - '0' as u32)
    }
}

/// The digits of seed text: all of it, or all after a leading `+`.
pub open spec fn seed_digits(s: Seq<char>) -> Seq<char> {
    if s.len() > 0 && s[0] == '+' {
        s.drop_first()
    } else {
        s
    }
}

/// The seed that text gives: the number it writes in decimal, or zero where
/// it writes no number that fits in 64 bits.
pub open spec fn seed_of_text(s: Seq<char>) -> u64 {
    let d = seed_digits(s);
    if d.len() > 0 && (forall|i: int| 0 <= i < d.len() ==> is_digit(#[trigger] d[i]))
        && digits_value(d) <= u64::MAX {
        digits_value(d) as u64
    } else {
        0
    }
}

proof fn lemma_digits_value_grows(s: Seq<char>, i: int)
    requires
        0 <= i <= s.len(),
        forall|j: int| 0 <= j < s.len() ==> is_digit(#[trigger] s[j]),
    ensures
        0 <= digits_value(s.subrange(0, i)) <= digits_value(s),
    decreases s.len(),
{
    if s.len() > 0 {
        let t = s.drop_last();
        assert forall|j: int| 0 <= j < t.len() implies is_digit(#[trigger] t[j]) by {
            assert(t[j] == s[j]);
        }
        if i == s.len() {
            assert(s.subrange(0, i) =~= s);
            lemma_digits_value_grows(t, 0);
            assert(t.subrange(0, 0) =~= Seq::<char>::empty());
        } else {
            lemma_digits_value_grows(t, i);
            assert(t.subrange(0, i) =~= s.subrange(0, i));
            lemma_digits_value_grows(t, t.len() as int);
            assert(t.subrange(0, t.len() as int) =~= t);
        }
    }
}

/// Reads seed text: the number it writes in decimal, with an optional
/// leading `+`, or zero for text that is not such a number or does not fit.
pub fn parse_seed(text: &str) -> (r: u64)
    ensures
        r == seed_of_text(text@),
{
    let len = text.unicode_len();
    let mut start: usize = 0;
    if len > 0 && text.get_char(0) == '+' {
        start = 1;
    }
    let ghost d = seed_digits(text@);
    assert(d =~= text@.subrange(start as int, len as int));
    if start == len {
        return 0;
    }
    let mut acc: u64 = 0;
    let mut i: usize = start;
    while i < len
        invariant
            start <= i <= len,
            len == text@.len(),
            d == text@.subrange(start as int, len as int),
            d == seed_digits(text@),
            forall|j: int| 0 <= j < i - start ==> is_digit(#[trigger] d[j]),
            acc == digits_value(d.subrange(0, i - start)),
        decreases len - i,
    {
        let c = text.get_char(i);
        let ghost k = i - start;
        assert(d[k] == c);
        if !('0' <= c && c <= '9') {
            assert(!is_digit(d[k]));
            return 0;
        }
        let digit: u64 = (c as u32 - '0' as u32) as u64;
        assert(d.subrange(0, k + 1).drop_last() =~= d.subrange(0, k));
        if acc > (u64::MAX - digit) / 10 {
            proof {
                let m = u64::MAX - digit;
                vstd::arithmetic::div_mod::lemma_fundamental_div_mod(m as int, 10);
                vstd::arithmetic::div_mod::lemma_mod_pos_bound(m as int, 10);
                assert(acc * 10 + digit > u64::MAX) by (nonlinear_arith)
                    requires
                        acc > m / 10,
                        m == 10 * (m / 10) + m % 10,
                        0 <= m % 10 < 10,
                        m == u64::MAX - digit;
                assert(digits_value(d.subrange(0, k + 1)) > u64::MAX);
                if forall|j: int| 0 <= j < d.len() ==> is_digit(#[trigger] d[j]) {
                    lemma_digits_value_grows(d, k + 1);
                }
            }
            return 0;
        }
        acc = acc * 10 + digit;
        i = i + 1;
    }
    assert(d.subrange(0, len - start) =~= d);
    acc
}

/// The default displacement and rotation scales: one each.
pub const DEFAULT_SCALE: i32 = 1000;

/// The default motion probability: one half.
pub const DEFAULT_MOTION: u32 = 500_000;

impl Params {
    /// The starting parameters: scales of one, an even chance of motion, and
    /// the given seed.
    pub fn new(seed: u64) -> (r: Params)
        ensures
            r == (Params {
                displacement: DEFAULT_SCALE,
                rotation: DEFAULT_SCALE,
                motion: DEFAULT_MOTION,
                seed,
            }),
    {
        Params { displacement: DEFAULT_SCALE, rotation: DEFAULT_SCALE, motion: DEFAULT_MOTION, seed }
    }

    /// Raises the displacement scale by a tenth, stopping at the largest value.
    pub fn raise_displacement(&mut self)
        ensures
            *final(self) == (Params { displacement: raised(old(self).displacement), ..*old(self) }),
    {
        self.displacement = raise(self.displacement);
    }

    /// Lowers a positive displacement scale by a tenth, not below zero.
    pub fn lower_displacement(&mut self)
        ensures
            *final(self) == (Params { displacement: lowered(old(self).displacement), ..*old(self) }),
    {
        self.displacement = lower(self.displacement);
    }

    /// Raises the rotation scale by a tenth, stopping at the largest value.
    pub fn raise_rotation(&mut self)
        ensures
            *final(self) == (Params { rotation: raised(old(self).rotation), ..*old(self) }),
    {
        self.rotation = raise(self.rotation);
    }

    /// Lowers a positive rotation scale by a tenth, not below zero.
    pub fn lower_rotation(&mut self)
        ensures
            *final(self) == (Params { rotation: lowered(old(self).rotation), ..*old(self) }),
    {
        self.rotation = lower(self.rotation);
    }

    /// Takes the seed from text; text that is no seed gives zero.
    pub fn set_seed_text(&mut self, text: &str)
        ensures
            *final(self) == (Params { seed: seed_of_text(text@), ..*old(self) }),
    {
        self.seed = parse_seed(text);
    }

    /// Draws a fresh seed below one million.
    pub fn reseed(&mut self)
        ensures
            final(self).seed < 1_000_000,
            final(self).displacement == old(self).displacement,
            final(self).rotation == old(self).rotation,
            final(self).motion == old(self).motion,
    {
        self.seed = crate::random::random_seed();
    }
}

/// A scale one step up, held at the largest value.
pub open spec fn raised(v: i32) -> i32 {
    if v <= i32::MAX - SCALE_STEP { (v + SCALE_STEP) as i32 } else { i32::MAX }
}

/// A positive scale one step down, not below zero; others unchanged.
pub open spec fn lowered(v: i32) -> i32 {
    if v > SCALE_STEP { (v - SCALE_STEP) as i32 } else if v > 0 { 0 } else { v }
}

fn raise(v: i32) -> (r: i32)
    ensures
        r == raised(v),
{
    if v <= i32::MAX - SCALE_STEP { v + SCALE_STEP } else { i32::MAX }
}

fn lower(v: i32) -> (r: i32)
    ensures
        r == lowered(v),
{
    if v > SCALE_STEP { v - SCALE_STEP } else if v > 0 { 0 } else { v }
}

} // verus!
