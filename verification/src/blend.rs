//! Mixing a foreground and a background colour by a pixel's grade.
use vstd::prelude::*;
use crate::rle::AA_MAX;

verus! {

/// The channel value that `grade` fifteenths of `v1` and the rest of `v2` give,
/// rounded down.
pub open spec fn blended(v1: u8, v2: u8, grade: u8) -> int {
    (v1 * grade + v2 * (15 - grade)) / 15
}

/// Mixes one colour channel: a pixel of grade `grade` out of `AA_MAX` takes
/// that share of `v1` and the rest of `v2`.
pub fn blend(v1: u8, v2: u8, grade: u8) -> (v: u8)
    requires
        grade <= AA_MAX,
    ensures
        v == blended(v1, v2, grade),
        grade == AA_MAX ==> v == v1,
        grade == 0 ==> v == v2,
        v1 <= v2 ==> v1 <= v <= v2,
        v2 <= v1 ==> v2 <= v <= v1,
{
    proof {
        lemma_blended_between(v1, v2, grade);
    }
    let mixed: u16 = v1 as u16 * grade as u16 + v2 as u16 * (AA_MAX - grade) as u16;
    (mixed / AA_MAX as u16) as u8
}

proof fn lemma_blended_between(v1: u8, v2: u8, grade: u8)
    requires
        grade <= 15,
    ensures
        0 <= v1 * grade + v2 * (15 - grade) <= 255 * 15,
        v1 <= v2 ==> v1 <= blended(v1, v2, grade) <= v2,
        v2 <= v1 ==> v2 <= blended(v1, v2, grade) <= v1,
        grade == 15 ==> blended(v1, v2, grade) == v1,
        grade == 0 ==> blended(v1, v2, grade) == v2,
{
    let s = v1 * grade + v2 * (15 - grade);
    assert(0 <= s <= 255 * 15) by (nonlinear_arith)
        requires
            grade <= 15,
            s == v1 * grade + v2 * (15 - grade),
            v1 <= 255,
            v2 <= 255,
    ;
    if grade == 15 {
        assert(s == 15 * v1) by (nonlinear_arith)
            requires
                grade == 15,
                s == v1 * grade + v2 * (15 - grade),
        ;
    }
    if grade == 0 {
        assert(s == 15 * v2) by (nonlinear_arith)
            requires
                grade == 0,
                s == v1 * grade + v2 * (15 - grade),
        ;
    }
    if v1 <= v2 {
        assert(15 * v1 <= s <= 15 * v2) by (nonlinear_arith)
            requires
                grade <= 15,
                v1 <= v2,
                s == v1 * grade + v2 * (15 - grade),
        ;
    } else {
        assert(15 * v2 <= s <= 15 * v1) by (nonlinear_arith)
            requires
                grade <= 15,
                v2 <= v1,
                s == v1 * grade + v2 * (15 - grade),
        ;
    }
}

/// Mixing with grade `g` is mixing the other way round with the complementary grade.
pub proof fn lemma_blend_symmetric(v1: u8, v2: u8, grade: u8)
    requires
        grade <= 15,
    ensures
        blended(v1, v2, grade) == blended(v2, v1, (15 - grade) as u8),
{
}

/// The channels of a colour, each in the range of its colour type.
#[derive(Debug, Clone, Copy, PartialEq, Eq, Structural)]
pub struct Rgb {
    pub r: u8,
    pub g: u8,
    pub b: u8,
}

/// Mixes the three channels of two colours by the same grade.
pub fn rgb_blend(c1: &Rgb, c2: &Rgb, grade: u8) -> (c: Rgb)
    requires
        grade <= AA_MAX,
    ensures
        c.r == blended(c1.r, c2.r, grade),
        c.g == blended(c1.g, c2.g, grade),
        c.b == blended(c1.b, c2.b, grade),
{
    Rgb { r: blend(c1.r, c2.r, grade), g: blend(c1.g, c2.g, grade), b: blend(c1.b, c2.b, grade) }
}

/// A style that draws glyphs in a foreground colour over a background colour,
/// mixing the two on antialiased edges.
#[derive(Debug, Clone, Copy, PartialEq, Eq)]
pub struct TwoColor<C> {
    pub foreground: C,
    pub background: C,
}

impl<C: Copy> TwoColor<C> {
    /// The colour that fills around glyphs: the background.
    pub fn background_color(&self) -> (c: Option<C>)
        ensures
            c == Some(self.background),
    {
        Some(self.background)
    }
}

impl TwoColor<Rgb> {
    /// The colour of a pixel of grade `grade`.
    pub fn map_color(&self, grade: u8) -> (c: Rgb)
        requires
            grade <= AA_MAX,
        ensures
            c.r == blended(self.foreground.r, self.background.r, grade),
            c.g == blended(self.foreground.g, self.background.g, grade),
            c.b == blended(self.foreground.b, self.background.b, grade),
    {
        rgb_blend(&self.foreground, &self.background, grade)
    }
}

} // verus!
