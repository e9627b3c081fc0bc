//! Run-length coding of antialiased glyph bitmaps.
//!
//! Every pixel of a glyph has a grade `g` between 0 (empty) and `max`
//! (fully covered). A pixel is seen as `max` units of coverage: `g` covered
//! units and `max - g` uncovered ones. The packed form is the sequence of the
//! lengths of the alternating runs of uncovered and covered units, starting
//! with an uncovered run. Inside a pixel, the units of the run that is going
//! on come first. A run longer than 255 units is cut: its first part is
//! followed by an empty run of the other kind.
use vstd::prelude::*;

verus! {

/// Number of bits of antialiasing kept per pixel.
pub const AA_BITS: u8 = 4;

/// Grade of a fully covered pixel with `AA_BITS` bits.
pub const AA_MAX: u8 = 15;

/// The largest grade that `bits` bits hold.
pub open spec fn grade_max(bits: u8) -> u8 {
    255u8 >> ((8 - bits) as u8)
}

/// The grade, out of `bits` bits, of an 8-bit alpha value: its top `bits` bits.
pub open spec fn grade(alpha: u8, bits: u8) -> u8 {
    alpha >> ((8 - bits) as u8)
}

/// All alpha values of a bitmap, reduced to their grades.
pub open spec fn quantize(alpha: Seq<u8>, bits: u8) -> Seq<u8> {
    alpha.map_values(|a: u8| grade(a, bits))
}

/// The uncovered or covered units that a pixel of grade `g` adds to the run
/// that is going on.
pub open spec fn run_units(covered: bool, g: int, max: int) -> int {
    if covered {
        g
    } else {
        max - g
    }
}

/// The bytes that the packer emits for the grades `q`, when the run going on
/// is covered (`covered`) and holds `count` units so far; the run still going
/// on at the end is emitted unless it is empty.
pub open spec fn encode(q: Seq<u8>, covered: bool, count: int, max: int) -> Seq<u8>
    decreases q.len(),
{
    if q.len() == 0 {
        if count > 0 {
            seq![count as u8]
        } else {
            seq![]
        }
    } else {
        let a = run_units(covered, q[0] as int, max);
        if count + a > 255 {
            seq![count as u8, 0u8] + encode_pixel(q, covered, a, max)
        } else {
            encode_pixel(q, covered, count + a, max)
        }
    }
}

/// Emission after the units of the pixel `q[0]` that belong to the run going
/// on were added to it, giving `count`: a partly filled pixel closes the run.
pub open spec fn encode_pixel(q: Seq<u8>, covered: bool, count: int, max: int) -> Seq<u8>
    recommends
        q.len() > 0,
    decreases q.len(), 0int,
{
    if q.len() == 0 {
        seq![]
    } else {
        let a = run_units(covered, q[0] as int, max);
        if a < max {
            seq![count as u8] + encode(q.drop_first(), !covered, max - a, max)
        } else {
            encode(q.drop_first(), covered, count, max)
        }
    }
}

/// The packed form of a bitmap of 8-bit alpha values, with `bits` bits per grade.
pub open spec fn packed_bitmap(alpha: Seq<u8>, bits: u8) -> Seq<u8> {
    encode(quantize(alpha, bits), false, 0, grade_max(bits) as int)
}

/// Sum of a sequence of bytes.
pub open spec fn byte_sum(s: Seq<u8>) -> int
    decreases s.len(),
{
    if s.len() == 0 {
        0
    } else {
        s[0] + byte_sum(s.drop_first())
    }
}

/// The grade of a pixel whose `units` first units belong to a run that is
/// covered (`covered`) or not.
pub open spec fn pixel_grade(covered: bool, units: int) -> u8 {
    if covered {
        units as u8
    } else {
        (15 - units) as u8
    }
}

/// The grades that the unpacker yields from the bytes `s` still to read, when
/// the run going on is covered (`covered`) and `count` of its units are still
/// to be yielded (a count of zero or less means that the next run is read).
pub open spec fn unpack_from(s: Seq<u8>, covered: bool, count: int) -> Seq<u8>
    decreases s.len(), (if count > 0 { count } else { 0 }),
{
    if count > 0 {
        let units = if count < 15 { count } else { 15 };
        seq![pixel_grade(covered, units)] + unpack_from(s, covered, count - 15)
    } else if s.len() == 0 {
        seq![]
    } else {
        unpack_from(s.drop_first(), !covered, count + s[0])
    }
}

/// All grades that a packed bitmap unpacks to.
pub open spec fn unpacked(packed: Seq<u8>) -> Seq<u8> {
    unpack_from(packed, true, 0)
}

proof fn lemma_shift_bounds(b: u8, s: u8)
    requires
        s <= 7,
    ensures
        (b >> s) <= (255u8 >> s),
        1 <= (255u8 >> s),
{
    assert((b >> s) <= (255u8 >> s)) by (bit_vector)
        requires
            s <= 7,
    ;
    assert(1 <= (255u8 >> s)) by (bit_vector)
        requires
            s <= 7,
    ;
}

proof fn lemma_encode_sum(q: Seq<u8>, covered: bool, count: int, max: int)
    requires
        0 <= count <= 255,
        1 <= max <= 255,
        forall|i: int| 0 <= i < q.len() ==> q[i] <= max,
    ensures
        byte_sum(encode(q, covered, count, max)) == count + max * q.len(),
    decreases q.len(),
{
    reveal_with_fuel(byte_sum, 3);
    if q.len() == 0 {
    } else {
        let a = run_units(covered, q[0] as int, max);
        let rest = q.drop_first();
        assert forall|i: int| 0 <= i < rest.len() implies rest[i] <= max by {
            assert(rest[i] == q[i + 1]);
        }
        assert(max * q.len() == max + max * rest.len()) by (nonlinear_arith)
            requires
                q.len() == rest.len() + 1,
        ;
        let c1 = if count + a > 255 { a } else { count + a };
        if a < max {
            lemma_encode_sum(rest, !covered, max - a, max);
            let tail = encode(rest, !covered, max - a, max);
            assert(byte_sum(seq![c1 as u8] + tail) == c1 + byte_sum(tail)) by {
                assert((seq![c1 as u8] + tail).drop_first() =~= tail);
            }
        } else {
            lemma_encode_sum(rest, covered, c1, max);
        }
        if count + a > 255 {
            let tail = encode_pixel(q, covered, a, max);
            assert(byte_sum(seq![count as u8, 0u8] + tail) == count + byte_sum(tail)) by {
                assert((seq![count as u8, 0u8] + tail).drop_first() =~= seq![0u8] + tail);
                assert((seq![0u8] + tail).drop_first() =~= tail);
            }
        }
    }
}

/// Packs a bitmap of 8-bit alpha values, keeping the top `bits` bits of each.
pub fn compress(data: Vec<u8>, bits: u8) -> (out: Vec<u8>)
    requires
        1 <= bits <= 8,
    ensures
        out@ == packed_bitmap(data@, bits),
        byte_sum(out@) == data.len() * grade_max(bits),
{
    let shift: u8 = 8 - bits;
    let max: u8 = 255u8 >> shift;
    let ghost q = quantize(data@, bits);
    proof {
        lemma_shift_bounds(0, shift);
        assert forall|i: int| 0 <= i < q.len() implies q[i] <= max by {
            lemma_shift_bounds(data@[i], shift);
        }
        lemma_encode_sum(q, false, 0, max as int);
        assert(q.skip(0) =~= q);
    }
    let mut out: Vec<u8> = Vec::new();
    let mut covered = false;
    let mut count: u32 = 0;
    let mut i: usize = 0;
    while i < data.len()
        invariant
            0 <= i <= data.len(),
            shift == 8 - bits,
            1 <= bits <= 8,
            max == grade_max(bits),
            1 <= max,
            q == quantize(data@, bits),
            count <= 255,
            out@ + encode(q.skip(i as int), covered, count as int, max as int) == encode(
                q,
                false,
                0,
                max as int,
            ),
        decreases data.len() - i,
    {
        let byte = data[i] >> shift;
        proof {
            lemma_shift_bounds(data@[i as int], shift);
        }
        let addition: u8 = if covered {
            byte
        } else {
            max - byte
        };
        let ghost rest = q.skip(i as int);
        let ghost before = out@;
        let ghost c0 = count as int;
        let ghost cov0 = covered;
        assert(rest[0] == byte);
        assert(rest.drop_first() =~= q.skip(i + 1));
        if count + addition as u32 > 255 {
            out.push(count as u8);
            out.push(0);
            count = 0;
        }
        count += addition as u32;
        if addition < max {
            out.push(count as u8);
            count = (max - addition) as u32;
            covered = !covered;
        }
        proof {
            let tail = encode(q.skip(i + 1), covered, count as int, max as int);
            assert(encode(rest, cov0, c0, max as int) =~= out@.subrange(
                before.len() as int,
                out@.len() as int,
            ) + tail);
            assert(out@ =~= before + out@.subrange(before.len() as int, out@.len() as int));
        }
        i += 1;
    }
    if count > 0 {
        out.push(count as u8);
    }
    proof {
        assert(q.skip(i as int) =~= Seq::<u8>::empty());
    }
    out
}

/// Yields, one by one, the grades of the pixels of a packed bitmap.
pub struct Unpacker<'a> {
    packed: &'a [u8],
    pos: usize,
    covered: bool,
    count: i16,
}

impl<'a> Unpacker<'a> {
    /// The state is consistent: the read position lies within the input and
    /// the units still pending stay within what one run can leave.
    pub closed spec fn wf(&self) -> bool {
        &&& self.pos <= self.packed@.len()
        &&& -15 <= self.count <= 255
    }

    /// The grades still to be yielded.
    pub closed spec fn remaining(&self) -> Seq<u8> {
        unpack_from(self.packed@.skip(self.pos as int), self.covered, self.count as int)
    }

    /// The packed bytes that are read.
    pub closed spec fn source(&self) -> Seq<u8> {
        self.packed@
    }

    /// Starts unpacking `packed`: the length of the first (uncovered) run is read.
    pub fn new(packed: &'a [u8]) -> (u: Self)
        ensures
            u.wf(),
            u.source() == packed@,
            u.remaining() == unpacked(packed@),
    {
        if packed.len() > 0 {
            let count = packed[0] as i16;
            let u = Unpacker { packed, pos: 1, covered: false, count };
            assert(packed@.skip(1) =~= packed@.drop_first());
            u
        } else {
            Unpacker { packed, pos: 0, covered: false, count: 0 }
        }
    }

    /// The grade of the next pixel, or `None` once all were yielded.
    pub fn next(&mut self) -> (r: Option<u8>)
        requires
            old(self).wf(),
        ensures
            final(self).wf(),
            final(self).source() == old(self).source(),
            old(self).remaining().len() == 0 ==> r is None && final(self).remaining().len() == 0,
            old(self).remaining().len() > 0 ==> r == Some(old(self).remaining()[0])
                && final(self).remaining() == old(self).remaining().drop_first(),
            r matches Some(g) ==> g <= AA_MAX,
    {
        loop
            invariant
                self.wf(),
                self.source() == old(self).source(),
                self.remaining() == old(self).remaining(),
            decreases self.packed@.len() - self.pos,
        {
            if self.count > 0 {
                let units: u8 = if self.count < AA_MAX as i16 {
                    self.count as u8
                } else {
                    AA_MAX
                };
                self.count = self.count - AA_MAX as i16;
                let g = if self.covered {
                    units
                } else {
                    AA_MAX - units
                };
                return Some(g);
            } else {
                self.covered = !self.covered;
                if self.pos >= self.packed.len() {
                    return None;
                }
                let c = self.packed[self.pos];
                proof {
                    let s = self.packed@.skip(self.pos as int);
                    assert(s.drop_first() =~= self.packed@.skip(self.pos + 1));
                }
                self.pos = self.pos + 1;
                self.count = self.count + c as i16;
            }
        }
    }
}

/// Every grade that unpacking yields, from any bytes, is at most `AA_MAX`.
pub proof fn lemma_unpacked_grades_bounded(s: Seq<u8>, covered: bool, count: int)
    ensures
        forall|i: int| 0 <= i < unpack_from(s, covered, count).len() ==> #[trigger] unpack_from(
            s,
            covered,
            count,
        )[i] <= AA_MAX,
    decreases s.len(), (if count > 0 { count } else { 0 }),
{
    if count > 0 {
        lemma_unpacked_grades_bounded(s, covered, count - 15);
        let units = if count < 15 { count } else { 15 };
        let rest = unpack_from(s, covered, count - 15);
        assert(unpack_from(s, covered, count) == seq![pixel_grade(covered, units)] + rest);
        assert(pixel_grade(covered, units) <= AA_MAX);
        assert forall|i: int| 0 <= i < unpack_from(s, covered, count).len() implies #[trigger] unpack_from(
            s,
            covered,
            count,
        )[i] <= AA_MAX by {
            if i > 0 {
                assert(unpack_from(s, covered, count)[i] == rest[i - 1]);
            } else {
                assert(unpack_from(s, covered, count)[i] == pixel_grade(covered, units));
            }
        }
    } else if s.len() > 0 {
        lemma_unpacked_grades_bounded(s.drop_first(), !covered, count + s[0]);
        assert(unpack_from(s, covered, count) == unpack_from(s.drop_first(), !covered, count + s[0]));
    } else {
        assert(unpack_from(s, covered, count).len() == 0);
    }
}

/// Unpacks a whole packed bitmap.
pub fn unpack_all(packed: &[u8]) -> (grades: Vec<u8>)
    ensures
        grades@ == unpacked(packed@),
{
    let mut u = Unpacker::new(packed);
    let mut grades: Vec<u8> = Vec::new();
    loop
        invariant
            u.wf(),
            grades@ + u.remaining() == unpacked(packed@),
        decreases u.remaining().len(),
    {
        let ghost before = u.remaining();
        match u.next() {
            Some(g) => {
                grades.push(g);
                assert(grades@ + u.remaining() =~= grades@.drop_last() + before);
            },
            None => {
                assert(grades@ + u.remaining() =~= grades@);
                return grades;
            },
        }
    }
}

/// `k` fully covered (or fully empty) pixels.
pub open spec fn full_pixels(covered: bool, k: int) -> Seq<u8> {
    Seq::new(k as nat, |_i: int| pixel_grade(covered, 15))
}

proof fn lemma_full_pixels(s: Seq<u8>, covered: bool, k: nat, x: int)
    requires
        x >= 0,
    ensures
        unpack_from(s, covered, 15 * k + x) == full_pixels(covered, k as int) + unpack_from(
            s,
            covered,
            x,
        ),
    decreases k,
{
    if k > 0 {
        lemma_full_pixels(s, covered, (k - 1) as nat, x);
        assert(full_pixels(covered, k as int) =~= seq![pixel_grade(covered, 15)] + full_pixels(
            covered,
            k - 1,
        ));
    } else {
        assert(full_pixels(covered, 0) =~= Seq::<u8>::empty());
    }
}

/// The unpacker, started where the packer's output for `q` begins, yields the
/// pixels that the packer had counted but not closed yet, then `q`. The packer
/// is at a pixel boundary, its run going on holds `c` units, and the first
/// `r` of them were already yielded as part of the pixel before.
proof fn lemma_unpack_encode(q: Seq<u8>, ce: bool, c: int, r: int)
    requires
        forall|i: int| 0 <= i < q.len() ==> q[i] <= 15,
        0 <= r <= 14,
        r <= c <= 255,
        (c - r) % 15 == 0,
    ensures
        unpack_from(encode(q, ce, c, 15), !ce, -r) == full_pixels(ce, (c - r) / 15) + q,
    decreases q.len(), c,
{
    let k = (c - r) / 15;
    assert(c - r == 15 * k);
    if q.len() == 0 {
        if c > 0 {
            lemma_full_pixels(Seq::<u8>::empty(), ce, k as nat, 0);
            assert(seq![c as u8].drop_first() =~= Seq::<u8>::empty());
        }
        assert(full_pixels(ce, k) + q =~= full_pixels(ce, k));
    } else {
        let a = run_units(ce, q[0] as int, 15);
        let rest = q.drop_first();
        assert forall|i: int| 0 <= i < rest.len() implies rest[i] <= 15 by {
            assert(rest[i] == q[i + 1]);
        }
        if c + a > 255 {
            let x = encode_pixel(q, ce, a, 15);
            assert(encode(q, ce, 0, 15) == x);
            lemma_unpack_encode(q, ce, 0, 0);
            let s = seq![c as u8, 0u8] + x;
            assert(s.drop_first() =~= seq![0u8] + x);
            assert((seq![0u8] + x).drop_first() =~= x);
            lemma_full_pixels(seq![0u8] + x, ce, k as nat, 0);
            assert(full_pixels(ce, 0) + q =~= q);
        } else {
            let c1 = c + a;
            if a < 15 {
                let e = encode(rest, !ce, 15 - a, 15);
                assert((seq![c1 as u8] + e).drop_first() =~= e);
                lemma_full_pixels(e, ce, k as nat, a);
                if a > 0 {
                    lemma_unpack_encode(rest, !ce, 15 - a, 15 - a);
                    assert(full_pixels(!ce, 0) + rest =~= rest);
                    assert(pixel_grade(ce, a) == q[0]);
                    assert(q =~= seq![q[0]] + rest);
                } else {
                    lemma_unpack_encode(rest, !ce, 15, 0);
                    assert(full_pixels(!ce, 1) =~= seq![q[0]]);
                    assert(q =~= seq![q[0]] + rest);
                }
                assert(full_pixels(ce, k) + q =~= full_pixels(ce, k) + (seq![q[0]] + rest));
            } else {
                lemma_unpack_encode(rest, ce, c + 15, r);
                assert(full_pixels(ce, k + 1) =~= full_pixels(ce, k) + seq![q[0]]);
                assert(q =~= seq![q[0]] + rest);
                assert((c + 15 - r) / 15 == k + 1);
            }
        }
    }
}

/// Unpacking gives back every pixel of a packed bitmap, reduced to the grade
/// that `AA_BITS` bits hold.
pub proof fn lemma_unpack_compress(alpha: Seq<u8>)
    ensures
        unpacked(packed_bitmap(alpha, AA_BITS)) == quantize(alpha, AA_BITS),
{
    let q = quantize(alpha, AA_BITS);
    assert((255u8 >> 4u8) == 15u8) by (bit_vector);
    assert(grade_max(AA_BITS) == 15);
    assert forall|i: int| 0 <= i < q.len() implies q[i] <= 15 by {
        lemma_shift_bounds(alpha[i], 4);
    }
    lemma_unpack_encode(q, false, 0, 0);
    assert(full_pixels(false, 0) + q =~= q);
}

} // verus!
