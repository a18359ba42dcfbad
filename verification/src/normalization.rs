//! Range normalization: the linear map from 8-bit samples to tensor values.
//!
//! A tensor value is `sample * scale + offset`. The unit of the result is
//! whatever unit `scale` and `offset` are given in: with scale 1 and offset 0
//! the values are in 255ths, so that 255 stands for 1.0.

use vstd::prelude::*;

verus! {

/// Mathematical view of a normalization.
pub struct NormalizationView {
    pub scale: int,
    pub offset: int,
}

impl NormalizationView {
    /// The tensor value of a sample.
    pub open spec fn apply(self, sample: int) -> int {
        sample * self.scale + self.offset
    }

    /// Both ends of the sample range map to values that fit in `i32`.
    pub open spec fn fits(self) -> bool {
        &&& i32::MIN <= self.apply(0) <= i32::MAX
        &&& i32::MIN <= self.apply(255) <= i32::MAX
    }
}

/// A linear map whose values fit in `i32` for every 8-bit sample.
pub struct Normalization {
    scale: i32,
    offset: i32,
}

impl View for Normalization {
    type V = NormalizationView;

    closed spec fn view(&self) -> NormalizationView {
        NormalizationView { scale: self.scale as int, offset: self.offset as int }
    }
}

/// A linear map takes every sample to a value between those of the two ends
/// of the sample range.
pub proof fn lemma_apply_between(n: NormalizationView, sample: int, lo: int, hi: int)
    requires
        0 <= sample <= 255,
        lo <= n.apply(0) <= hi,
        lo <= n.apply(255) <= hi,
    ensures
        lo <= n.apply(sample) <= hi,
{
    let s = n.scale;
    if s >= 0 {
        assert(0 <= sample * s <= 255 * s) by (nonlinear_arith)
            requires
                0 <= sample <= 255,
                0 <= s,
        ;
    } else {
        assert(255 * s <= sample * s <= 0) by (nonlinear_arith)
            requires
                0 <= sample <= 255,
                s < 0,
        ;
    }
}

impl Normalization {
    /// Every normalization takes 8-bit samples to values that fit in `i32`.
    #[verifier::type_invariant]
    pub open spec fn well_formed(&self) -> bool {
        self@.fits()
    }

    /// The map `sample * scale + offset`, or `None` when it takes some
    /// 8-bit sample to a value that does not fit in `i32`.
    pub fn new(scale: i32, offset: i32) -> (r: Option<Normalization>)
        ensures
            r.is_some() <==> (NormalizationView {
                scale: scale as int,
                offset: offset as int,
            }).fits(),
            r matches Some(n) ==> n@ == (NormalizationView {
                scale: scale as int,
                offset: offset as int,
            }),
    {
        let top: i64 = 255 * (scale as i64) + (offset as i64);
        if top >= i32::MIN as i64 && top <= i32::MAX as i64 {
            Some(Normalization { scale, offset })
        } else {
            None
        }
    }

    /// The map that leaves samples as they are: values are in 255ths.
    pub fn identity() -> (n: Normalization)
        ensures
            n@ == (NormalizationView { scale: 1, offset: 0 }),
    {
        Normalization { scale: 1, offset: 0 }
    }

    /// The factor by which a sample is multiplied.
    pub fn scale(&self) -> (r: i32)
        ensures
            r == self@.scale,
    {
        self.scale
    }

    /// The value added to the scaled sample.
    pub fn offset(&self) -> (r: i32)
        ensures
            r == self@.offset,
    {
        self.offset
    }

    /// The tensor value of a sample.
    pub fn apply(&self, sample: u8) -> (r: i32)
        ensures
            r == self@.apply(sample as int),
    {
        proof {
            use_type_invariant(self);
            lemma_apply_between(self@, sample as int, i32::MIN as int, i32::MAX as int);
        }
        let wide: i64 = (sample as i64) * (self.scale as i64) + (self.offset as i64);
        wide as i32
    }
}

} // verus!
