//! 3x3 and 4x4 float matrices, carried as rows of 32-bit IEEE bit patterns.

use vstd::prelude::*;

verus! {

/// Bit pattern of the float one; the other identity entries are zero words.
pub const F32_ONE_BITS: u32 = 0x3F80_0000;

/// A 4x4 matrix: 16 words in row-major order.
pub struct Mat4 {
    pub m: Vec<u32>,
}

impl View for Mat4 {
    type V = Seq<u32>;

    open spec fn view(&self) -> Seq<u32> {
        self.m@
    }
}

impl DeepView for Mat4 {
    type V = Seq<u32>;

    open spec fn deep_view(&self) -> Seq<u32> {
        self.m@
    }
}

/// Row-major identity.
pub open spec fn mat4_identity() -> Seq<u32> {
    seq![
        F32_ONE_BITS, 0u32, 0u32, 0u32,
        0u32, F32_ONE_BITS, 0u32, 0u32,
        0u32, 0u32, F32_ONE_BITS, 0u32,
        0u32, 0u32, 0u32, F32_ONE_BITS,
    ]
}

impl Mat4 {
    pub open spec fn wf(&self) -> bool {
        self@.len() == 16
    }

    pub fn identity() -> (r: Mat4)
        ensures
            r@ == mat4_identity(),
    {
        let r = Mat4 {
            m: vec![
                F32_ONE_BITS, 0u32, 0u32, 0u32,
                0u32, F32_ONE_BITS, 0u32, 0u32,
                0u32, 0u32, F32_ONE_BITS, 0u32,
                0u32, 0u32, 0u32, F32_ONE_BITS,
            ],
        };
        assert(r@ =~= mat4_identity());
        r
    }

    pub fn clone_mat(&self) -> (r: Mat4)
        ensures
            r@ == self@,
    {
        let mut m: Vec<u32> = Vec::new();
        let mut k: usize = 0;
        while k < self.m.len()
            invariant
                k <= self.m.len(),
                m@ == self.m@.take(k as int),
            decreases self.m.len() - k,
        {
            m.push(self.m[k]);
            assert(m@ =~= self.m@.take((k + 1) as int));
            k += 1;
        }
        assert(m@ =~= self@);
        Mat4 { m }
    }
}

/// A 3x3 matrix: 9 words in row-major order.
pub struct Mat3 {
    pub m: Vec<u32>,
}

impl View for Mat3 {
    type V = Seq<u32>;

    open spec fn view(&self) -> Seq<u32> {
        self.m@
    }
}

impl DeepView for Mat3 {
    type V = Seq<u32>;

    open spec fn deep_view(&self) -> Seq<u32> {
        self.m@
    }
}

impl Mat3 {
    pub open spec fn wf(&self) -> bool {
        self@.len() == 9
    }
}

} // verus!
