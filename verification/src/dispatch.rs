//! Capability dispatch: given the result of the processor-feature probe,
//! select the kernel implementation with the best-performing tile shape for
//! the requested data type, falling back to the portable reference kernel
//! when the accelerated path is absent. The probe itself is evaluated and
//! memoized by the surrounding process; this decision is a pure function of
//! its result.

use vstd::prelude::*;

verus! {

/// The data-type families a kernel can be requested for.
#[derive(Clone, Copy, Debug, PartialEq, Eq, Structural)]
pub enum KernelDatum {
    /// 8-bit operands, narrow output.
    I8,
    /// 8-bit operands, 32-bit output.
    I8I32,
    /// 32-bit-float operands and output.
    F32,
}

/// The selected implementation.
#[derive(Clone, Copy, Debug, PartialEq, Eq, Structural)]
pub enum KernelChoice {
    /// `MatMatMulI8x8x4` on the accelerated path.
    I8x8x4,
    /// `MatMatMulI8xI32x8x4` on the accelerated path.
    I8xI32x8x4,
    /// `MatMatMulF32x8x4` on the accelerated path.
    F32x8x4,
    /// The portable reference kernel, available on any processor.
    Generic,
}

/// Select the kernel for one data type: the accelerated 8x4 implementation
/// wherever the probed feature is present, the portable reference kernel
/// otherwise.
pub fn select_kernel(feature_present: bool, dt: KernelDatum) -> (r: KernelChoice)
    ensures
        !feature_present ==> r == KernelChoice::Generic,
        feature_present && dt == KernelDatum::I8 ==> r == KernelChoice::I8x8x4,
        feature_present && dt == KernelDatum::I8I32 ==> r == KernelChoice::I8xI32x8x4,
        feature_present && dt == KernelDatum::F32 ==> r == KernelChoice::F32x8x4,
{
    if !feature_present {
        KernelChoice::Generic
    } else {
        match dt {
            KernelDatum::I8 => KernelChoice::I8x8x4,
            KernelDatum::I8I32 => KernelChoice::I8xI32x8x4,
            KernelDatum::F32 => KernelChoice::F32x8x4,
        }
    }
}

} // verus!
