//! The weighted modules that a model is laid out with.
use vstd::prelude::*;

use crate::binary32::Binary32;

verus! {

/// A quantized linear projection.
#[derive(Debug, Clone, Copy, PartialEq, Eq, Structural)]
pub struct QLinear {
    pub group_size: i32,
    pub bits: i32,
}

/// A quantized embedding table.
#[derive(Debug, Clone, Copy, PartialEq, Eq, Structural)]
pub struct QEmbedding {
    pub group_size: i32,
    pub bits: i32,
}

/// The quantized weights of all routed experts of a layer.
#[derive(Debug, Clone, Copy, PartialEq, Eq, Structural)]
pub struct SwitchMlpWeights {
    pub group_size: i32,
    pub bits: i32,
}

/// A root mean square normalisation.
#[derive(Debug, Clone, Copy, PartialEq, Eq, Structural)]
pub struct RmsNorm {
    pub dims: i32,
    pub eps: Binary32,
}

/// A plain linear projection.
#[derive(Debug, Clone, Copy, PartialEq, Eq, Structural)]
pub struct Linear {
    pub input_dims: i32,
    pub output_dims: i32,
    pub bias: bool,
}

} // verus!
