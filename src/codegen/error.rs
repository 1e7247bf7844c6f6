use vstd::prelude::*;

verus! {

/// Failure of the code generation.
#[derive(Clone, Copy, Debug, PartialEq, Eq, Structural)]
pub enum CodegenError {
    /// A construct of the description that the generated code cannot express.
    UnsupportedFeature,
}

} // verus!
