//! Choices of how a program is turned into an executable.
use vstd::prelude::*;

use crate::backend::c::CGenerator;

verus! {

/// The tool that compiles the generated code.
#[derive(PartialEq, Eq, Structural, Debug, Clone, Copy)]
pub enum BackendType {
    GCC,
    ZIG,
    LLVM,
}

/// The kind of build.
#[derive(PartialEq, Eq, Structural, Debug, Clone, Copy)]
pub enum Target {
    Debug,
    Release,
}

/// Whether the generated code is kept after the build.
#[derive(PartialEq, Eq, Structural, Debug, Clone, Copy)]
pub enum BuildFlag {
    KeepCode,
    RemoveCode,
}

/// The available code generators.
pub enum Generators {
    C(CGenerator),
}

} // verus!
