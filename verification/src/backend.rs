//! What a formula is written in, and how it stands in its text.

use vstd::prelude::*;

verus! {

/// A program that renders formulas.
#[derive(Debug, Clone, Copy, Hash, PartialEq, Eq, Structural)]
pub enum Backend {
    LaTeX,
    Typst,
}

/// The language of a formula found in a text.
#[derive(Debug, Clone, Copy, Hash, PartialEq, Eq, Structural)]
pub enum MathPreviewBackend {
    Latex,
    Typst,
}

/// Whether a formula stands within a line or on lines of its own.
#[derive(Debug, Clone, Copy, Hash, PartialEq, Eq, Structural)]
pub enum MathPreviewKind {
    Inline,
    Block,
}

/// The program that renders formulas of the language `backend`.
pub open spec fn renderer(backend: MathPreviewBackend) -> Backend {
    match backend {
        MathPreviewBackend::Latex => Backend::LaTeX,
        MathPreviewBackend::Typst => Backend::Typst,
    }
}

/// The program that renders formulas of the language `backend`.
pub fn to_render_backend(backend: MathPreviewBackend) -> (r: Backend)
    ensures
        r == renderer(backend),
{
    match backend {
        MathPreviewBackend::Latex => Backend::LaTeX,
        MathPreviewBackend::Typst => Backend::Typst,
    }
}

} // verus!
