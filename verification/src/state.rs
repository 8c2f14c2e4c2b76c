//! What is known while a collection is read.

use vstd::prelude::*;

use crate::map::StrMap;
use crate::openapi::v3_0::{SecurityRequirement, SecurityRequirementView, Spec, SpecView};

verus! {

/// What is known while a collection is read.
pub struct TranspileState {
    /// The description so far.
    pub oas: Spec,
    /// How often each identifier has come again.
    pub operation_ids: StrMap<usize>,
    /// What the folders around the current item require, the innermost last.
    pub auth_stack: Vec<SecurityRequirement>,
    /// The groups to which the current item belongs.
    pub hierarchy: Vec<String>,
}

/// The view of `TranspileState`.
#[verifier::ext_equal]
pub struct StateView {
    pub oas: SpecView,
    pub operation_ids: Seq<(Seq<char>, usize)>,
    pub auth_stack: Seq<SecurityRequirementView>,
    pub hierarchy: Seq<Seq<char>>,
}

impl DeepView for TranspileState {
    type V = StateView;

    open spec fn deep_view(&self) -> StateView {
        StateView {
            oas: self.oas.deep_view(),
            operation_ids: self.operation_ids.deep_view(),
            auth_stack: self.auth_stack.deep_view(),
            hierarchy: self.hierarchy.deep_view(),
        }
    }
}

} // verus!
