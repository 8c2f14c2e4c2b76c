//! The description of an interface after the OpenAPI standard.

use vstd::prelude::*;

use crate::openapi::v3_0::{Spec, SpecView};

pub mod v3_0;

verus! {

/// A description after one of the versions of the standard.
#[derive(Debug, PartialEq)]
pub enum OpenApi {
    V3_0(Box<Spec>),
}

impl DeepView for OpenApi {
    type V = SpecView;

    open spec fn deep_view(&self) -> SpecView {
        match *self {
            OpenApi::V3_0(spec) => spec.deep_view(),
        }
    }
}

} // verus!
