//! The handle through which foreign code holds a tone mapper.
use vstd::prelude::*;
use crate::tonemap::{ToneMapper, ToneMapperView};

verus! {

/// A tone mapper, boxed and handed across the language boundary.
pub struct ToneMapperWrapper {
    inner: ToneMapper,
}

impl View for ToneMapperWrapper {
    type V = ToneMapperView;

    closed spec fn view(&self) -> ToneMapperView {
        self.inner@
    }
}

impl ToneMapperWrapper {
    /// Wraps a tone mapper.
    pub fn new(inner: ToneMapper) -> (r: ToneMapperWrapper)
        ensures
            r@ == inner@,
    {
        ToneMapperWrapper { inner }
    }

    /// The wrapped tone mapper.
    pub fn inner(&self) -> (r: &ToneMapper)
        ensures
            r@ == self@,
    {
        &self.inner
    }

    /// Whether the wrapped tone mapper is a no-op identity transform.
    pub fn is_identity(&self) -> (r: bool)
        ensures
            r == self@.is_identity,
    {
        self.inner.is_identity()
    }

    /// A boxed copy of this handle, holding a copy of the tone mapper.
    pub fn clone_box(&self) -> (r: Box<ToneMapperWrapper>)
        ensures
            r@ == self@,
    {
        Box::new(ToneMapperWrapper { inner: self.inner.clone() })
    }
}

} // verus!
