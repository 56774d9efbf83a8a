//! Shared, read-only handles to scene data.

use vstd::prelude::*;
use std::rc::Rc;

verus! {

/// `Rc::clone`: a second handle to the value that `p` points to.
#[verifier::external_body]
pub(crate) fn share<T>(p: &Rc<T>) -> (r: Rc<T>)
    ensures
        r == *p,
{
    Rc::clone(p)
}

} // verus!
