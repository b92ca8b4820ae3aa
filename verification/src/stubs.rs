use vstd::prelude::*;

verus! {

/// An implemented interface. Classes that implement interfaces are refused, so no
/// value of this type is ever made.
#[derive(Debug, Clone, Copy)]
pub struct Interfaces {}

/// A declared field. Classes that declare fields are refused, so no value of this
/// type is ever made.
#[derive(Debug, Clone, Copy)]
pub struct Fields {}

} // verus!
