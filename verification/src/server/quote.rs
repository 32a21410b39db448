use vstd::prelude::*;

verus! {

/// A quotation shown on the start screen, with its number and author.
#[derive(Clone, Debug)]
pub struct Quote {
    pub id: usize,
    pub name: String,
    pub quote: String,
}

} // verus!
