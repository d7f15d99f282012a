use vstd::prelude::*;

verus! {

/// The envelope that every list endpoint answers with.
pub struct Response<T> {
    pub results: Vec<T>,
}

/// The store's error taxonomy: a direct lookup that matched no row.
#[derive(Clone, Copy, Debug, PartialEq, Eq, Structural)]
pub enum StoreError {
    NotFound,
}

} // verus!
