//! Shared, lock-protected state.
use vstd::prelude::*;

verus! {

/// `std::sync::RwLock`, declared so that shared state can be held in fields;
/// Verus sees nothing inside a lock.
#[verifier::external_type_specification]
#[verifier::external_body]
#[verifier::reject_recursive_types(T)]
pub struct ExRwLock<T: ?Sized>(std::sync::RwLock<T>);

} // verus!
