use vstd::prelude::*;

verus! {

/// Whether cloning a `T` gives back the very value. A replica sends clones
/// of operations to several replicas and keeps clones of results, so its
/// contracts hold for types whose clones are exact.
pub open spec fn exact_clone<T: Clone>() -> bool {
    forall|a: T, b: T| #[trigger] cloned(a, b) ==> a == b
}

/// Clones `value`, of a type whose clones are exact.
pub fn duplicate<T: Clone>(value: &T) -> (copy: T)
    requires
        exact_clone::<T>(),
    ensures
        copy == *value,
{
    let copy = value.clone();
    assert(cloned(*value, copy));
    copy
}

} // verus!
