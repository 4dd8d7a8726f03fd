//! Keys: what the key function computes and when two keys count as equal.

use vstd::prelude::*;
use vstd::std_specs::cmp::PartialEqSpec;

verus! {

/// What `a == b` on keys means in contracts.
pub open spec fn key_eq<K: PartialEq>(a: K, b: K) -> bool {
    a.eq_spec(&b)
}

/// The key type's `==` computes what `key_eq` says.
pub open spec fn eq_is_specified<K: PartialEq>() -> bool {
    K::obeys_eq_spec()
}

/// Every key equals itself. This fails for a key type such as a float, whose
/// not-a-number value differs from itself.
pub open spec fn eq_is_reflexive<K: PartialEq>() -> bool {
    forall|k: K| #[trigger] key_eq(k, k)
}

/// The key function accepts every item and gives each item one key only.
pub open spec fn pure_key<T, K, F: Fn(&T) -> K>(f: F) -> bool {
    &&& forall|x: T| #[trigger] f.requires((&x,))
    &&& forall|x: T, a: K, b: K| #[trigger] f.ensures((&x,), a) && #[trigger] f.ensures((&x,), b) ==> a == b
}

/// The key that `f` gives to `x`.
pub open spec fn key_of<T, K, F: Fn(&T) -> K>(f: F, x: T) -> K {
    choose|k: K| f.ensures((&x,), k)
}

/// Whether `x` belongs to the group whose key is `cur`. No item belongs to a
/// group while there is none.
pub open spec fn in_group<T, K: PartialEq, F: Fn(&T) -> K>(f: F, x: T, cur: Option<K>) -> bool {
    match cur {
        Some(k) => key_eq(key_of(f, x), k),
        None => false,
    }
}

} // verus!
