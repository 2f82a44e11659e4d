use vstd::prelude::*;

verus! {

/// `x` is a copy of a value that `T::default()` gives.
pub open spec fn from_default<T: Default + Clone>(x: T) -> bool {
    exists|d: T| #[trigger] call_ensures(T::default, (), d) && cloned(d, x)
}

/// Writes `value` at `index`, first growing the vector with default values when it is too short.
pub fn set_index<T: Default + Clone>(vec: &mut Vec<T>, index: usize, value: T)
    requires
        index < usize::MAX,
    ensures
        index < old(vec)@.len() ==> final(vec)@ == old(vec)@.update(index as int, value),
        index >= old(vec)@.len() ==> {
            &&& final(vec)@.len() == index + 1
            &&& final(vec)@.subrange(0, old(vec)@.len() as int) == old(vec)@
            &&& final(vec)@[index as int] == value
            &&& forall|j: int| old(vec)@.len() <= j < index ==> #[trigger] from_default(final(vec)@[j])
        },
{
    if index >= vec.len() {
        let make = T::default;
        let d = make();
        vec.resize(index + 1, d);
        proof {
            assert forall|j: int| old(vec)@.len() <= j < index implies #[trigger] from_default(vec@[j]) by {
                assert(cloned::<T>(d, vec@[j]));
            }
        }
    }
    let ghost grown = vec@;
    vec.set(index, value);
    proof {
        if index >= old(vec)@.len() {
            assert(vec@.subrange(0, old(vec)@.len() as int) =~= old(vec)@);
            assert forall|j: int| old(vec)@.len() <= j < index implies #[trigger] from_default(vec@[j]) by {
                assert(vec@[j] == grown[j]);
            }
        }
    }
}

} // verus!
