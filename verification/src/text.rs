//! Small operations on text that the rest of the library shares.
use vstd::prelude::*;
use crate::term::names_view;

verus! {

/// Equality of two string slices. Calls `<str as PartialEq>::eq`, which
/// std documents as equality of the two character sequences; the contract
/// states exactly that.
#[verifier::external_body]
pub(crate) fn str_eq(a: &str, b: &str) -> (r: bool)
    ensures
        r == (a@ == b@),
{
    a == b
}

/// Whether `name` occurs in `names`.
pub fn contains_name(names: &Vec<String>, name: &str) -> (r: bool)
    ensures
        r == names_view(names@).contains(name@),
{
    let mut i: usize = 0;
    while i < names.len()
        invariant
            i <= names.len(),
            forall|j: int| 0 <= j < i ==> names@[j]@ != name@,
        decreases names.len() - i,
    {
        if str_eq(names[i].as_str(), name) {
            proof {
                assert(names_view(names@)[i as int] == name@);
            }
            return true;
        }
        i += 1;
    }
    proof {
        assert forall|j: int| 0 <= j < names_view(names@).len() implies names_view(names@)[j]
            != name@ by {
            assert(names_view(names@)[j] == names@[j]@);
        }
    }
    false
}

} // verus!
