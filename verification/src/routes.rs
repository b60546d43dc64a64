use vstd::prelude::*;

verus! {

/// The fixed greeting the home route answers with.
pub fn index() -> (r: &'static str)
    ensures
        r@ == ("Hello, world!")@,
{
    "Hello, world!"
}

} // verus!
