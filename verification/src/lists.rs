//! Lists of values that cannot be copied.
use vstd::prelude::*;

verus! {

/// The values in the opposite order.
pub fn reversed<T>(values: Vec<T>) -> (r: Vec<T>)
    ensures
        r@ == values@.reverse(),
{
    let ghost whole = values@;
    let mut rest = values;
    let mut out: Vec<T> = Vec::new();
    proof {
        assert(whole.take(whole.len() as int) =~= whole);
        assert(whole.skip(whole.len() as int).reverse() =~= Seq::empty());
    }
    while rest.len() > 0
        invariant
            rest@.len() <= whole.len(),
            rest@ == whole.take(rest@.len() as int),
            out@ == whole.skip(rest@.len() as int).reverse(),
        decreases rest@.len(),
    {
        let ghost m = rest@.len() as int;
        let x = rest.pop().unwrap();
        out.push(x);
        proof {
            assert(rest@ =~= whole.take(m - 1));
            assert(whole.skip(m - 1) =~= seq![whole[m - 1]] + whole.skip(m));
            assert(out@ =~= whole.skip(m - 1).reverse());
        }
    }
    proof {
        assert(whole.skip(0) =~= whole);
    }
    out
}

} // verus!
