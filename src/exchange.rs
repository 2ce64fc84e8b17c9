use vstd::prelude::*;

verus! {

/// What every exchange feed has in common: the name that tags its levels.
pub trait Exchange {
    spec fn spec_name() -> Seq<char>;

    fn get_name() -> (r: &'static str)
        ensures
            r@ == Self::spec_name(),
    ;
}

} // verus!
