use vstd::pervasive::strictly_cloned;
use vstd::prelude::*;
use vstd::std_specs::cmp::PartialEqSpec;

verus! {

/// The symbol type compares by value and copies faithfully: `==` on two
/// symbols means they are the same value, and a clone equals its source.
pub open spec fn faithful<T: PartialEq + Clone>() -> bool {
    &&& <T as PartialEqSpec>::obeys_eq_spec()
    &&& forall|a: T, b: T| #[trigger] a.eq_spec(&b) <==> a == b
    &&& forall|a: T, b: T| #[trigger] strictly_cloned(a, b) ==> a == b
}

/// A copy of a sequence of symbols, with no aliasing to the source.
pub(crate) fn copy_symbols<T: PartialEq + Clone>(v: &Vec<T>) -> (r: Vec<T>)
    requires
        faithful::<T>(),
    ensures
        r@ == v@,
{
    let r = v.clone();
    assert(r@ =~= v@);
    r
}

/// Whether two symbols are equal.
pub(crate) fn same_symbol<T: PartialEq + Clone>(a: &T, b: &T) -> (r: bool)
    requires
        faithful::<T>(),
    ensures
        r == (*a == *b),
{
    a.eq(b)
}

/// A copy of one symbol.
pub(crate) fn copy_symbol<T: PartialEq + Clone>(a: &T) -> (r: T)
    requires
        faithful::<T>(),
    ensures
        r == *a,
{
    let r = a.clone();
    assert(strictly_cloned(*a, r));
    r
}

/// `u8` symbols compare by value and copy faithfully.
pub proof fn lemma_u8_faithful()
    ensures
        faithful::<u8>(),
{
    assert forall|a: u8, b: u8| #[trigger] strictly_cloned(a, b) implies a == b by {}
}

/// `u32` symbols compare by value and copy faithfully.
pub proof fn lemma_u32_faithful()
    ensures
        faithful::<u32>(),
{
    assert forall|a: u32, b: u32| #[trigger] strictly_cloned(a, b) implies a == b by {}
}

/// `u64` symbols compare by value and copy faithfully.
pub proof fn lemma_u64_faithful()
    ensures
        faithful::<u64>(),
{
    assert forall|a: u64, b: u64| #[trigger] strictly_cloned(a, b) implies a == b by {}
}

/// `usize` symbols compare by value and copy faithfully.
pub proof fn lemma_usize_faithful()
    ensures
        faithful::<usize>(),
{
    assert forall|a: usize, b: usize| #[trigger] strictly_cloned(a, b) implies a == b by {}
}

} // verus!
