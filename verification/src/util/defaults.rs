//! Functions that return a value fixed at compile time, for the places that take a
//! function where a default value is meant.

use vstd::prelude::*;
use vstd::std_specs::convert::FromSpec;

verus! {

#[must_use]
pub fn default_u128<const V: u128>() -> (r: u128)
    ensures
        r == V,
{
    V
}

#[must_use]
pub fn default_u64<const V: u64>() -> (r: u64)
    ensures
        r == V,
{
    V
}

#[must_use]
pub fn default_u32<const V: u32>() -> (r: u32)
    ensures
        r == V,
{
    V
}

#[must_use]
pub fn default_u16<const V: u16>() -> (r: u16)
    ensures
        r == V,
{
    V
}

#[must_use]
pub fn default_u8<const V: u8>() -> (r: u8)
    ensures
        r == V,
{
    V
}

#[must_use]
pub fn default_bool<const V: bool>() -> (r: bool)
    ensures
        r == V,
{
    V
}

#[must_use]
pub fn default_from_u128<T: From<u128>, const V: u128>() -> (r: T)
    ensures
        T::obeys_from_spec() ==> r == T::from_spec(V),
{
    T::from(V)
}

#[must_use]
pub fn default_from_u64<T: From<u64>, const V: u64>() -> (r: T)
    ensures
        T::obeys_from_spec() ==> r == T::from_spec(V),
{
    T::from(V)
}

#[must_use]
pub fn default_from_u32<T: From<u32>, const V: u32>() -> (r: T)
    ensures
        T::obeys_from_spec() ==> r == T::from_spec(V),
{
    T::from(V)
}

#[must_use]
pub fn default_from_u16<T: From<u16>, const V: u16>() -> (r: T)
    ensures
        T::obeys_from_spec() ==> r == T::from_spec(V),
{
    T::from(V)
}

#[must_use]
pub fn default_from_u8<T: From<u8>, const V: u8>() -> (r: T)
    ensures
        T::obeys_from_spec() ==> r == T::from_spec(V),
{
    T::from(V)
}

} // verus!
