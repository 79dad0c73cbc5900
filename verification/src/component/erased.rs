//! Type identity and type-erased component values.
//!
//! Component types are identified by `std::any::TypeId`, and a column of one
//! component type holds its values as [`ErasedValue`]s, boxes whose concrete
//! type is known only at run time. The library decides everything by
//! comparing identifiers; the few calls that create, compare or inspect them
//! are the trusted boundary declared here.
use std::any::Any;
use std::any::TypeId;

use vstd::prelude::*;

use super::Component;

verus! {

/// `std::any::TypeId`, carried through the library as an opaque value.
#[verifier::external_type_specification]
#[verifier::external_body]
pub struct ExTypeId(TypeId);

/// The place of a `TypeId` in the total order that `TypeId`'s `Ord`
/// implementation defines. `TypeId`'s `==` agrees with that order, so two
/// identifiers are equal exactly when their ranks are equal.
pub uninterp spec fn type_rank(id: TypeId) -> int;

/// A boxed component value whose concrete type is known only at run time.
///
/// The box is a `Box<dyn Any>`, a type Verus cannot express, so the struct
/// is opaque to the verifier.
#[verifier::external_body]
pub struct ErasedValue {
    boxed: Box<dyn Any>,
}

/// The `TypeId` of the concrete type of the value inside an [`ErasedValue`],
/// as `<dyn Any>::type_id` reports it.
pub uninterp spec fn erased_type(value: ErasedValue) -> TypeId;

/// `id` is an identifier that `TypeId::of::<T>()` returns.
pub closed spec fn is_type_id_of<T: ?Sized + 'static>(id: TypeId) -> bool {
    call_ensures(type_id_of::<T>, (), id)
}

/// `id` identifies the type `T`: it is what `TypeId::of::<T>()` returns, up
/// to `TypeId`'s equality.
pub open spec fn identifies<T: ?Sized + 'static>(id: TypeId) -> bool {
    exists|t: TypeId| #[trigger] is_type_id_of::<T>(t) && type_rank(t) == type_rank(id)
}

/// `erased` is what boxing `value` gives.
pub closed spec fn erases_to<T: Component + 'static>(value: T, erased: ErasedValue) -> bool {
    call_ensures(erase::<T>, (value,), erased)
}

/// `lent` is what lending `erased` as a `T` gives: the value inside the box,
/// or `None`.
pub closed spec fn lends<T: 'static>(erased: ErasedValue, lent: Option<&T>) -> bool {
    call_ensures(downcast_ref::<T>, (&erased,), lent)
}

/// `value` is what moving the value out of `erased` as a `T` gives.
pub closed spec fn unerases_to<T: 'static>(erased: ErasedValue, value: T) -> bool {
    call_ensures(unerase::<T>, (erased,), Ok::<T, ErasedValue>(value))
}

/// What a call of [`erase`] returned is the boxing of its argument.
pub(crate) proof fn lemma_erase<T: Component + 'static>(value: T, erased: ErasedValue)
    requires
        call_ensures(erase::<T>, (value,), erased),
    ensures
        erases_to(value, erased),
{
}

/// What a call of [`downcast_ref`] returned is the lending of its argument.
pub(crate) proof fn lemma_downcast_ref<T: 'static>(erased: ErasedValue, lent: Option<&T>)
    requires
        call_ensures(downcast_ref::<T>, (&erased,), lent),
    ensures
        lends(erased, lent),
{
}

/// What a successful call of [`unerase`] returned is the value inside its
/// argument.
pub(crate) proof fn lemma_unerase<T: 'static>(erased: ErasedValue, value: T)
    requires
        call_ensures(unerase::<T>, (erased,), Ok::<T, ErasedValue>(value)),
    ensures
        unerases_to(erased, value),
{
}

/// A box lends its value as a `T` exactly when the box holds a `T`.
pub proof fn law_lending_follows_the_type<T: 'static>(erased: ErasedValue, lent: Option<&T>)
    requires
        lends(erased, lent),
    ensures
        lent is Some <==> identifies::<T>(erased_type(erased)),
{
}

/// A value moved out of a box as a `T` came from a box that holds a `T`.
pub proof fn law_unerasing_follows_the_type<T: 'static>(erased: ErasedValue, value: T)
    requires
        unerases_to(erased, value),
    ensures
        identifies::<T>(erased_type(erased)),
{
}

/// Boxing a `T` gives a box that holds a `T`.
pub proof fn law_erasing_keeps_the_type<T: Component + 'static>(value: T, erased: ErasedValue)
    requires
        erases_to(value, erased),
    ensures
        identifies::<T>(erased_type(erased)),
{
    assert(is_type_id_of::<T>(erased_type(erased)));
}

/// What a call of [`type_id_of`] returned is an identifier of `T`.
pub(crate) proof fn lemma_type_id_of<T: ?Sized + 'static>(id: TypeId)
    requires
        call_ensures(type_id_of::<T>, (), id),
    ensures
        is_type_id_of::<T>(id),
{
}

/// Calls `TypeId::of::<T>()`. Nothing is stated of the result: which
/// identifier a type receives is the compiler's choice.
#[verifier::external_body]
pub(crate) fn type_id_of<T: ?Sized + 'static>() -> TypeId {
    TypeId::of::<T>()
}

/// Calls `<TypeId as PartialOrd>::lt`, which compares the two identifiers in
/// `TypeId`'s total order, named by [`type_rank`].
#[verifier::external_body]
pub(crate) fn type_id_less(a: &TypeId, b: &TypeId) -> (less: bool)
    ensures
        less == (type_rank(*a) < type_rank(*b)),
{
    *a < *b
}

/// Calls `<TypeId as PartialEq>::eq`, which holds exactly when the two
/// identifiers have the same place in `TypeId`'s order.
#[verifier::external_body]
pub(crate) fn type_id_equal(a: &TypeId, b: &TypeId) -> (equal: bool)
    ensures
        equal == (type_rank(*a) == type_rank(*b)),
{
    *a == *b
}

/// Moves `value` into a `Box<dyn Any>`. The box reports, through
/// `<dyn Any>::type_id`, the identifier that `TypeId::of::<T>()` returns.
#[verifier::external_body]
pub(crate) fn erase<T: Component + 'static>(value: T) -> (erased: ErasedValue)
    ensures
        is_type_id_of::<T>(erased_type(erased)),
{
    ErasedValue { boxed: Box::new(value) }
}

/// Calls `<dyn Any>::type_id` on the boxed value, which returns the
/// identifier of the value's concrete type, named by [`erased_type`].
#[verifier::external_body]
pub(crate) fn erased_type_id(value: &ErasedValue) -> (id: TypeId)
    ensures
        id == erased_type(*value),
{
    (*value.boxed).type_id()
}

/// Calls `<dyn Any>::downcast_ref::<T>`, which returns the boxed value
/// exactly when its concrete type is `T`, that is, when the box's identifier
/// is what `TypeId::of::<T>()` returns. Which value it lends is not stated.
#[verifier::external_body]
pub(crate) fn downcast_ref<T: 'static>(value: &ErasedValue) -> (found: Option<&T>)
    ensures
        found is Some <==> identifies::<T>(erased_type(*value)),
{
    value.boxed.downcast_ref::<T>()
}

/// Calls `<dyn Any>::downcast_mut::<T>`, which lends the boxed value exactly
/// when its concrete type is `T`, that is, when the box's identifier is what
/// `TypeId::of::<T>()` returns. What is written through the returned
/// reference is a `T` again, so the value keeps its concrete type; when
/// nothing is lent, nothing changes.
#[verifier::external_body]
pub(crate) fn downcast_mut<T: 'static>(value: &mut ErasedValue) -> (lent: Option<&mut T>)
    ensures
        lent is Some <==> identifies::<T>(erased_type(*old(value))),
        erased_type(*final(value)) == erased_type(*old(value)),
        lent is None ==> *final(value) == *old(value),
{
    value.boxed.downcast_mut::<T>()
}

/// Calls `Box::<dyn Any>::downcast::<T>`, which moves the value out exactly
/// when its concrete type is `T`, that is, when the box's identifier is what
/// `TypeId::of::<T>()` returns, and otherwise hands the same box back.
#[verifier::external_body]
pub(crate) fn unerase<T: 'static>(value: ErasedValue) -> (result: Result<T, ErasedValue>)
    ensures
        result is Ok <==> identifies::<T>(erased_type(value)),
        result matches Err(back) ==> back == value,
{
    match value.boxed.downcast::<T>() {
        Ok(inner) => Ok(*inner),
        Err(boxed) => Err(ErasedValue { boxed }),
    }
}

} // verus!
