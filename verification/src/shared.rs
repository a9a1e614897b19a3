//! Shared pointers.

use std::sync::Arc;
use vstd::prelude::*;

verus! {

/// `std::sync::Arc::clone`: another pointer to the same allocation, so to the same value.
#[verifier::external_body]
pub(crate) fn share<T>(shared: &Arc<T>) -> (r: Arc<T>)
    ensures
        r == *shared,
{
    Arc::clone(shared)
}

/// `std::sync::Arc::get_mut`: the value behind the pointer where no other pointer shares it, and
/// nothing otherwise. Which of the two it is depends on how many pointers there are, and is left
/// unsaid.
#[verifier::external_body]
pub(crate) fn unshared<T>(shared: &mut Arc<T>) -> (r: Option<&mut T>)
    ensures
        match r {
            Some(value) => *value == **old(shared) && **final(shared) == *final(value),
            None => *final(shared) == *old(shared),
        },
    opens_invariants none
    no_unwind
{
    Arc::get_mut(shared)
}

/// `get_mut` of a slice, on the elements of a vector: the element at a place, or nothing where there
/// is none. It never panics.
#[verifier::external_body]
pub(crate) fn slot<T>(items: &mut Vec<T>, i: usize) -> (r: Option<&mut T>)
    ensures
        match r {
            Some(item) => {
                &&& i < old(items)@.len()
                &&& *item == old(items)@[i as int]
                &&& final(items)@ == old(items)@.update(i as int, *final(item))
            },
            None => i >= old(items)@.len() && final(items)@ == old(items)@,
        },
    opens_invariants none
    no_unwind
{
    items.get_mut(i)
}

/// `std::sync::Arc::ptr_eq`: whether two pointers lead to the same allocation, in which case they
/// lead to the same value. Equal values may lie in different allocations.
#[verifier::external_body]
pub(crate) fn same_allocation<T>(left: &Arc<T>, right: &Arc<T>) -> (r: bool)
    ensures
        r ==> *left == *right,
{
    Arc::ptr_eq(left, right)
}

/// `std::sync::Arc::as_ptr`, as a number. Where the value lies is up to the allocator, so nothing
/// is said of the number.
#[verifier::external_body]
pub(crate) fn address<T>(shared: &Arc<T>) -> (r: usize) {
    Arc::as_ptr(shared) as usize
}

/// Whether `same` is what [`same_allocation`] can answer of two pointers.
pub closed spec fn answers_same<T>(left: Arc<T>, right: Arc<T>, same: bool) -> bool {
    call_ensures(same_allocation::<T>, (&left, &right), same)
}

/// Whether `place` is what [`address`] can answer of a pointer.
pub closed spec fn lies_at<T>(shared: Arc<T>, place: usize) -> bool {
    call_ensures(address::<T>, (&shared,), place)
}

/// Whether `unique` is whether [`unshared`] can give the value behind a pointer.
pub closed spec fn answers_unique<T>(shared: Arc<T>, unique: bool) -> bool {
    exists|pointer: &mut Arc<T>, answer: Option<&mut T>| #[trigger]
        call_ensures(unshared::<T>, (pointer,), answer) && *pointer == shared && unique
            == answer is Some
}

/// Whether a pointer is what [`share`] can give of another.
pub closed spec fn shares<T>(from: Arc<T>, to: Arc<T>) -> bool {
    call_ensures(share::<T>, (&from,), to)
}

/// Asks for a second pointer.
fn ask_for_another<T, F: FnOnce(&Arc<T>) -> Arc<T>>(question: F, shared: &Arc<T>) -> (r: Arc<T>)
    requires
        call_requires(question, (shared,)),
    ensures
        call_ensures(question, (shared,), r),
{
    question(shared)
}

/// Another pointer to a shared value, as [`share`] gives it.
pub(crate) fn another<T>(shared: &Arc<T>) -> (r: Arc<T>)
    ensures
        shares(*shared, r),
        r == *shared,
{
    let r = ask_for_another(share::<T>, shared);
    assert(shares(*shared, r));
    r
}

/// Asks for the value behind a pointer.
fn ask_for_value<'a, T, F: FnOnce(&'a mut Arc<T>) -> Option<&'a mut T>>(
    question: F,
    shared: &'a mut Arc<T>,
) -> (r: Option<&'a mut T>)
    requires
        forall|pointer: &mut Arc<T>| #[trigger] call_requires(question, (pointer,)),
    ensures
        exists|pointer: &mut Arc<T>| #[trigger]
            call_ensures(question, (pointer,), r) && *pointer == *old(shared) && *final(pointer)
                == *final(shared),
{
    question(shared)
}

/// The value behind a pointer where no other pointer shares it, as [`unshared`] answers it.
pub(crate) fn unique_value<T>(shared: &mut Arc<T>) -> (r: Option<&mut T>)
    ensures
        answers_unique(*old(shared), r is Some),
        match r {
            Some(value) => *value == **old(shared) && **final(shared) == *final(value),
            None => *final(shared) == *old(shared),
        },
{
    ask_for_value(unshared::<T>, shared)
}

/// Asks a question of two pointers.
fn ask_of_two<T, F: FnOnce(&Arc<T>, &Arc<T>) -> bool>(
    question: F,
    left: &Arc<T>,
    right: &Arc<T>,
) -> (r: bool)
    requires
        call_requires(question, (left, right)),
    ensures
        call_ensures(question, (left, right), r),
{
    question(left, right)
}

/// Asks a question of a pointer.
fn ask_of<T, F: FnOnce(&Arc<T>) -> usize>(question: F, shared: &Arc<T>) -> (r: usize)
    requires
        call_requires(question, (shared,)),
    ensures
        call_ensures(question, (shared,), r),
{
    question(shared)
}

/// Whether two pointers lead to the same allocation, as [`same_allocation`] answers it.
pub(crate) fn is_same<T>(left: &Arc<T>, right: &Arc<T>) -> (r: bool)
    ensures
        answers_same(*left, *right, r),
        r ==> *left == *right,
{
    let r = ask_of_two(same_allocation::<T>, left, right);
    assert(answers_same(*left, *right, r));
    r
}

/// Where a shared value lies, as [`address`] answers it.
pub(crate) fn place_of<T>(shared: &Arc<T>) -> (r: usize)
    ensures
        lies_at(*shared, r),
{
    ask_of(address::<T>, shared)
}

} // verus!
