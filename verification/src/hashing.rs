//! What is handed to hashers.

use std::hash::Hasher;
use vstd::prelude::*;

verus! {

/// `std::hash::Hasher::write_u8`: hands a byte to a hasher. What a hasher makes of it is its own
/// affair, so nothing is said of its state.
#[verifier::external_body]
pub(crate) fn feed_byte<H: Hasher>(state: &mut H, byte: u8) {
    state.write_u8(byte);
}

/// `std::hash::Hasher::write_usize`: hands a machine word to a hasher. What a hasher makes of it is
/// its own affair, so nothing is said of its state.
#[verifier::external_body]
pub(crate) fn feed_word<H: Hasher>(state: &mut H, word: usize) {
    state.write_usize(word);
}

/// `std::hash::Hasher::write`: hands bytes to a hasher. What a hasher makes of them is its own
/// affair, so nothing is said of its state.
#[verifier::external_body]
pub(crate) fn feed_bytes<H: Hasher>(state: &mut H, bytes: &Vec<u8>) {
    state.write(bytes);
}

/// One thing to hand to a hasher.
#[derive(Debug, PartialEq, Eq)]
pub enum Fed {
    /// By `write_u8`.
    Byte(u8),
    /// By `write_usize`.
    Word(usize),
    /// By `write`.
    Bytes(Vec<u8>),
}

/// The mathematical model of a [`Fed`].
pub enum FedModel {
    Byte(u8),
    Word(usize),
    Bytes(Seq<u8>),
}

impl Fed {
    /// The model of what is handed over.
    pub open spec fn view(&self) -> FedModel {
        match self {
            Fed::Byte(byte) => FedModel::Byte(*byte),
            Fed::Word(word) => FedModel::Word(*word),
            Fed::Bytes(bytes) => FedModel::Bytes(bytes@),
        }
    }
}

/// The models of a list of things to hand to a hasher.
pub open spec fn fed_of(items: Seq<Fed>) -> Seq<FedModel> {
    Seq::new(items.len(), |i: int| items[i]@)
}

/// Whether `state` is a borrow of a hasher in which it was handed one thing, by the method that is
/// meant for it.
pub closed spec fn fed<H: Hasher>(item: FedModel, state: &mut H) -> bool {
    match item {
        FedModel::Byte(byte) => call_ensures(feed_byte::<H>, (state, byte), ()),
        FedModel::Word(word) => call_ensures(feed_word::<H>, (state, word), ()),
        FedModel::Bytes(bytes) => exists|vec: &Vec<u8>| #[trigger]
            call_ensures(feed_bytes::<H>, (state, vec), ()) && vec@ == bytes,
    }
}

/// Hands something to a hasher.
fn hand<H: Hasher, A, F: FnOnce(&mut H, A)>(method: F, state: &mut H, item: A)
    requires
        forall|r: &mut H| #[trigger] call_requires(method, (r, item)),
    ensures
        exists|r: &mut H| #[trigger]
            call_ensures(method, (r, item), ()) && *r == *old(state) && *final(r) == *final(state),
{
    method(state, item)
}

/// Hands one thing to a hasher.
pub(crate) fn feed<H: Hasher>(state: &mut H, item: &Fed)
    ensures
        exists|r: &mut H| #[trigger]
            fed(item@, r) && *r == *old(state) && *final(r) == *final(state),
{
    match item {
        Fed::Byte(byte) => {
            hand(feed_byte::<H>, state, *byte);
            assert(forall|r: &mut H| #[trigger]
                call_ensures(feed_byte::<H>, (r, *byte), ()) ==> fed(item@, r));
        },
        Fed::Word(word) => {
            hand(feed_word::<H>, state, *word);
            assert(forall|r: &mut H| #[trigger]
                call_ensures(feed_word::<H>, (r, *word), ()) ==> fed(item@, r));
        },
        Fed::Bytes(bytes) => {
            hand(feed_bytes::<H>, state, bytes);
            assert(forall|r: &mut H| #[trigger]
                call_ensures(feed_bytes::<H>, (r, bytes), ()) ==> fed(item@, r));
        },
    }
}

} // verus!
