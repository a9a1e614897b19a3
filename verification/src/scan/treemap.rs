//! Sets of rows in the compressed form of the `roaring` crate.

use roaring::RoaringTreemap;
use vstd::prelude::*;

verus! {

/// `roaring::RoaringTreemap`, a compressed set of 64-bit integers.
#[verifier::external_type_specification]
#[verifier::external_body]
pub struct ExRoaringTreemap(RoaringTreemap);

/// The integers in a `roaring::RoaringTreemap`.
pub uninterp spec fn treemap_rows(treemap: RoaringTreemap) -> Set<u64>;

/// `roaring::RoaringTreemap::contains`: whether an integer is in the set.
pub assume_specification[ RoaringTreemap::contains ](treemap: &RoaringTreemap, value: u64) -> (r:
    bool)
    ensures
        r == treemap_rows(*treemap).contains(value),
;

/// `roaring::RoaringTreemap::is_empty`: whether no integer is in the set.
pub assume_specification[ RoaringTreemap::is_empty ](treemap: &RoaringTreemap) -> (r: bool)
    ensures
        r == forall|value: u64| !treemap_rows(*treemap).contains(value),
;

/// `roaring::RoaringTreemap::min`: the least integer in the set, if there is one.
pub assume_specification[ RoaringTreemap::min ](treemap: &RoaringTreemap) -> (r: Option<u64>)
    ensures
        match r {
            Some(least) => treemap_rows(*treemap).contains(least) && forall|value: u64|
                treemap_rows(*treemap).contains(value) ==> least <= value,
            None => forall|value: u64| !treemap_rows(*treemap).contains(value),
        },
;

/// `roaring::RoaringTreemap::max`: the greatest integer in the set, if there is one.
pub assume_specification[ RoaringTreemap::max ](treemap: &RoaringTreemap) -> (r: Option<u64>)
    ensures
        match r {
            Some(greatest) => treemap_rows(*treemap).contains(greatest) && forall|value: u64|
                treemap_rows(*treemap).contains(value) ==> value <= greatest,
            None => forall|value: u64| !treemap_rows(*treemap).contains(value),
        },
;

/// `Clone` of `roaring::RoaringTreemap`: a copy with the same integers.
pub assume_specification[ <RoaringTreemap as Clone>::clone ](treemap: &RoaringTreemap) -> (r:
    RoaringTreemap)
    ensures
        treemap_rows(r) == treemap_rows(*treemap),
;

} // verus!
