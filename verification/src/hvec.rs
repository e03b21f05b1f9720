//! The bounded lists of the `heapless` crate that the boot code keeps its
//! memory regions and address ranges in, with the behaviour of the methods
//! that the library calls.

use vstd::prelude::*;

use crate::mem::MemoryRegion;

verus! {

#[verifier::external_type_specification]
#[verifier::external_body]
#[verifier::reject_recursive_types(T)]
pub struct ExHeaplessVec<T, const N: usize>(heapless::Vec<T, N>);

/// The list of memory regions, at most 128 of them.
pub type MemoryRegionVec = heapless::Vec<MemoryRegion, 128>;

/// The regions held by a `MemoryRegionVec`, in order.
pub uninterp spec fn region_list(v: heapless::Vec<MemoryRegion, 128>) -> Seq<MemoryRegion>;

/// A list after a push, and the result of the push.
pub struct RegionVecPush {
    pub list: heapless::Vec<MemoryRegion, 128>,
    pub res: Result<(), MemoryRegion>,
}

/// A list after an extension, and the result of the extension.
pub struct RegionVecExtend {
    pub list: heapless::Vec<MemoryRegion, 128>,
    pub res: Result<(), ()>,
}

/// `heapless::Vec::new`: an empty list.
#[verifier::external_body]
pub(crate) fn region_vec_new() -> (r: heapless::Vec<MemoryRegion, 128>)
    ensures
        region_list(r) == Seq::<MemoryRegion>::empty(),
{
    heapless::Vec::new()
}

/// `heapless::Vec::as_slice`: the held items, in order; the list holds at
/// most its capacity.
#[verifier::external_body]
pub(crate) fn region_vec_as_slice(v: &heapless::Vec<MemoryRegion, 128>) -> (r: &[MemoryRegion])
    ensures
        r@ == region_list(*v),
        r@.len() <= 128,
{
    v.as_slice()
}

/// `heapless::Vec::clear`: removes every item.
#[verifier::external_body]
pub(crate) fn region_vec_clear(v: heapless::Vec<MemoryRegion, 128>) -> (r: heapless::Vec<MemoryRegion, 128>)
    ensures
        region_list(r) == Seq::<MemoryRegion>::empty(),
{
    let mut v = v;
    v.clear();
    v
}

/// `heapless::Vec::push`: appends `item` when the list holds fewer than 128
/// items, else hands `item` back and leaves the list unchanged.
#[verifier::external_body]
pub(crate) fn region_vec_push(v: heapless::Vec<MemoryRegion, 128>, item: MemoryRegion) -> (r: RegionVecPush)
    ensures
        r.res is Ok <==> region_list(v).len() < 128,
        r.res is Ok ==> region_list(r.list) == region_list(v).push(item),
        r.res is Err ==> region_list(r.list) == region_list(v),
        r.res is Err ==> r.res->Err_0 == item,
{
    let mut v = v;
    let res = v.push(item);
    RegionVecPush { list: v, res }
}

/// `heapless::Vec::extend_from_slice`: appends all of `other` when the sum of
/// the lengths is at most 128, else changes nothing and fails.
#[verifier::external_body]
pub(crate) fn region_vec_extend_from_slice(v: heapless::Vec<MemoryRegion, 128>, other: &[MemoryRegion]) -> (r: RegionVecExtend)
    ensures
        r.res is Ok <==> region_list(v).len() + other@.len() <= 128,
        r.res is Ok ==> region_list(r.list) == region_list(v) + other@,
        r.res is Err ==> region_list(r.list) == region_list(v),
{
    let mut v = v;
    let res = v.extend_from_slice(other);
    RegionVecExtend { list: v, res }
}

/// The items held by a `heapless::Vec<(usize, usize), 64>`, in order.
pub uninterp spec fn range_list64(v: heapless::Vec<(usize, usize), 64>) -> Seq<(usize, usize)>;

/// A `heapless::Vec<(usize, usize), 64>` after a push, and the result of the push.
pub struct Ranges64Push {
    pub list: heapless::Vec<(usize, usize), 64>,
    pub res: Result<(), (usize, usize)>,
}

/// `heapless::Vec::new`: an empty list.
#[verifier::external_body]
pub(crate) fn ranges64_new() -> (r: heapless::Vec<(usize, usize), 64>)
    ensures
        range_list64(r) == Seq::<(usize, usize)>::empty(),
{
    heapless::Vec::new()
}

/// `heapless::Vec::as_slice`: the held items, in order; the list holds at
/// most its capacity.
#[verifier::external_body]
pub(crate) fn ranges64_as_slice(v: &heapless::Vec<(usize, usize), 64>) -> (r: &[(usize, usize)])
    ensures
        r@ == range_list64(*v),
        r@.len() <= 64,
{
    v.as_slice()
}

/// `heapless::Vec::push`: appends `item` when the list holds fewer than 64
/// items, else hands `item` back and leaves the list unchanged.
#[verifier::external_body]
pub(crate) fn ranges64_push(v: heapless::Vec<(usize, usize), 64>, item: (usize, usize)) -> (r: Ranges64Push)
    ensures
        r.res is Ok <==> range_list64(v).len() < 64,
        r.res is Ok ==> range_list64(r.list) == range_list64(v).push(item),
        r.res is Err ==> range_list64(r.list) == range_list64(v),
        r.res is Err ==> r.res->Err_0 == item,
{
    let mut v = v;
    let res = v.push(item);
    Ranges64Push { list: v, res }
}

/// The items held by a `heapless::Vec<(usize, usize), 32>`, in order.
pub uninterp spec fn range_list32(v: heapless::Vec<(usize, usize), 32>) -> Seq<(usize, usize)>;

/// A `heapless::Vec<(usize, usize), 32>` after a push, and the result of the push.
pub struct Ranges32Push {
    pub list: heapless::Vec<(usize, usize), 32>,
    pub res: Result<(), (usize, usize)>,
}

/// `heapless::Vec::new`: an empty list.
#[verifier::external_body]
pub(crate) fn ranges32_new() -> (r: heapless::Vec<(usize, usize), 32>)
    ensures
        range_list32(r) == Seq::<(usize, usize)>::empty(),
{
    heapless::Vec::new()
}

/// `heapless::Vec::as_slice`: the held items, in order; the list holds at
/// most its capacity.
#[verifier::external_body]
pub(crate) fn ranges32_as_slice(v: &heapless::Vec<(usize, usize), 32>) -> (r: &[(usize, usize)])
    ensures
        r@ == range_list32(*v),
        r@.len() <= 32,
{
    v.as_slice()
}

/// `heapless::Vec::push`: appends `item` when the list holds fewer than 32
/// items, else hands `item` back and leaves the list unchanged.
#[verifier::external_body]
pub(crate) fn ranges32_push(v: heapless::Vec<(usize, usize), 32>, item: (usize, usize)) -> (r: Ranges32Push)
    ensures
        r.res is Ok <==> range_list32(v).len() < 32,
        r.res is Ok ==> range_list32(r.list) == range_list32(v).push(item),
        r.res is Err ==> range_list32(r.list) == range_list32(v),
        r.res is Err ==> r.res->Err_0 == item,
{
    let mut v = v;
    let res = v.push(item);
    Ranges32Push { list: v, res }
}

/// The items held by a `heapless::Vec<(usize, usize), 16>`, in order.
pub uninterp spec fn range_list16(v: heapless::Vec<(usize, usize), 16>) -> Seq<(usize, usize)>;

/// A `heapless::Vec<(usize, usize), 16>` after a push, and the result of the push.
pub struct Ranges16Push {
    pub list: heapless::Vec<(usize, usize), 16>,
    pub res: Result<(), (usize, usize)>,
}

/// `heapless::Vec::new`: an empty list.
#[verifier::external_body]
pub(crate) fn ranges16_new() -> (r: heapless::Vec<(usize, usize), 16>)
    ensures
        range_list16(r) == Seq::<(usize, usize)>::empty(),
{
    heapless::Vec::new()
}

/// `heapless::Vec::as_slice`: the held items, in order; the list holds at
/// most its capacity.
#[verifier::external_body]
pub(crate) fn ranges16_as_slice(v: &heapless::Vec<(usize, usize), 16>) -> (r: &[(usize, usize)])
    ensures
        r@ == range_list16(*v),
        r@.len() <= 16,
{
    v.as_slice()
}

/// `heapless::Vec::push`: appends `item` when the list holds fewer than 16
/// items, else hands `item` back and leaves the list unchanged.
#[verifier::external_body]
pub(crate) fn ranges16_push(v: heapless::Vec<(usize, usize), 16>, item: (usize, usize)) -> (r: Ranges16Push)
    ensures
        r.res is Ok <==> range_list16(v).len() < 16,
        r.res is Ok ==> range_list16(r.list) == range_list16(v).push(item),
        r.res is Err ==> range_list16(r.list) == range_list16(v),
        r.res is Err ==> r.res->Err_0 == item,
{
    let mut v = v;
    let res = v.push(item);
    Ranges16Push { list: v, res }
}

/// The items held by a `heapless::Vec<MemoryRegion, 8>`, in order.
pub uninterp spec fn region_list8(v: heapless::Vec<MemoryRegion, 8>) -> Seq<MemoryRegion>;

/// A `heapless::Vec<MemoryRegion, 8>` after a push, and the result of the push.
pub struct Regions8Push {
    pub list: heapless::Vec<MemoryRegion, 8>,
    pub res: Result<(), MemoryRegion>,
}

/// `heapless::Vec::new`: an empty list.
#[verifier::external_body]
pub(crate) fn regions8_new() -> (r: heapless::Vec<MemoryRegion, 8>)
    ensures
        region_list8(r) == Seq::<MemoryRegion>::empty(),
{
    heapless::Vec::new()
}

/// `heapless::Vec::as_slice`: the held items, in order; the list holds at
/// most its capacity.
#[verifier::external_body]
pub(crate) fn regions8_as_slice(v: &heapless::Vec<MemoryRegion, 8>) -> (r: &[MemoryRegion])
    ensures
        r@ == region_list8(*v),
        r@.len() <= 8,
{
    v.as_slice()
}

/// `heapless::Vec::push`: appends `item` when the list holds fewer than 8
/// items, else hands `item` back and leaves the list unchanged.
#[verifier::external_body]
pub(crate) fn regions8_push(v: heapless::Vec<MemoryRegion, 8>, item: MemoryRegion) -> (r: Regions8Push)
    ensures
        r.res is Ok <==> region_list8(v).len() < 8,
        r.res is Ok ==> region_list8(r.list) == region_list8(v).push(item),
        r.res is Err ==> region_list8(r.list) == region_list8(v),
        r.res is Err ==> r.res->Err_0 == item,
{
    let mut v = v;
    let res = v.push(item);
    Regions8Push { list: v, res }
}

} // verus!
