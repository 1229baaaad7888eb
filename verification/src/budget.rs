//! Charging buffer growth against a retained-capacity ceiling.
//!
//! Capacities come from the allocator, so each one enters the arithmetic as
//! a value read at run time; the decisions made from those values are exact.

use vstd::prelude::*;
use std::collections::TryReserveError;
use crate::types::StreamingError;

verus! {

/// `x` capped at `usize::MAX`: what a chain of saturating additions of
/// non-negative terms that sum to `x` gives.
pub open spec fn saturated(x: int) -> int {
    if x > usize::MAX { usize::MAX as int } else { x }
}

/// The capacity of a vector. Calls `Vec::capacity`. The standard library
/// documents that the capacity is at least the length and that a vector
/// never allocates more than `isize::MAX` bytes; the value itself depends on
/// the allocator and is left open.
#[verifier::external_body]
pub(crate) fn vec_capacity<T>(v: &Vec<T>) -> (c: usize)
    ensures
        c >= v@.len(),
        vstd::layout::size_of::<T>() > 0 ==> c * vstd::layout::size_of::<T>() <= isize::MAX,
{
    v.capacity()
}

/// Calls `Vec::try_reserve_exact`, which leaves the elements unchanged
/// whether or not the allocation succeeds. The capacity reached is left open.
#[verifier::external_body]
pub(crate) fn vec_try_reserve_exact<T>(v: &mut Vec<T>, additional: usize) -> (r: Result<(), TryReserveError>)
    ensures
        final(v)@ == old(v)@,
{
    v.try_reserve_exact(additional)
}

/// What to do before growing a buffer of length `len` and capacity
/// `capacity` to `required` bytes when `retained` bytes of capacity are
/// already charged against `limit`: nothing (`Ok(None)`), reserve the given
/// number of bytes beyond the length (`Ok(Some(n))`), or refuse.
pub open spec fn reserve_plan(required: int, capacity: int, len: int, retained: int, limit: int) -> Result<Option<int>, StreamingError> {
    if required <= capacity {
        Ok(None)
    } else if required > isize::MAX {
        Err(StreamingError::CapacityOverflow)
    } else if retained + (required - capacity) > usize::MAX {
        Err(StreamingError::CapacityOverflow)
    } else if retained + (required - capacity) > limit {
        Err(StreamingError::BufferLimitExceeded)
    } else {
        Ok(Some(required - len))
    }
}

/// Whether the capacity actually obtained still fits the ceiling once the
/// old capacity is replaced by the new one in the retained total.
pub open spec fn reserve_settlement(retained: int, old_capacity: int, new_capacity: int, limit: int) -> Result<(), StreamingError> {
    if retained < old_capacity {
        Err(StreamingError::CapacityOverflow)
    } else if retained - old_capacity + new_capacity > usize::MAX {
        Err(StreamingError::CapacityOverflow)
    } else if retained - old_capacity + new_capacity > limit {
        Err(StreamingError::BufferLimitExceeded)
    } else {
        Ok(())
    }
}

/// How a request to grow a buffer from `before` (capacity `capacity`) to
/// `required` bytes ends, `granted` being the capacity read after an
/// allocation: a request the plan settles or refuses ends there, before any
/// allocation, with the buffer untouched; otherwise the allocation is either
/// refused (`AllocationFailed`, buffer untouched) or granted and then
/// settled against the ceiling, an overshooting buffer being dropped.
pub open spec fn reserve_outcome(r: Result<(), StreamingError>, before: Seq<u8>, after: Seq<u8>, required: int, capacity: int,
    granted: int, retained: int, limit: int) -> bool {
    match reserve_plan(required, capacity, before.len() as int, retained, limit) {
        Ok(None) => r is Ok && after == before,
        Err(e) => r == Err::<(), StreamingError>(e) && after == before,
        Ok(Some(_)) => {
            ||| r == Err::<(), StreamingError>(StreamingError::AllocationFailed) && after == before
            ||| granted >= before.len() && r == reserve_settlement(retained, capacity, granted, limit)
                && (r is Ok ==> after == before) && (r is Err ==> after.len() == 0)
        },
    }
}

/// The same for a vector of `item_size`-byte elements, counted in bytes
/// (`old_bytes` and `granted` being the capacities in bytes read before and
/// after the allocation).
pub open spec fn vec_reserve_outcome<T>(r: Result<(), StreamingError>, before: Seq<T>, after: Seq<T>, required: int, capacity: int,
    item_size: int, old_bytes: int, granted: int, retained: int, limit: int) -> bool {
    if required <= capacity {
        r is Ok && after == before
    } else {
        match vec_reserve_plan(required, capacity, item_size, old_bytes, retained, limit) {
            Err(e) => r == Err::<(), StreamingError>(e) && after == before,
            Ok(()) => {
                ||| r == Err::<(), StreamingError>(StreamingError::AllocationFailed) && after == before
                ||| r == reserve_settlement(retained, old_bytes, granted, limit)
                    && (r is Ok ==> after == before) && (r is Err ==> after.len() == 0)
            },
        }
    }
}

pub fn plan_reserve(required: usize, capacity: usize, len: usize, retained: usize, limit: usize) -> (r: Result<Option<usize>, StreamingError>)
    requires
        len <= capacity,
    ensures
        match r {
            Ok(Some(n)) => reserve_plan(required as int, capacity as int, len as int, retained as int, limit as int) == Ok::<Option<int>, StreamingError>(Some(n as int)),
            Ok(None) => reserve_plan(required as int, capacity as int, len as int, retained as int, limit as int) == Ok::<Option<int>, StreamingError>(None),
            Err(e) => reserve_plan(required as int, capacity as int, len as int, retained as int, limit as int) == Err::<Option<int>, StreamingError>(e),
        },
{
    if required <= capacity {
        return Ok(None);
    }
    if required > isize::MAX as usize {
        return Err(StreamingError::CapacityOverflow);
    }
    let growth = required - capacity;
    let total = match retained.checked_add(growth) {
        Some(t) => t,
        None => return Err(StreamingError::CapacityOverflow),
    };
    if total > limit {
        return Err(StreamingError::BufferLimitExceeded);
    }
    Ok(Some(required - len))
}

pub fn settle_reserve(retained: usize, old_capacity: usize, new_capacity: usize, limit: usize) -> (r: Result<(), StreamingError>)
    ensures
        r == reserve_settlement(retained as int, old_capacity as int, new_capacity as int, limit as int),
{
    if retained < old_capacity {
        return Err(StreamingError::CapacityOverflow);
    }
    let total = match (retained - old_capacity).checked_add(new_capacity) {
        Some(t) => t,
        None => return Err(StreamingError::CapacityOverflow),
    };
    if total > limit {
        return Err(StreamingError::BufferLimitExceeded);
    }
    Ok(())
}

/// What follows the allocation step: a refused allocation is reported as
/// `AllocationFailed`; a granted one is checked against the ceiling with the
/// capacity actually obtained.
pub fn settle_after_reserve(reserved: bool, retained: usize, old_capacity: usize, new_capacity: usize, limit: usize)
    -> (r: Result<(), StreamingError>)
    ensures
        !reserved ==> r == Err::<(), StreamingError>(StreamingError::AllocationFailed),
        reserved ==> r == reserve_settlement(retained as int, old_capacity as int, new_capacity as int, limit as int),
{
    if !reserved {
        return Err(StreamingError::AllocationFailed);
    }
    settle_reserve(retained, old_capacity, new_capacity, limit)
}

/// The allocation step of `reserve_accounted_with`: it may grow the
/// capacity or fail, and keeps the elements either way.
pub trait ReserveStrategy<T> {
    fn reserve(&self, value: &mut Vec<T>, additional: usize) -> (r: Result<(), TryReserveError>)
        ensures
            final(value)@ == old(value)@;
}

/// Reserves exactly what is asked, through `Vec::try_reserve_exact`.
pub struct ExactReserve;

impl<T> ReserveStrategy<T> for ExactReserve {
    fn reserve(&self, value: &mut Vec<T>, additional: usize) -> (r: Result<(), TryReserveError>)
    {
        vec_try_reserve_exact(value, additional)
    }
}

/// Grows `value` so that it holds `required` bytes without reallocating,
/// charging the growth against `limit` on top of `retained` (which counts
/// `value`'s own capacity). The request is checked before allocating; the
/// capacity the allocator actually grants is checked after, and a buffer
/// that overshoots is dropped.
pub fn reserve_accounted_with<R: ReserveStrategy<u8>>(value: &mut Vec<u8>, required: usize, retained: usize, limit: usize, strategy: &R) -> (r: Result<(), StreamingError>)
    ensures
        required <= old(value)@.len() ==> r is Ok && final(value)@ == old(value)@,
        required > isize::MAX && required > old(value)@.len() ==> r == Err::<(), StreamingError>(StreamingError::CapacityOverflow),
        r is Ok ==> final(value)@ == old(value)@,
        r == Err::<(), StreamingError>(StreamingError::AllocationFailed) ==> final(value)@ == old(value)@,
        r is Err ==> final(value)@ == old(value)@ || final(value)@.len() == 0,
        exists|capacity: int, granted: int| capacity >= old(value)@.len()
            && #[trigger] reserve_outcome(r, old(value)@, final(value)@, required as int, capacity, granted, retained as int, limit as int),
{
    let capacity = vec_capacity(value);
    proof { assert(vstd::layout::size_of::<u8>() == 1); }
    let additional = match plan_reserve(required, capacity, value.len(), retained, limit) {
        Ok(None) => {
            assert(reserve_outcome(Ok(()), value@, value@, required as int, capacity as int, 0, retained as int, limit as int));
            return Ok(());
        },
        Ok(Some(n)) => n,
        Err(e) => {
            assert(reserve_outcome(Err(e), value@, value@, required as int, capacity as int, 0, retained as int, limit as int));
            return Err(e);
        },
    };
    let ghost before = value@;
    let reserved = strategy.reserve(value, additional).is_ok();
    let new_capacity = if reserved { vec_capacity(value) } else { capacity };
    match settle_after_reserve(reserved, retained, capacity, new_capacity, limit) {
        Ok(()) => {
            assert(reserve_outcome(Ok(()), before, value@, required as int, capacity as int, new_capacity as int, retained as int, limit as int));
            Ok(())
        },
        Err(e) => {
            if reserved {
                *value = Vec::new();
            }
            assert(reserve_outcome(Err(e), before, value@, required as int, capacity as int, new_capacity as int, retained as int, limit as int));
            Err(e)
        },
    }
}

/// `reserve_accounted_with` using `Vec::try_reserve_exact`; the bytes are
/// kept on success and on a refused request.
pub fn reserve_accounted(value: &mut Vec<u8>, required: usize, retained: usize, limit: usize) -> (r: Result<(), StreamingError>)
    ensures
        required <= old(value)@.len() ==> r is Ok,
        required > isize::MAX && required > old(value)@.len() ==> r == Err::<(), StreamingError>(StreamingError::CapacityOverflow),
        r is Ok ==> final(value)@ == old(value)@,
        r is Err ==> final(value)@ == old(value)@ || final(value)@.len() == 0,
        exists|capacity: int, granted: int| capacity >= old(value)@.len()
            && #[trigger] reserve_outcome(r, old(value)@, final(value)@, required as int, capacity, granted, retained as int, limit as int),
{
    let capacity = vec_capacity(value);
    proof { assert(vstd::layout::size_of::<u8>() == 1); }
    let additional = match plan_reserve(required, capacity, value.len(), retained, limit) {
        Ok(None) => {
            assert(reserve_outcome(Ok(()), value@, value@, required as int, capacity as int, 0, retained as int, limit as int));
            return Ok(());
        },
        Ok(Some(n)) => n,
        Err(e) => {
            assert(reserve_outcome(Err(e), value@, value@, required as int, capacity as int, 0, retained as int, limit as int));
            return Err(e);
        },
    };
    let ghost before = value@;
    match vec_try_reserve_exact(value, additional) {
        Ok(()) => {},
        Err(_) => {
            assert(reserve_outcome(Err(StreamingError::AllocationFailed), before, value@, required as int, capacity as int, 0,
                retained as int, limit as int));
            return Err(StreamingError::AllocationFailed);
        },
    }
    let new_capacity = vec_capacity(value);
    match settle_reserve(retained, capacity, new_capacity, limit) {
        Ok(()) => {
            assert(reserve_outcome(Ok(()), before, value@, required as int, capacity as int, new_capacity as int, retained as int, limit as int));
            Ok(())
        },
        Err(e) => {
            *value = Vec::new();
            assert(reserve_outcome(Err(e), before, value@, required as int, capacity as int, new_capacity as int, retained as int, limit as int));
            Err(e)
        },
    }
}

/// Bytes of capacity a vector holds: its capacity times its element size, saturating.
pub fn vector_capacity_bytes<T>(value: &Vec<T>) -> (r: usize)
    ensures
        r >= value@.len() * vstd::layout::size_of::<T>(),
{
    let c = vec_capacity(value);
    let size = core::mem::size_of::<T>();
    let len = value.len();
    assert(c * size >= len * size) by (nonlinear_arith)
        requires
            c >= len,
            size >= 0;
    match c.checked_mul(size) {
        Some(b) => b,
        None => {
            assert(len * size <= usize::MAX) by (nonlinear_arith)
                requires
                    c >= len,
                    size > 0 ==> c * size <= isize::MAX,
                    size == 0 ==> len * size == 0;
            usize::MAX
        },
    }
}

/// The byte-counting plan for growing a vector of `item_size`-byte elements
/// to `required` elements (see `reserve_plan`).
pub open spec fn vec_reserve_plan(required: int, capacity: int, item_size: int, old_bytes: int, retained: int, limit: int) -> Result<(), StreamingError> {
    if required <= capacity {
        Ok(())
    } else if item_size != 0 && required > (isize::MAX as int) / item_size {
        Err(StreamingError::CapacityOverflow)
    } else if required * item_size > usize::MAX || required * item_size < old_bytes {
        Err(StreamingError::CapacityOverflow)
    } else if retained + (required * item_size - old_bytes) > usize::MAX {
        Err(StreamingError::CapacityOverflow)
    } else if retained + (required * item_size - old_bytes) > limit {
        Err(StreamingError::BufferLimitExceeded)
    } else {
        Ok(())
    }
}

fn plan_vec_reserve(required: usize, capacity: usize, item_size: usize, old_bytes: usize, retained: usize, limit: usize) -> (r: Result<(), StreamingError>)
    ensures
        r == vec_reserve_plan(required as int, capacity as int, item_size as int, old_bytes as int, retained as int, limit as int),
{
    if required <= capacity {
        return Ok(());
    }
    if item_size != 0 && required > (isize::MAX as usize) / item_size {
        return Err(StreamingError::CapacityOverflow);
    }
    let requested = match required.checked_mul(item_size) {
        Some(b) => b,
        None => return Err(StreamingError::CapacityOverflow),
    };
    let growth = match requested.checked_sub(old_bytes) {
        Some(g) => g,
        None => return Err(StreamingError::CapacityOverflow),
    };
    match retained.checked_add(growth) {
        Some(t) => {
            if t > limit {
                return Err(StreamingError::BufferLimitExceeded);
            }
        },
        None => return Err(StreamingError::CapacityOverflow),
    }
    Ok(())
}

/// `reserve_accounted_with` for a vector of any element type, counting bytes.
pub fn reserve_vec_accounted_with<T, R: ReserveStrategy<T>>(value: &mut Vec<T>, required: usize, retained: usize, limit: usize, strategy: &R) -> (r: Result<(), StreamingError>)
    ensures
        vstd::layout::size_of::<T>() > 0 && required > (isize::MAX as int) / (vstd::layout::size_of::<T>() as int)
            ==> r == Err::<(), StreamingError>(StreamingError::CapacityOverflow) && final(value)@ == old(value)@,
        required <= old(value)@.len() ==> r is Ok && final(value)@ == old(value)@,
        r is Ok ==> final(value)@ == old(value)@,
        r == Err::<(), StreamingError>(StreamingError::AllocationFailed) ==> final(value)@ == old(value)@,
        r is Err ==> final(value)@ == old(value)@ || final(value)@.len() == 0,
        exists|capacity: int, old_bytes: int, granted: int| capacity >= old(value)@.len()
            && old_bytes >= old(value)@.len() * vstd::layout::size_of::<T>()
            && #[trigger] vec_reserve_outcome(r, old(value)@, final(value)@, required as int, capacity,
                vstd::layout::size_of::<T>() as int, old_bytes, granted, retained as int, limit as int),
{
    let capacity = vec_capacity(value);
    let item_size = core::mem::size_of::<T>();
    proof {
        if item_size > 0 {
            assert(capacity <= (isize::MAX as int) / (item_size as int)) by (nonlinear_arith)
                requires
                    capacity * item_size <= isize::MAX,
                    item_size > 0;
        }
    }
    let old_bytes = vector_capacity_bytes(value);
    if required <= capacity {
        assert(vec_reserve_outcome(Ok(()), value@, value@, required as int, capacity as int, item_size as int, old_bytes as int, 0,
            retained as int, limit as int));
        return Ok(());
    }
    match plan_vec_reserve(required, capacity, item_size, old_bytes, retained, limit) {
        Ok(()) => {},
        Err(e) => {
            assert(vec_reserve_outcome(Err(e), value@, value@, required as int, capacity as int, item_size as int, old_bytes as int, 0,
                retained as int, limit as int));
            return Err(e);
        },
    }
    let ghost before = value@;
    let reserved = strategy.reserve(value, required - value.len()).is_ok();
    let new_bytes = if reserved { vector_capacity_bytes(value) } else { old_bytes };
    match settle_after_reserve(reserved, retained, old_bytes, new_bytes, limit) {
        Ok(()) => {
            assert(vec_reserve_outcome(Ok(()), before, value@, required as int, capacity as int, item_size as int, old_bytes as int,
                new_bytes as int, retained as int, limit as int));
            Ok(())
        },
        Err(e) => {
            if reserved {
                *value = Vec::new();
            }
            assert(vec_reserve_outcome(Err(e), before, value@, required as int, capacity as int, item_size as int, old_bytes as int,
                new_bytes as int, retained as int, limit as int));
            Err(e)
        },
    }
}

/// `reserve_accounted` for a vector of any element type, counting bytes.
pub fn reserve_vec_accounted<T>(value: &mut Vec<T>, required: usize, retained: usize, limit: usize) -> (r: Result<(), StreamingError>)
    ensures
        vstd::layout::size_of::<T>() > 0 && required > (isize::MAX as int) / (vstd::layout::size_of::<T>() as int)
            ==> r == Err::<(), StreamingError>(StreamingError::CapacityOverflow) && final(value)@ == old(value)@,
        required <= old(value)@.len() ==> r is Ok,
        r is Ok ==> final(value)@ == old(value)@,
        r is Err ==> final(value)@ == old(value)@ || final(value)@.len() == 0,
        exists|capacity: int, old_bytes: int, granted: int| capacity >= old(value)@.len()
            && old_bytes >= old(value)@.len() * vstd::layout::size_of::<T>()
            && #[trigger] vec_reserve_outcome(r, old(value)@, final(value)@, required as int, capacity,
                vstd::layout::size_of::<T>() as int, old_bytes, granted, retained as int, limit as int),
{
    let capacity = vec_capacity(value);
    let item_size = core::mem::size_of::<T>();
    proof {
        if item_size > 0 {
            assert(capacity <= (isize::MAX as int) / (item_size as int)) by (nonlinear_arith)
                requires
                    capacity * item_size <= isize::MAX,
                    item_size > 0;
        }
    }
    let old_bytes = vector_capacity_bytes(value);
    if required <= capacity {
        assert(vec_reserve_outcome(Ok(()), value@, value@, required as int, capacity as int, item_size as int, old_bytes as int, 0,
            retained as int, limit as int));
        return Ok(());
    }
    match plan_vec_reserve(required, capacity, item_size, old_bytes, retained, limit) {
        Ok(()) => {},
        Err(e) => {
            assert(vec_reserve_outcome(Err(e), value@, value@, required as int, capacity as int, item_size as int, old_bytes as int, 0,
                retained as int, limit as int));
            return Err(e);
        },
    }
    let ghost before = value@;
    match vec_try_reserve_exact(value, required - value.len()) {
        Ok(()) => {},
        Err(_) => {
            assert(vec_reserve_outcome(Err(StreamingError::AllocationFailed), before, value@, required as int, capacity as int,
                item_size as int, old_bytes as int, 0, retained as int, limit as int));
            return Err(StreamingError::AllocationFailed);
        },
    }
    let new_bytes = vector_capacity_bytes(value);
    match settle_reserve(retained, old_bytes, new_bytes, limit) {
        Ok(()) => {
            assert(vec_reserve_outcome(Ok(()), before, value@, required as int, capacity as int, item_size as int, old_bytes as int,
                new_bytes as int, retained as int, limit as int));
            Ok(())
        },
        Err(e) => {
            *value = Vec::new();
            assert(vec_reserve_outcome(Err(e), before, value@, required as int, capacity as int, item_size as int, old_bytes as int,
                new_bytes as int, retained as int, limit as int));
            Err(e)
        },
    }
}

} // verus!
