//! Decoding of compressed journal payloads: how large a buffer to offer the
//! decoder, and when to offer a larger one.

use vstd::prelude::*;

use crate::sys::{self, ErrorNumbers};

verus! {

/// The largest payload that a journal holds.
pub const DATA_SIZE_MAX: usize = 805_306_368;

/// The smallest buffer offered where the size is not known.
pub const FIRST_CAPACITY: usize = 1024;

/// Why a payload was not decoded.
#[derive(Debug, Clone, Copy, PartialEq, Eq, Structural)]
pub enum DecodeError {
    /// There is nothing to decode.
    Empty,
    /// The size could not be asked for; the error number.
    Query(i64),
    /// The decoder failed; the error number.
    Decode(i64),
    /// The payload is larger than a journal holds.
    TooLarge,
    /// The decoder claims to have written more than there was room for.
    Overrun,
    /// A size does not fit in memory.
    DoesNotFit,
}

/// A guess at the decoded size of `length` bytes.
pub open spec fn guess(length: int) -> int {
    if 2 * length < FIRST_CAPACITY {
        FIRST_CAPACITY as int
    } else if 2 * length > DATA_SIZE_MAX {
        DATA_SIZE_MAX as int
    } else {
        2 * length
    }
}

/// The buffer to begin with, from the decoder's answer to the question how
/// large the payload is: the size, or a negative error number.
pub open spec fn first_capacity(length: usize, queried: i64, numbers: ErrorNumbers) -> Result<usize, DecodeError> {
    if length == 0 {
        Err(DecodeError::Empty)
    } else if queried >= 0 {
        if queried > usize::MAX {
            Err(DecodeError::DoesNotFit)
        } else if queried > DATA_SIZE_MAX {
            Err(DecodeError::TooLarge)
        } else {
            Ok(queried as usize)
        }
    } else if queried == -numbers.nodata {
        Ok(guess(length as int) as usize)
    } else {
        Err(DecodeError::Query((-queried) as i64))
    }
}

/// The buffer to begin with, with the error numbers of this machine.
pub fn initial_capacity(length: usize, queried: i64) -> (r: Result<usize, DecodeError>)
    requires
        queried > i64::MIN,
    ensures
        exists|numbers: ErrorNumbers| numbers.on_linux() && r == #[trigger] first_capacity(length, queried, numbers),
{
    initial_capacity_with(length, queried, &sys::error_numbers())
}

/// The buffer to begin with, on a machine with the given error numbers.
pub fn initial_capacity_with(length: usize, queried: i64, numbers: &ErrorNumbers) -> (r: Result<usize, DecodeError>)
    requires
        queried > i64::MIN,
    ensures
        r == first_capacity(length, queried, *numbers),
{
    if length == 0 {
        return Err(DecodeError::Empty);
    }
    if queried >= 0 {
        if queried as u64 > usize::MAX as u64 {
            return Err(DecodeError::DoesNotFit);
        }
        if queried as usize > DATA_SIZE_MAX {
            return Err(DecodeError::TooLarge);
        }
        return Ok(queried as usize);
    }
    if queried == -(numbers.nodata as i64) {
        let doubled: usize = match length.checked_mul(2) {
            Some(doubled) => doubled,
            None => DATA_SIZE_MAX,
        };
        if doubled < FIRST_CAPACITY {
            return Ok(FIRST_CAPACITY);
        }
        if doubled > DATA_SIZE_MAX {
            return Ok(DATA_SIZE_MAX);
        }
        return Ok(doubled);
    }
    Err(DecodeError::Query(-queried))
}

/// What to do after the decoder ran.
#[derive(Debug, Clone, Copy, PartialEq, Eq, Structural)]
pub enum DecodeStep {
    /// The payload is complete; this many bytes.
    Done(usize),
    /// Try again with a buffer of this size.
    Grow(usize),
    /// Give up.
    Fail(DecodeError),
}

/// What to do after the decoder ran on a buffer of `capacity` bytes and
/// returned how many it wrote, or a negative error number.
pub open spec fn decoded_step(capacity: usize, decoded: i64, numbers: ErrorNumbers) -> DecodeStep {
    if decoded >= 0 {
        if decoded > usize::MAX {
            DecodeStep::Fail(DecodeError::DoesNotFit)
        } else if decoded > capacity {
            DecodeStep::Fail(DecodeError::Overrun)
        } else {
            DecodeStep::Done(decoded as usize)
        }
    } else if decoded != -numbers.nobufs {
        DecodeStep::Fail(DecodeError::Decode((-decoded) as i64))
    } else if capacity >= DATA_SIZE_MAX {
        DecodeStep::Fail(DecodeError::TooLarge)
    } else {
        DecodeStep::Grow(
            if 2 * capacity > DATA_SIZE_MAX {
                DATA_SIZE_MAX
            } else {
                (2 * capacity) as usize
            },
        )
    }
}

/// What to do after the decoder ran, with the error numbers of this machine.
pub fn decode_step(capacity: usize, decoded: i64) -> (r: DecodeStep)
    requires
        decoded > i64::MIN,
    ensures
        exists|numbers: ErrorNumbers| numbers.on_linux() && r == #[trigger] decoded_step(capacity, decoded, numbers),
{
    decode_step_with(capacity, decoded, &sys::error_numbers())
}

/// What to do after the decoder ran, on a machine with the given error numbers.
pub fn decode_step_with(capacity: usize, decoded: i64, numbers: &ErrorNumbers) -> (r: DecodeStep)
    requires
        decoded > i64::MIN,
    ensures
        r == decoded_step(capacity, decoded, *numbers),
{
    if decoded >= 0 {
        if decoded as u64 > usize::MAX as u64 {
            return DecodeStep::Fail(DecodeError::DoesNotFit);
        }
        if decoded as usize > capacity {
            return DecodeStep::Fail(DecodeError::Overrun);
        }
        return DecodeStep::Done(decoded as usize);
    }
    if decoded != -(numbers.nobufs as i64) {
        return DecodeStep::Fail(DecodeError::Decode(-decoded));
    }
    if capacity >= DATA_SIZE_MAX {
        return DecodeStep::Fail(DecodeError::TooLarge);
    }
    if capacity > DATA_SIZE_MAX / 2 {
        DecodeStep::Grow(DATA_SIZE_MAX)
    } else {
        DecodeStep::Grow(capacity * 2)
    }
}

/// The buffer to begin with is the size that the data names, up to the largest
/// that is allowed. Where it names none, it is twice the length of the data,
/// within bounds. Any other answer is an error.
pub proof fn law_the_buffer_to_begin_with(length: usize, queried: i64, numbers: ErrorNumbers)
    requires
        queried > i64::MIN,
    ensures
        ({
            let r = first_capacity(length, queried, numbers);
            let named = queried >= 0;
            let unnamed = queried < 0 && queried == -numbers.nodata;
            let doubled: int = 2 * length;
            &&& r == Err::<usize, DecodeError>(DecodeError::Empty) <==> length == 0
            &&& length > 0 && named && queried <= 805_306_368 ==> r is Ok && r->Ok_0 == queried
            &&& length > 0 && named && queried > 805_306_368 ==> r is Err
            &&& length > 0 && named && 805_306_368 < queried <= usize::MAX ==> r->Err_0 is TooLarge
            &&& length > 0 && unnamed ==> r is Ok && 1024 <= r->Ok_0 <= 805_306_368
            &&& length > 0 && unnamed && 1024 <= doubled <= 805_306_368 ==> r->Ok_0 == doubled
            &&& length > 0 && unnamed && doubled < 1024 ==> r->Ok_0 == 1024
            &&& length > 0 && unnamed && doubled > 805_306_368 ==> r->Ok_0 == 805_306_368
            &&& length > 0 && !named && !unnamed ==> r is Err && r->Err_0 is Query && r->Err_0->Query_0 == -queried
        }),
{
}

/// Decoding is done when what was decoded fits the buffer. A buffer that is too
/// small is doubled, up to the largest that is allowed. Anything else is an
/// error.
pub proof fn law_a_buffer_that_is_too_small_is_doubled(capacity: usize, decoded: i64, numbers: ErrorNumbers)
    requires
        decoded > i64::MIN,
    ensures
        ({
            let r = decoded_step(capacity, decoded, numbers);
            let small = decoded < 0 && decoded == -numbers.nobufs;
            &&& r is Done <==> 0 <= decoded <= capacity
            &&& r is Done ==> r->Done_0 == decoded
            &&& r is Grow <==> small && capacity < 805_306_368
            &&& r is Grow && 2 * capacity <= 805_306_368 ==> r->Grow_0 == 2 * capacity
            &&& r is Grow && 2 * capacity > 805_306_368 ==> r->Grow_0 == 805_306_368
            &&& small && capacity >= 805_306_368 ==> r is Fail && r->Fail_0 is TooLarge
            &&& decoded > capacity && decoded <= usize::MAX ==> r is Fail && r->Fail_0 is Overrun
            &&& decoded < 0 && !small ==> r is Fail && r->Fail_0 is Decode && r->Fail_0->Decode_0 == -decoded
        }),
{
}

} // verus!
