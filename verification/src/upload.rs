//! The two decisions of the test-data upload path: how large each uploaded
//! object is, and how large the next write of a chunked upload is.

use vstd::prelude::*;

use crate::error::BenchError;

verus! {

/// Bytes written per chunk of a chunked upload.
pub const UPLOAD_CHUNK_BYTES: u64 = 10 * 1024 * 1024;

/// Splits a total upload size evenly over the objects. The size must divide
/// exactly; an uneven split is an invalid layout.
pub fn size_per_object(total_size: u64, num_objects: u64) -> (r: Result<u64, BenchError>)
    ensures
        (r is Ok) <==> (num_objects >= 1 && total_size % num_objects == 0),
        r is Ok ==> r->Ok_0 == total_size / num_objects,
        r is Err ==> r == Result::<u64, BenchError>::Err(BenchError::InvalidLayoutError),
{
    if num_objects == 0 {
        return Err(BenchError::InvalidLayoutError);
    }
    if total_size % num_objects != 0 {
        return Err(BenchError::InvalidLayoutError);
    }
    Ok(total_size / num_objects)
}

/// How many bytes the next chunk of a chunked upload writes: a whole chunk,
/// or whatever remains of the object.
pub fn next_chunk_len(size: u64, written: u64) -> (r: u64)
    requires
        written <= size,
    ensures
        r == vstd::math::min((size - written) as int, UPLOAD_CHUNK_BYTES as int),
        written < size ==> r >= 1,
        written == size ==> r == 0,
{
    let remaining = size - written;
    if remaining < UPLOAD_CHUNK_BYTES {
        remaining
    } else {
        UPLOAD_CHUNK_BYTES
    }
}

} // verus!
