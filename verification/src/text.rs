//! NUL-terminated strings stored in buffers.

use vstd::prelude::*;
use vstd::utf8::{encode_utf8, valid_utf8};

use crate::error::VolitionError;

verus! {

/// The index of the first NUL byte at or after `off`, if there is one.
pub open spec fn spec_nul_index(buf: Seq<u8>, off: int) -> Option<int>
    decreases buf.len() - off,
{
    if off < 0 || off >= buf.len() {
        None
    } else if buf[off] == 0 {
        Some(off)
    } else {
        spec_nul_index(buf, off + 1)
    }
}

/// Reading the string that starts at `off`: the bytes up to the first NUL, which must exist
/// and be UTF-8.
pub open spec fn spec_cstr_at(buf: Seq<u8>, off: int) -> Result<Seq<u8>, VolitionError> {
    match spec_nul_index(buf, off) {
        None => Err(VolitionError::MissingNullTerminator { offset: off as usize }),
        Some(end) => if valid_utf8(buf.subrange(off, end)) {
            Ok(buf.subrange(off, end))
        } else {
            Err(VolitionError::InvalidUtf8 { offset: off as usize })
        },
    }
}

/// Calls `std::str::from_utf8`, which accepts exactly the byte slices that are UTF-8 and then
/// returns the string whose UTF-8 encoding is those bytes.
#[verifier::external_body]
fn str_from_utf8(bytes: &[u8]) -> (r: Option<&str>)
    ensures
        r is Some <==> valid_utf8(bytes@),
        r matches Some(s) ==> encode_utf8(s@) == bytes@,
{
    std::str::from_utf8(bytes).ok()
}

/// The first NUL byte at or after `off` lies inside the buffer, at or after `off`, and holds 0.
pub proof fn lemma_nul_index_bounds(buf: Seq<u8>, off: int)
    ensures
        spec_nul_index(buf, off) matches Some(e) ==> 0 <= off <= e < buf.len() && buf[e] == 0,
    decreases buf.len() - off,
{
    if 0 <= off < buf.len() && buf[off] != 0 {
        lemma_nul_index_bounds(buf, off + 1);
    }
}

proof fn lemma_nul_index_skip(buf: Seq<u8>, off: int, k: int)
    requires
        0 <= off <= k <= buf.len(),
        forall|j: int| off <= j < k ==> buf[j] != 0,
    ensures
        spec_nul_index(buf, off) == spec_nul_index(buf, k),
    decreases k - off,
{
    if off < k {
        lemma_nul_index_skip(buf, off + 1, k);
    }
}

/// Reads the NUL-terminated string that starts at `buf[off]`.
pub fn read_cstr(buf: &[u8], off: usize) -> (r: Result<&str, VolitionError>)
    ensures
        match spec_cstr_at(buf@, off as int) {
            Ok(b) => r is Ok && encode_utf8(r->Ok_0@) == b,
            Err(e) => r == Err::<&str, VolitionError>(e),
        },
        r is Ok ==> off + encode_utf8(r->Ok_0@).len() < buf@.len(),
{
    proof {
        lemma_nul_index_bounds(buf@, off as int);
    }
    if off >= buf.len() {
        return Err(VolitionError::MissingNullTerminator { offset: off });
    }
    let mut k = off;
    while k < buf.len() && buf[k] != 0
        invariant
            off <= k <= buf@.len(),
            forall|j: int| off <= j < k ==> buf@[j] != 0,
        decreases buf@.len() - k,
    {
        k = k + 1;
    }
    proof {
        lemma_nul_index_skip(buf@, off as int, k as int);
    }
    if k == buf.len() {
        return Err(VolitionError::MissingNullTerminator { offset: off });
    }
    let bytes = &buf[off..k];
    match str_from_utf8(bytes) {
        None => Err(VolitionError::InvalidUtf8 { offset: off }),
        Some(s) => Ok(s),
    }
}

} // verus!
