//! Reading from the front of a run of bytes.
use vstd::prelude::*;

use crate::error::{ErrorKind, IoError, IoErrorView};

verus! {

/// The error of a read that wants more bytes than there are.
pub open spec fn nothing_left() -> IoErrorView {
    IoErrorView { kind: ErrorKind::UnexpectedEof, message: "failed to fill whole buffer"@ }
}

/// Takes the first `n` bytes off a run of bytes. Where there are fewer, they
/// are all consumed.
pub fn read_exact<'a>(reader: &mut &'a [u8], n: usize) -> (res: Result<&'a [u8], IoError>)
    ensures
        n <= old(reader)@.len() ==> {
            &&& res is Ok
            &&& res->Ok_0@ == old(reader)@.take(n as int)
            &&& final(reader)@ == old(reader)@.skip(n as int)
        },
        n > old(reader)@.len() ==> {
            &&& res is Err
            &&& res->Err_0@ == nothing_left()
            &&& final(reader)@ == Seq::<u8>::empty()
        },
{
    let bytes: &'a [u8] = *reader;
    let size: usize = bytes.len();
    if n > size {
        *reader = vstd::slice::slice_subrange(bytes, size, size);
        assert(reader@ =~= Seq::<u8>::empty());
        return Err(IoError::new(ErrorKind::UnexpectedEof, "failed to fill whole buffer"));
    }
    *reader = vstd::slice::slice_subrange(bytes, n, size);
    let front = vstd::slice::slice_subrange(bytes, 0, n);
    assert(front@ =~= bytes@.take(n as int));
    Ok(front)
}

} // verus!
