//! The last-error slot.
//!
//! It holds the message of the last failed call, or nothing; the host reads
//! it back through `fulgur_last_error_len` and `fulgur_last_error_copy`.
use crate::memory::{overwrite, LinearMemory};
use vstd::prelude::*;
use vstd::utf8::encode_utf8;

verus! {

/// The message of the last failed call; empty when the last call succeeded.
pub struct LastError {
    msg: String,
}

impl LastError {
    /// The message, as characters.
    pub closed spec fn message(&self) -> Seq<char> {
        self.msg@
    }

    /// The message, as the UTF-8 bytes the host reads.
    pub open spec fn message_bytes(&self) -> Seq<u8> {
        encode_utf8(self.message())
    }

    /// How many bytes of the message fit in `dst_len` bytes.
    pub open spec fn copy_len(&self, dst_len: int) -> int {
        if self.message_bytes().len() < dst_len {
            self.message_bytes().len() as int
        } else {
            dst_len
        }
    }

    /// An empty slot.
    pub fn new() -> (e: LastError)
        ensures
            e.message() == Seq::<char>::empty(),
    {
        LastError { msg: String::new() }
    }

    /// Replaces the message.
    pub fn set(&mut self, msg: &str)
        ensures
            final(self).message() == msg@,
    {
        self.msg = msg.to_owned();
    }

    /// Empties the slot.
    pub fn clear(&mut self)
        ensures
            final(self).message() == Seq::<char>::empty(),
    {
        self.msg = String::new();
    }

    /// Runs `f` on the message and returns what it returns.
    pub fn with<R, F: FnOnce(&str) -> R>(&self, f: F) -> (r: R)
        requires
            forall|s: &str| s@ == self.message() ==> f.requires((s,)),
        ensures
            exists|s: &str| s@ == self.message() && f.ensures((s,), r),
    {
        f(self.msg.as_str())
    }

    /// Copies as much of the message as fits in `dst_len` bytes into the
    /// memory at `dst_ptr`, and returns how many bytes it copied. When that is
    /// none, `dst_ptr` is not looked at.
    pub fn copy_impl(&self, mem: &mut LinearMemory, dst_ptr: usize, dst_len: usize) -> (n: usize)
        requires
            old(mem).wf(),
            self.copy_len(dst_len as int) == 0 || dst_ptr + self.copy_len(dst_len as int)
                <= old(mem).contents().len(),
        ensures
            n == self.copy_len(dst_len as int),
            final(mem).wf(),
            final(mem).limit() == old(mem).limit(),
            final(mem).live() == old(mem).live(),
            n == 0 ==> final(mem).contents() == old(mem).contents(),
            n > 0 ==> final(mem).contents() == overwrite(
                old(mem).contents(),
                dst_ptr as int,
                self.message_bytes().take(n as int),
            ),
    {
        let bytes = self.msg.as_str().as_bytes();
        let n = if bytes.len() < dst_len {
            bytes.len()
        } else {
            dst_len
        };
        if n > 0 {
            mem.write_bytes(dst_ptr, &bytes[0..n]);
        }
        n
    }
}

/// Length in bytes of the last error message, as a `u32` (the length taken
/// modulo 2^32, as a cast does).
pub fn fulgur_last_error_len(last: &LastError) -> (n: u32)
    ensures
        n == last.message_bytes().len() as u32,
{
    last.msg.as_str().as_bytes().len() as u32
}

/// ABI form of `copy_impl`: copies at most `dst_len` bytes of the last error
/// message to `dst_ptr` and returns how many it copied.
pub fn fulgur_last_error_copy(last: &LastError, mem: &mut LinearMemory, dst_ptr: u32, dst_len: u32) -> (n: u32)
    requires
        old(mem).wf(),
        last.copy_len(dst_len as int) == 0 || dst_ptr + last.copy_len(dst_len as int)
            <= old(mem).contents().len(),
    ensures
        n == last.copy_len(dst_len as int),
        final(mem).wf(),
        final(mem).limit() == old(mem).limit(),
        final(mem).live() == old(mem).live(),
        n == 0 ==> final(mem).contents() == old(mem).contents(),
        n > 0 ==> final(mem).contents() == overwrite(
            old(mem).contents(),
            dst_ptr as int,
            last.message_bytes().take(n as int),
        ),
{
    last.copy_impl(mem, dst_ptr as usize, dst_len as usize) as u32
}

} // verus!
