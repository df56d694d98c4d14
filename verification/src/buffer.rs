//! A fixed buffer of one 64-byte block, which collects message bytes until a whole block
//! can be processed.
use vstd::prelude::*;
use crate::spec::{hash_blocks, unprocessed};
use crate::engine::Engine256State;

verus! {

/// Copy all of `src` into `dst`, starting at index `start` of `dst`.
fn copy_memory(src: &[u8], dst: &mut [u8; 64], start: usize)
    requires
        start + src@.len() <= 64,
    ensures
        final(dst)@ == old(dst)@.take(start as int) + src@ + old(dst)@.skip(start + src@.len()),
{
    let mut j: usize = 0;
    while j < src.len()
        invariant
            start + src@.len() <= 64,
            dst@.len() == 64,
            j <= src@.len(),
            forall|i: int| 0 <= i < start ==> dst@[i] == old(dst)@[i],
            forall|i: int| 0 <= i < j ==> dst@[start + i] == src@[i],
            forall|i: int| start + j <= i < 64 ==> dst@[i] == old(dst)@[i],
        decreases src@.len() - j,
    {
        dst[start + j] = src[j];
        j += 1;
    }
    assert(dst@ =~= old(dst)@.take(start as int) + src@ + old(dst)@.skip(start + src@.len()));
}

/// A fixed size buffer of 64 bytes, the block size of SHA-256. The first `buffer_idx` bytes
/// are in use; when the buffer becomes full, it must be processed.
pub struct FixedBuffer64 {
    pub buffer: [u8; 64],
    pub buffer_idx: usize,
}

impl FixedBuffer64 {
    /// The bytes of the buffer that are in use.
    pub open spec fn pending(&self) -> Seq<u8> {
        self.buffer@.take(self.buffer_idx as int)
    }

    /// Create a new, empty buffer of zero bytes.
    pub fn new() -> (r: FixedBuffer64)
        ensures
            r.buffer_idx == 0,
            r.buffer@ == Seq::new(64, |i: int| 0u8),
    {
        let fixed = FixedBuffer64 { buffer: [0; 64], buffer_idx: 0 };
        assert(fixed.buffer@ =~= Seq::new(64, |i: int| 0u8));
        fixed
    }

    /// Input a vector of bytes. Each time the buffer becomes full, its block is processed
    /// into `state` and the buffer is cleared; blocks that lie wholly in `input` are
    /// processed without copying them into the buffer.
    pub fn input(&mut self, input: &[u8], state: &mut Engine256State)
        requires
            old(self).buffer_idx <= 64,
        ensures
            final(self).buffer_idx < 64,
            final(state)@ == hash_blocks(old(state)@, old(self).pending() + input@),
            final(self).pending() == unprocessed(old(self).pending() + input@),
            ({
                let all = old(self).pending() + input@;
                let rest = unprocessed(all);
                // The block the buffer last held: the first block of `all` if the bytes in
                // use were completed to a block, else the old buffer.
                let last = if old(self).buffer_idx != 0 && all.len() >= 64 {
                    all.take(64)
                } else {
                    old(self).buffer@
                };
                final(self).buffer@ == rest + last.skip(rest.len() as int)
            }),
    {
        let ghost all = self.pending() + input@;
        let ghost last = if self.buffer_idx != 0 && all.len() >= 64 {
            all.take(64)
        } else {
            self.buffer@
        };
        let ghost h0 = state@;
        let ghost idx0 = self.buffer_idx as int;
        let mut i: usize = 0;
        let size: usize = self.size();

        // If there is already data in the buffer, copy as much as we can into it and process
        // the data if the buffer becomes full.
        if self.buffer_idx != 0 {
            let buffer_remaining = size - self.buffer_idx;
            if input.len() >= buffer_remaining {
                let start = self.buffer_idx;
                copy_memory(vstd::slice::slice_subrange(input, 0, buffer_remaining), &mut self.buffer, start);
                self.buffer_idx = 0;
                assert(self.buffer@ =~= all.subrange(0, 64));
                assert(hash_prefix_one(h0, all)) by {
                    reveal_with_fuel(crate::spec::hash_prefix, 2);
                }
                state.process_block(&self.buffer);
                i += buffer_remaining;
            } else {
                let start = self.buffer_idx;
                copy_memory(input, &mut self.buffer, start);
                self.buffer_idx += input.len();
                assert(self.pending() =~= all);
                assert(unprocessed(all) =~= all);
                assert(self.buffer@ =~= all + last.skip(all.len() as int));
                return;
            }
        }
        // While we have at least a full buffer size chunk's worth of data, process that data
        // without copying it into the buffer.
        while input.len() - i >= size
            invariant
                size == 64,
                i <= input@.len(),
                (i as int + idx0) % 64 == 0,
                all == old(self).pending() + input@,
                all.len() == idx0 + input@.len(),
                self.buffer_idx == 0,
                self.buffer@ == last,
                state@ == crate::spec::hash_prefix(h0, all, ((i as int + idx0) / 64) as nat),
            decreases input@.len() - i,
        {
            let ghost j = ((i as int + idx0) / 64) as nat;
            assert(all.subrange(64 * j as int, 64 * (j + 1) as int) =~= input@.subrange(i as int, i + 64));
            state.process_block(vstd::slice::slice_subrange(input, i, i + size));
            i += size;
            assert(((i as int + idx0) / 64) as nat == j + 1);
        }
        // Copy any input data into the buffer. At this point the amount of data left in the
        // input is less than the buffer size and the buffer is empty.
        let input_remaining = input.len() - i;
        copy_memory(vstd::slice::slice_subrange(input, i, input.len()), &mut self.buffer, 0);
        self.buffer_idx += input_remaining;
        assert(all.len() / 64 == (i as int + idx0) / 64);
        assert(self.pending() =~= unprocessed(all));
        assert(self.buffer@ =~= unprocessed(all) + last.skip(unprocessed(all).len() as int));
    }

    /// Add padding to the buffer: the byte 0x80 and then zero bytes until exactly `rem` bytes
    /// remain. The buffer must not be full. If there are not at least `rem` bytes available,
    /// the buffer is zero padded, processed into `state`, cleared, and then filled with zeros
    /// again until only `rem` bytes remain.
    pub fn standard_padding(&mut self, rem: usize, state: &mut Engine256State)
        requires
            old(self).buffer_idx < 64,
            rem <= 64,
        ensures
            final(self).buffer_idx == 64 - rem,
            ({
                let stream = padded_stream(old(self).pending(), rem as nat);
                let cut = stream.len() - (64 - rem);
                &&& cut == 0 || cut == 64
                &&& final(state)@ == hash_blocks(old(state)@, stream.take(cut))
                &&& final(self).pending() == stream.skip(cut)
            }),
    {
        let ghost stream = padded_stream(self.pending(), rem as nat);
        let ghost h0 = state@;
        let size: usize = self.size();
        let pos = self.next(1);
        self.buffer[pos] = 128;
        if self.remaining() < rem {
            self.zero_until(size);
            assert(self.buffer@ =~= stream.take(64));
            let block = self.full_buffer();
            state.process_block(block);
            assert(hash_prefix_one(h0, stream.take(64))) by {
                reveal_with_fuel(crate::spec::hash_prefix, 2);
            }
            assert(stream.take(64).subrange(0, 64) =~= stream.take(64));
        } else {
            assert(stream.take(0) =~= Seq::<u8>::empty());
        }
        self.zero_until(size - rem);
        let ghost cut = stream.len() - (64 - rem);
        assert(self.pending() =~= stream.skip(cut));
    }

    /// Reset the buffer to be empty.
    pub fn reset(&mut self)
        ensures
            final(self).buffer_idx == 0,
            final(self).buffer == old(self).buffer,
    {
        self.buffer_idx = 0;
    }

    /// Zero the buffer from the current position up until the index `idx`, which becomes the
    /// position. The position must not be greater than that index.
    pub fn zero_until(&mut self, idx: usize)
        requires
            old(self).buffer_idx <= idx <= 64,
        ensures
            final(self).buffer_idx == idx,
            final(self).buffer@ == old(self).buffer@.take(old(self).buffer_idx as int) + Seq::new(
                (idx - old(self).buffer_idx) as nat,
                |i: int| 0u8,
            ) + old(self).buffer@.skip(idx as int),
    {
        let mut j: usize = self.buffer_idx;
        while j < idx
            invariant
                old(self).buffer_idx <= j <= idx <= 64,
                self.buffer_idx == old(self).buffer_idx,
                self.buffer@.len() == 64,
                forall|i: int| 0 <= i < old(self).buffer_idx ==> self.buffer@[i] == old(self).buffer@[i],
                forall|i: int| old(self).buffer_idx <= i < j ==> self.buffer@[i] == 0u8,
                forall|i: int| j <= i < 64 ==> self.buffer@[i] == old(self).buffer@[i],
            decreases idx - j,
        {
            self.buffer[j] = 0;
            j += 1;
        }
        self.buffer_idx = idx;
        assert(self.buffer@ =~= old(self).buffer@.take(old(self).buffer_idx as int) + Seq::new(
            (idx - old(self).buffer_idx) as nat,
            |i: int| 0u8,
        ) + old(self).buffer@.skip(idx as int));
    }

    /// Mark the next `len` bytes of the buffer as used, and return the index at which they
    /// start. There must be at least that many bytes remaining in the buffer.
    pub fn next(&mut self, len: usize) -> (r: usize)
        requires
            old(self).buffer_idx + len <= 64,
        ensures
            r == old(self).buffer_idx,
            final(self).buffer_idx == old(self).buffer_idx + len,
            final(self).buffer == old(self).buffer,
    {
        self.buffer_idx += len;
        self.buffer_idx - len
    }

    /// Get the current buffer, which must be full. This clears the buffer as well.
    pub fn full_buffer(&mut self) -> (r: &[u8])
        requires
            old(self).buffer_idx == 64,
        ensures
            r@ == old(self).buffer@,
            final(self).buffer_idx == 0,
            final(self).buffer == old(self).buffer,
    {
        self.buffer_idx = 0;
        &self.buffer
    }

    /// Get the current position of the buffer.
    pub fn position(&self) -> (r: usize)
        ensures
            r == self.buffer_idx,
    {
        self.buffer_idx
    }

    /// Get the number of bytes remaining in the buffer until it is full.
    pub fn remaining(&self) -> (r: usize)
        requires
            self.buffer_idx <= 64,
        ensures
            r == 64 - self.buffer_idx,
    {
        64 - self.buffer_idx
    }

    /// Get the size of the buffer.
    pub fn size(&self) -> (r: usize)
        ensures
            r == 64,
    {
        64
    }
}

/// The number of zero bytes that standard padding puts after the 0x80 byte when `len` bytes
/// are in use, so that exactly `rem` bytes remain free in the last block.
pub open spec fn padding_zeros(len: nat, rem: nat) -> nat {
    if len + 1 + rem <= 64 {
        (63 - rem - len) as nat
    } else {
        (127 - rem - len) as nat
    }
}

/// The bytes in use followed by the 0x80 byte and the zero bytes of standard padding.
pub open spec fn padded_stream(pending: Seq<u8>, rem: nat) -> Seq<u8> {
    pending + seq![0x80u8] + Seq::new(padding_zeros(pending.len(), rem), |i: int| 0u8)
}

/// Standard padding puts after the bytes in use the byte 0x80 and then zero bytes: the
/// fewest that leave exactly `rem` bytes free in the last block.
pub proof fn law_padded_stream(pending: Seq<u8>, rem: nat)
    requires
        pending.len() < 64,
        rem <= 64,
    ensures
        ({
            let s = padded_stream(pending, rem);
            let n = pending.len() as int;
            &&& s.take(n) == pending
            &&& s[n] == 0x80
            &&& forall|i: int| n < i < s.len() ==> #[trigger] s[i] == 0
            &&& (s.len() + rem) % 64 == 0
            &&& n + 1 <= s.len() <= n + 64
        }),
{
    let s = padded_stream(pending, rem);
    assert(s.take(pending.len() as int) =~= pending);
}

/// The hash value after the first block of `data` is the compression of that block.
spec fn hash_prefix_one(h: Seq<u32>, data: Seq<u8>) -> bool {
    crate::spec::hash_prefix(h, data, 1) == crate::spec::compress(h, data.subrange(0, 64))
}

} // verus!
