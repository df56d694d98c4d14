//! The SHA-256 compression state and the engine that drives it.
use vstd::prelude::*;
use crate::spec::{
    big_sigma0, big_sigma1, ch_spec, compress, k256, maj_spec, round, rounds, schedule,
    small_sigma0, small_sigma1, wadd, be_word, be_words,
};
use crate::spec::{hash_blocks, padding, unprocessed, u64_be_bytes, word_be_bytes, zero_pad_len};
use crate::bytes::{add_bytes_to_bits, read_u32v_be, write_u32_be, zero_words};
use crate::buffer::{FixedBuffer64, padded_stream, padding_zeros};
use crate::lemmas::{lemma_hash_blocks_append, lemma_hash_blocks_split};

verus! {

/// The round constants K of SHA-256.
const K32: [u32; 64] = [
    0x428a2f98, 0x71374491, 0xb5c0fbcf, 0xe9b5dba5, 0x3956c25b, 0x59f111f1, 0x923f82a4, 0xab1c5ed5,
    0xd807aa98, 0x12835b01, 0x243185be, 0x550c7dc3, 0x72be5d74, 0x80deb1fe, 0x9bdc06a7, 0xc19bf174,
    0xe49b69c1, 0xefbe4786, 0x0fc19dc6, 0x240ca1cc, 0x2de92c6f, 0x4a7484aa, 0x5cb0a9dc, 0x76f988da,
    0x983e5152, 0xa831c66d, 0xb00327c8, 0xbf597fc7, 0xc6e00bf3, 0xd5a79147, 0x06ca6351, 0x14292967,
    0x27b70a85, 0x2e1b2138, 0x4d2c6dfc, 0x53380d13, 0x650a7354, 0x766a0abb, 0x81c2c92e, 0x92722c85,
    0xa2bfe8a1, 0xa81a664b, 0xc24b8b70, 0xc76c51a3, 0xd192e819, 0xd6990624, 0xf40e3585, 0x106aa070,
    0x19a4c116, 0x1e376c08, 0x2748774c, 0x34b0bcb5, 0x391c0cb3, 0x4ed8aa4a, 0x5b9cca4f, 0x682e6ff3,
    0x748f82ee, 0x78a5636f, 0x84c87814, 0x8cc70208, 0x90befffa, 0xa4506ceb, 0xbef9a3f7, 0xc67178f2,
];

proof fn lemma_k32()
    ensures
        K32@ == k256(),
{
    assert(K32@ =~= k256());
}

/// Ch(x, y, z).
fn ch(x: u32, y: u32, z: u32) -> (r: u32)
    ensures
        r == ch_spec(x, y, z),
{
    (x & y) ^ ((!x) & z)
}

/// Maj(x, y, z).
fn maj(x: u32, y: u32, z: u32) -> (r: u32)
    ensures
        r == maj_spec(x, y, z),
{
    (x & y) ^ (x & z) ^ (y & z)
}

/// Σ0(x).
fn sum0(x: u32) -> (r: u32)
    ensures
        r == big_sigma0(x),
{
    ((x >> 2) | (x << 30)) ^ ((x >> 13) | (x << 19)) ^ ((x >> 22) | (x << 10))
}

/// Σ1(x).
fn sum1(x: u32) -> (r: u32)
    ensures
        r == big_sigma1(x),
{
    ((x >> 6) | (x << 26)) ^ ((x >> 11) | (x << 21)) ^ ((x >> 25) | (x << 7))
}

/// σ0(x).
fn sigma0(x: u32) -> (r: u32)
    ensures
        r == small_sigma0(x),
{
    ((x >> 7) | (x << 25)) ^ ((x >> 18) | (x << 14)) ^ (x >> 3)
}

/// σ1(x).
fn sigma1(x: u32) -> (r: u32)
    ensures
        r == small_sigma1(x),
{
    ((x >> 17) | (x << 15)) ^ ((x >> 19) | (x << 13)) ^ (x >> 10)
}

/// Wrapping addition of words is addition modulo 2^32.
proof fn lemma_wrapping_add(x: u32, y: u32)
    ensures
        vstd::wrapping::u32_specs::wrapping_add(x, y) == wadd(x, y),
{
}

/// Adding two words in either grouping gives the same word.
proof fn lemma_wadd_assoc(x: u32, y: u32, z: u32)
    ensures
        wadd(wadd(x, y), z) == wadd(x, wadd(y, z)),
{
}

/// The schedule word computed from the words 2, 7, 15 and 16 places before it.
fn schedule_word(w2: u32, w7: u32, w15: u32, w16: u32) -> (r: u32)
    ensures
        r == wadd(wadd(wadd(small_sigma1(w2), w7), small_sigma0(w15)), w16),
{
    let word: u32 = sigma1(w2).wrapping_add(w7).wrapping_add(sigma0(w15)).wrapping_add(w16);
    proof {
        lemma_wrapping_add(small_sigma1(w2), w7);
        lemma_wrapping_add(wadd(small_sigma1(w2), w7), small_sigma0(w15));
        lemma_wrapping_add(wadd(wadd(small_sigma1(w2), w7), small_sigma0(w15)), w16);
    }
    word
}

/// One compression round on the working variables (a, b, c, d, e, f, g, h): returns the new
/// values of `d` and `h`; the round then renames the variables, `h` becoming the new `a` and
/// `d` the new `e`.
fn sha2_round(a: u32, b: u32, c: u32, d: u32, e: u32, f: u32, g: u32, h: u32, k: u32, w: u32) -> (r: (
    u32,
    u32,
))
    ensures
        seq![r.1, a, b, c, r.0, e, f, g] == round(seq![a, b, c, d, e, f, g, h], k, w),
{
    let h1: u32 = h.wrapping_add(sum1(e)).wrapping_add(ch(e, f, g)).wrapping_add(k).wrapping_add(w);
    let d1: u32 = d.wrapping_add(h1);
    let h2: u32 = h1.wrapping_add(sum0(a)).wrapping_add(maj(a, b, c));
    proof {
        lemma_wrapping_add(h, big_sigma1(e));
        lemma_wrapping_add(wadd(h, big_sigma1(e)), ch_spec(e, f, g));
        lemma_wrapping_add(wadd(wadd(h, big_sigma1(e)), ch_spec(e, f, g)), k);
        lemma_wrapping_add(wadd(wadd(wadd(h, big_sigma1(e)), ch_spec(e, f, g)), k), w);
        lemma_wrapping_add(d, h1);
        lemma_wrapping_add(h1, big_sigma0(a));
        lemma_wrapping_add(wadd(h1, big_sigma0(a)), maj_spec(a, b, c));
        lemma_wadd_assoc(h1, big_sigma0(a), maj_spec(a, b, c));
    }
    let ghost v = seq![a, b, c, d, e, f, g, h];
    assert(seq![h2, a, b, c, d1, e, f, g] =~= round(v, k, w));
    (d1, h2)
}

/// The state of a SHA-256 computation: the current hash value H0..H7.
pub struct Engine256State {
    pub h0: u32,
    pub h1: u32,
    pub h2: u32,
    pub h3: u32,
    pub h4: u32,
    pub h5: u32,
    pub h6: u32,
    pub h7: u32,
}

impl View for Engine256State {
    type V = Seq<u32>;

    /// The hash value as the sequence H0..H7.
    open spec fn view(&self) -> Seq<u32> {
        seq![self.h0, self.h1, self.h2, self.h3, self.h4, self.h5, self.h6, self.h7]
    }
}

impl Engine256State {
    /// The state that holds the hash value `h`.
    pub fn new(h: &[u32; 8]) -> (r: Engine256State)
        ensures
            r@ == h@,
    {
        let state = Engine256State {
            h0: h[0],
            h1: h[1],
            h2: h[2],
            h3: h[3],
            h4: h[4],
            h5: h[5],
            h6: h[6],
            h7: h[7],
        };
        assert(state@ =~= h@);
        state
    }

    /// Set the hash value to `h`.
    pub fn reset(&mut self, h: &[u32; 8])
        ensures
            final(self)@ == h@,
    {
        self.h0 = h[0];
        self.h1 = h[1];
        self.h2 = h[2];
        self.h3 = h[3];
        self.h4 = h[4];
        self.h5 = h[5];
        self.h6 = h[6];
        self.h7 = h[7];
        assert(self@ =~= h@);
    }

    /// Process one block: the hash value becomes that of the compression function. The block
    /// is `data`, which holds at most 64 bytes, a whole number of words; a shorter `data` is
    /// followed by zero bytes.
    pub fn process_block(&mut self, data: &[u8])
        requires
            data@.len() % 4 == 0,
            data@.len() <= 64,
        ensures
            final(self)@ == compress(old(self)@, data@ + Seq::new((64 - data@.len()) as nat, |i: int| 0u8)),
    {
        let ghost block = data@ + Seq::new((64 - data@.len()) as nat, |i: int| 0u8);
        let ghost m = be_words(block);
        let ghost init = self@;
        let k: [u32; 64] = K32;
        proof {
            lemma_k32();
        }
        let mut a: u32 = self.h0;
        let mut b: u32 = self.h1;
        let mut c: u32 = self.h2;
        let mut d: u32 = self.h3;
        let mut e: u32 = self.h4;
        let mut f: u32 = self.h5;
        let mut g: u32 = self.h6;
        let mut h: u32 = self.h7;

        let mut w: [u32; 64] = zero_words();
        let ghost w0 = w@;
        read_u32v_be(&mut w, data);
        assert(w@ == be_words(data@) + w0.skip((data@.len() / 4) as int));
        assert forall|i: int| 0 <= i < 16 implies #[trigger] w@[i] == schedule(m, i as nat) by {
            if 4 * i < data@.len() {
                assert(w@[i] == be_words(data@)[i]);
                assert(be_word(block, 4 * i) == be_word(data@, 4 * i));
            } else {
                assert(w@[i] == w0[i]);
                assert(block[4 * i] == 0 && block[4 * i + 1] == 0 && block[4 * i + 2] == 0
                    && block[4 * i + 3] == 0);
            }
        }

        // The message schedule is computed in the same loop as the rounds, sixteen words
        // ahead of the round that first reads it.
        let mut t: usize = 0;
        while t < 64
            invariant
                0 <= t <= 64,
                k@ == k256(),
                m.len() == 16,
                w@.len() == 64,
                forall|i: int| 0 <= i < t + 16 && i < 64 ==> #[trigger] w@[i] == schedule(m, i as nat),
                seq![a, b, c, d, e, f, g, h] == rounds(init, m, t as nat),
            decreases 64 - t,
        {
            if t < 48 {
                let s: u32 = schedule_word(w[t + 14], w[t + 9], w[t + 1], w[t]);
                assert(w@[t + 14] == schedule(m, (t + 14) as nat));
                assert(w@[t + 9] == schedule(m, (t + 9) as nat));
                assert(w@[t + 1] == schedule(m, (t + 1) as nat));
                assert(w@[t as int] == schedule(m, t as nat));
                assert(s == schedule(m, (t + 16) as nat));
                let ghost w_old = w@;
                w[t + 16] = s;
                assert(w@ == w_old.update(t + 16, s));
                assert(forall|i: int| 0 <= i < t + 17 && i < 64 ==> #[trigger] w@[i] == schedule(m, i as nat));
            }
            assert(w@[t as int] == schedule(m, t as nat));
            let ghost prev = seq![a, b, c, d, e, f, g, h];
            let (nd, nh) = sha2_round(a, b, c, d, e, f, g, h, k[t], w[t]);
            h = g;
            g = f;
            f = e;
            e = nd;
            d = c;
            c = b;
            b = a;
            a = nh;
            assert(seq![a, b, c, d, e, f, g, h] =~= round(prev, k256()[t as int], schedule(m, t as nat)));
            t = t + 1;
        }
        self.h0 = self.h0.wrapping_add(a);
        self.h1 = self.h1.wrapping_add(b);
        self.h2 = self.h2.wrapping_add(c);
        self.h3 = self.h3.wrapping_add(d);
        self.h4 = self.h4.wrapping_add(e);
        self.h5 = self.h5.wrapping_add(f);
        self.h6 = self.h6.wrapping_add(g);
        self.h7 = self.h7.wrapping_add(h);
        proof {
            lemma_wrapping_add(init[0], a);
            lemma_wrapping_add(init[1], b);
            lemma_wrapping_add(init[2], c);
            lemma_wrapping_add(init[3], d);
            lemma_wrapping_add(init[4], e);
            lemma_wrapping_add(init[5], f);
            lemma_wrapping_add(init[6], g);
            lemma_wrapping_add(init[7], h);
        }
        reveal(compress);
        assert(self@ =~= compress(init, block));
    }
}

/// The two words that the engine writes for a 64-bit bit count are its big-endian bytes.
proof fn lemma_u64_halves(x: u64)
    ensures
        word_be_bytes((x >> 32) as u32) + word_be_bytes(x as u32) == u64_be_bytes(x),
{
    assert((x >> 32) as u32 == (x / 0x1_0000_0000) as u32 && x as u32 == (x % 0x1_0000_0000) as u32)
        by (bit_vector);
}

/// The hash value after a stream of exactly one block is the compression of that block.
proof fn lemma_hash_one_block(h: Seq<u32>, block: Seq<u8>)
    requires
        block.len() == 64,
    ensures
        hash_blocks(h, block) == compress(h, block),
{
    reveal_with_fuel(crate::spec::hash_prefix, 2);
    assert(block.subrange(0, 64) =~= block);
}

/// Padding the absorbed bytes `msg`, in the two steps that `Engine256::finish` takes, gives
/// the hash value of `msg` followed by its padding, a whole number of blocks.
/// The unprocessed bytes followed by the padding are the stream of standard padding followed
/// by the bit count.
proof fn lemma_padding_stream(msg: Seq<u8>, length_bits: u64)
    requires
        length_bits == 8 * msg.len(),
    ensures
        unprocessed(msg) + padding(msg.len()) == padded_stream(unprocessed(msg), 8) + u64_be_bytes(
            length_bits,
        ),
        padded_stream(unprocessed(msg), 8).len() == 56 || padded_stream(unprocessed(msg), 8).len()
            == 120,
{
    assert(unprocessed(msg).len() == msg.len() % 64);
    assert(padding_zeros(unprocessed(msg).len(), 8) == zero_pad_len(msg.len()));
    assert(((8 * msg.len()) % 0x1_0000_0000_0000_0000) as u64 == length_bits);
    assert(unprocessed(msg) + padding(msg.len()) =~= padded_stream(unprocessed(msg), 8)
        + u64_be_bytes(length_bits));
}

proof fn lemma_finish(init: Seq<u32>, msg: Seq<u8>, h0: Seq<u32>, h1: Seq<u32>, h2: Seq<u32>, length_bits: u64)
    requires
        h0 == hash_blocks(init, msg),
        length_bits == 8 * msg.len(),
        ({
            let stream = padded_stream(unprocessed(msg), 8);
            let cut = stream.len() - 56;
            &&& h1 == hash_blocks(h0, stream.take(cut))
            &&& h2 == compress(h1, stream.skip(cut) + u64_be_bytes(length_bits))
        }),
    ensures
        h2 == hash_blocks(init, msg + padding(msg.len())),
        (msg + padding(msg.len())).len() % 64 == 0,
{
    lemma_padding_stream(msg, length_bits);
    lemma_pad_and_hash(
        init,
        msg,
        padding(msg.len()),
        padded_stream(unprocessed(msg), 8),
        u64_be_bytes(length_bits),
        h0,
        h1,
        h2,
    );
}

/// Hashing `msg + pad`, where the unprocessed tail of `msg` followed by `pad` is `stream`
/// followed by eight more bytes, takes one or two blocks after the blocks of `msg`.
proof fn lemma_pad_and_hash(
    init: Seq<u32>,
    msg: Seq<u8>,
    pad: Seq<u8>,
    stream: Seq<u8>,
    len_bytes: Seq<u8>,
    h0: Seq<u32>,
    h1: Seq<u32>,
    h2: Seq<u32>,
)
    requires
        unprocessed(msg) + pad == stream + len_bytes,
        stream.len() == 56 || stream.len() == 120,
        len_bytes.len() == 8,
        h0 == hash_blocks(init, msg),
        h1 == hash_blocks(h0, stream.take(stream.len() - 56)),
        h2 == compress(h1, stream.skip(stream.len() - 56) + len_bytes),
    ensures
        h2 == hash_blocks(init, msg + pad),
        (msg + pad).len() % 64 == 0,
{
    let cut = stream.len() - 56;
    let last = stream.skip(cut) + len_bytes;
    lemma_hash_blocks_split(init, msg, pad);
    assert(stream + len_bytes =~= stream.take(cut) + last);
    lemma_hash_blocks_append(h0, stream.take(cut), last);
    lemma_hash_one_block(h1, last);
    assert((msg + pad).len() == 64 * (msg.len() / 64) + (stream + len_bytes).len());
}

/// The state of a SHA-256 computation together with the buffer of bytes that do not yet
/// make up a whole block, and the count of message bits.
pub struct Engine256 {
    pub length_bits: u64,
    pub buffer: FixedBuffer64,
    pub state: Engine256State,
    pub finished: bool,
    /// The hash value that the computation started from.
    pub init: Ghost<Seq<u32>>,
    /// Every byte fed to the computation since it started: the message, and after `finish`
    /// its padding.
    pub absorbed: Ghost<Seq<u8>>,
}

impl Engine256 {
    /// The hash value and the buffer agree with the bytes absorbed so far; until the
    /// computation is finished, the bit count is that of the absorbed bytes.
    pub open spec fn wf(&self) -> bool {
        &&& self.init@.len() == 8
        &&& self.buffer.buffer_idx < 64
        &&& self.buffer.pending() == unprocessed(self.absorbed@)
        &&& self.state@ == hash_blocks(self.init@, self.absorbed@)
        &&& !self.finished ==> self.length_bits == 8 * self.absorbed@.len()
    }

    /// A computation that starts from the hash value `h`, with nothing absorbed.
    pub fn new(h: &[u32; 8]) -> (r: Engine256)
        ensures
            r.wf(),
            r.init@ == h@,
            r.absorbed@ == Seq::<u8>::empty(),
            r.length_bits == 0,
            !r.finished,
    {
        let engine = Engine256 {
            length_bits: 0,
            buffer: FixedBuffer64::new(),
            state: Engine256State::new(h),
            finished: false,
            init: Ghost(h@),
            absorbed: Ghost(Seq::empty()),
        };
        assert(engine.buffer.pending() =~= unprocessed(Seq::<u8>::empty()));
        engine
    }

    /// Start the computation again from the hash value `h`.
    pub fn reset(&mut self, h: &[u32; 8])
        ensures
            final(self).wf(),
            final(self).init@ == h@,
            final(self).absorbed@ == Seq::<u8>::empty(),
            final(self).length_bits == 0,
            !final(self).finished,
    {
        self.length_bits = 0;
        self.buffer.reset();
        self.state.reset(h);
        self.finished = false;
        self.init = Ghost(h@);
        self.absorbed = Ghost(Seq::empty());
        assert(self.buffer.pending() =~= unprocessed(Seq::<u8>::empty()));
    }

    /// Absorb the bytes of `input`. The bit count must not overflow.
    pub fn input(&mut self, input: &[u8])
        requires
            old(self).wf(),
            old(self).length_bits + 8 * input@.len() <= u64::MAX,
        ensures
            final(self).wf(),
            final(self).init == old(self).init,
            final(self).absorbed@ == old(self).absorbed@ + input@,
            final(self).length_bits == old(self).length_bits + 8 * input@.len(),
            final(self).finished == old(self).finished,
    {
        self.length_bits = add_bytes_to_bits(self.length_bits, input.len() as u64);
        self.buffer.input(input, &mut self.state);
        proof {
            lemma_hash_blocks_split(self.init@, self.absorbed@, input@);
            self.absorbed = Ghost(self.absorbed@ + input@);
        }
    }

    /// Pad the absorbed message and process its last block, once; later calls change nothing.
    pub fn finish(&mut self)
        requires
            old(self).wf(),
        ensures
            final(self).wf(),
            final(self).finished,
            old(self).finished ==> *final(self) == *old(self),
            final(self).init == old(self).init,
            final(self).length_bits == old(self).length_bits,
            final(self).absorbed@ == if old(self).finished {
                old(self).absorbed@
            } else {
                old(self).absorbed@ + padding(old(self).absorbed@.len())
            },
    {
        if self.finished {
            return;
        }
        let ghost h0 = self.state@;
        let ghost msg = self.absorbed@;
        let ghost stream = padded_stream(self.buffer.pending(), 8);
        let ghost cut = stream.len() - 56;
        self.buffer.standard_padding(8, &mut self.state);
        let ghost h1 = self.state@;
        let ghost rest = self.buffer.pending();
        let p1 = self.buffer.next(4);
        write_u32_be(&mut self.buffer.buffer, p1, (self.length_bits >> 32) as u32);
        let p2 = self.buffer.next(4);
        write_u32_be(&mut self.buffer.buffer, p2, self.length_bits as u32);
        let ghost len_bytes = u64_be_bytes(self.length_bits);
        proof {
            lemma_u64_halves(self.length_bits);
            assert(self.buffer.buffer@ =~= rest + len_bytes);
        }
        self.state.process_block(self.buffer.full_buffer());
        self.finished = true;
        proof {
            lemma_finish(self.init@, msg, h0, h1, self.state@, self.length_bits);
            self.absorbed = Ghost(msg + padding(msg.len()));
            assert(unprocessed(msg + padding(msg.len())) =~= self.buffer.pending());
        }
    }
}

} // verus!


