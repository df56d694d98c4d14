//! The `Digest` interface and the SHA-256 digest.
use vstd::prelude::*;
use crate::spec::{compress, h256, hash_blocks, hash_prefix, hex_string, padding, sha256, word_be_bytes, words_be_bytes};
use crate::engine::Engine256;
use crate::bytes::{to_hex, write_u32_be};
use vstd::string::StringSliceAdditionalSpecFns;

verus! {

/// The Digest trait specifies an interface common to digest functions, such as SHA-1 and the
/// SHA-2 family of digest functions.
pub trait Digest: Sized {
    /// Whether the internal state of the digest is consistent.
    spec fn well_formed(&self) -> bool;

    /// Whether `len` more bytes of message data can be provided.
    spec fn accepts(&self, len: nat) -> bool;

    /// Whether `after` is the digest `before` once `data` has been provided to it.
    spec fn provided(before: Self, data: Seq<u8>, after: Self) -> bool;

    /// The size of the result in bits.
    spec fn output_size(&self) -> nat;

    /// The bytes of the result that `result` writes from this state.
    spec fn result_of(&self) -> Seq<u8>;

    /// Whether `after` is the digest `before` once its result has been retrieved.
    spec fn computed(before: Self, after: Self) -> bool;

    /// Provide message data.
    ///
    /// # Arguments
    ///
    /// * input - A vector of message data
    fn input(&mut self, input: &[u8])
        requires
            old(self).well_formed(),
            old(self).accepts(input@.len()),
        ensures
            final(self).well_formed(),
            Self::provided(*old(self), input@, *final(self)),
    ;

    /// Retrieve the digest result. This method may be called multiple times.
    ///
    /// # Arguments
    ///
    /// * out - the vector to hold the result. Must be large enough to contain output_bits().
    fn result(&mut self, out: &mut [u8])
        requires
            old(self).well_formed(),
            8 * old(out)@.len() >= old(self).output_size(),
        ensures
            final(self).well_formed(),
            Self::computed(*old(self), *final(self)),
            old(self).result_of().len() == (old(self).output_size() + 7) / 8,
            final(out)@ == old(self).result_of() + old(out)@.skip(old(self).result_of().len() as int),
    ;

    /// Reset the digest. This method must be called after result() and before supplying more
    /// data.
    fn reset(&mut self)
        requires
            old(self).well_formed(),
        ensures
            final(self).well_formed(),
    ;

    /// Get the output size in bits.
    fn output_bits(&self) -> (r: usize)
        ensures
            r == self.output_size(),
    ;

    /// Convenience function that feeds a string into a digest.
    ///
    /// # Arguments
    ///
    /// * `input` The string to feed into the digest
    fn input_str(&mut self, input: &str)
        requires
            old(self).well_formed(),
            old(self).accepts(input.spec_bytes().len()),
        ensures
            final(self).well_formed(),
            Self::provided(*old(self), input.spec_bytes(), *final(self)),
    {
        self.input(input.as_bytes());
    }

    /// Convenience function that retrieves the result of a digest as a
    /// String in hexadecimal format.
    fn result_str(&mut self) -> (r: String)
        requires
            old(self).well_formed(),
        ensures
            final(self).well_formed(),
            Self::computed(*old(self), *final(self)),
            r@ == hex_string(old(self).result_of()),
    {
        let bits: usize = self.output_bits();
        let len: usize = if bits % 8 == 0 {
            bits / 8
        } else {
            bits / 8 + 1
        };
        let mut buf: Vec<u8> = vec![0u8; len];
        self.result(buf.as_mut_slice());
        assert(buf@ =~= old(self).result_of());
        to_hex(buf.as_slice())
    }
}

/// The initial hash value of SHA-256.
const H256: [u32; 8] = [
    0x6a09e667, 0xbb67ae85, 0x3c6ef372, 0xa54ff53a, 0x510e527f, 0x9b05688c, 0x1f83d9ab, 0x5be0cd19,
];

/// The abstract state of a SHA-256 computation.
pub struct Sha256Model {
    /// Every byte fed to the compression function since the last reset: the message, and once
    /// the result has been computed, its padding (and any data provided after that).
    pub absorbed: Seq<u8>,
    /// The number of message bits provided since the last reset.
    pub bit_count: nat,
    /// Whether the result has been computed since the last reset.
    pub finished: bool,
}

impl Sha256Model {
    /// The state of a new or reset digest.
    pub open spec fn initial() -> Sha256Model {
        Sha256Model { absorbed: Seq::empty(), bit_count: 0, finished: false }
    }

    /// The state once `data` has been provided.
    pub open spec fn input(self, data: Seq<u8>) -> Sha256Model {
        Sha256Model {
            absorbed: self.absorbed + data,
            bit_count: self.bit_count + 8 * data.len(),
            finished: self.finished,
        }
    }

    /// The state once the result has been computed: the first time, the message is padded.
    pub open spec fn finish(self) -> Sha256Model {
        if self.finished {
            self
        } else {
            Sha256Model {
                absorbed: self.absorbed + padding(self.absorbed.len()),
                bit_count: self.bit_count,
                finished: true,
            }
        }
    }

    /// The 32 bytes of the hash value of the complete blocks absorbed.
    pub open spec fn digest(self) -> Seq<u8> {
        words_be_bytes(hash_blocks(h256(), self.absorbed))
    }
}

/// The SHA-256 hash algorithm
pub struct Sha256 {
    engine: Engine256,
}

impl View for Sha256 {
    type V = Sha256Model;

    closed spec fn view(&self) -> Sha256Model {
        Sha256Model {
            absorbed: self.engine.absorbed@,
            bit_count: self.engine.length_bits as nat,
            finished: self.engine.finished,
        }
    }
}

/// The bytes of eight words are the concatenation of the bytes of each word.
proof fn lemma_words_be_bytes8(ws: Seq<u32>)
    requires
        ws.len() == 8,
    ensures
        words_be_bytes(ws) == word_be_bytes(ws[0]) + word_be_bytes(ws[1]) + word_be_bytes(ws[2])
            + word_be_bytes(ws[3]) + word_be_bytes(ws[4]) + word_be_bytes(ws[5]) + word_be_bytes(
            ws[6],
        ) + word_be_bytes(ws[7]),
{
    let cat = word_be_bytes(ws[0]) + word_be_bytes(ws[1]) + word_be_bytes(ws[2]) + word_be_bytes(
        ws[3],
    ) + word_be_bytes(ws[4]) + word_be_bytes(ws[5]) + word_be_bytes(ws[6]) + word_be_bytes(ws[7]);
    assert forall|i: int| 0 <= i < 32 implies #[trigger] words_be_bytes(ws)[i] == cat[i] by {
        assert(0 <= i / 4 < 8);
    }
    assert(words_be_bytes(ws) =~= cat);
}

proof fn lemma_h256()
    ensures
        H256@ == h256(),
{
    assert(H256@ =~= h256());
}

impl Sha256 {
    /// Construct a new instance of a SHA-256 digest.
    /// Do not – under any circumstances – use this where timing attacks might be possible!
    pub fn new() -> (r: Sha256)
        ensures
            r.well_formed(),
            r@ == Sha256Model::initial(),
    {
        proof {
            lemma_h256();
        }
        Sha256 { engine: Engine256::new(&H256) }
    }

    /// Until the result is computed, the absorbed bytes are the message and the bit count
    /// is eight times its length.
    pub proof fn lemma_bit_count(&self)
        requires
            self.well_formed(),
        ensures
            !self@.finished ==> self@.bit_count == 8 * self@.absorbed.len(),
            self@.bit_count <= u64::MAX,
    {
    }
}

impl Digest for Sha256 {
    closed spec fn well_formed(&self) -> bool {
        &&& self.engine.wf()
        &&& self.engine.init@ == h256()
    }

    open spec fn accepts(&self, len: nat) -> bool {
        self@.bit_count + 8 * len <= u64::MAX
    }

    open spec fn provided(before: Self, data: Seq<u8>, after: Self) -> bool {
        after@ == before@.input(data)
    }

    open spec fn output_size(&self) -> nat {
        256
    }

    open spec fn result_of(&self) -> Seq<u8> {
        self@.finish().digest()
    }

    open spec fn computed(before: Self, after: Self) -> bool {
        after@ == before@.finish()
    }

    fn input(&mut self, d: &[u8])
        ensures
            final(self)@ == old(self)@.input(d@),
    {
        self.engine.input(d);
    }

    fn result(&mut self, out: &mut [u8])
        ensures
            final(self)@ == old(self)@.finish(),
            final(out)@ == final(self)@.digest() + old(out)@.skip(32),
            !old(self)@.finished ==> final(out)@.take(32) == sha256(old(self)@.absorbed),
    {
        self.engine.finish();
        let ghost o = old(out)@;
        write_u32_be(out, 0, self.engine.state.h0);
        let ghost p1 = word_be_bytes(self.engine.state.h0);
        assert(out@ =~= p1 + o.skip(4));
        write_u32_be(out, 4, self.engine.state.h1);
        let ghost p2 = p1 + word_be_bytes(self.engine.state.h1);
        assert(out@ =~= p2 + o.skip(8));
        write_u32_be(out, 8, self.engine.state.h2);
        let ghost p3 = p2 + word_be_bytes(self.engine.state.h2);
        assert(out@ =~= p3 + o.skip(12));
        write_u32_be(out, 12, self.engine.state.h3);
        let ghost p4 = p3 + word_be_bytes(self.engine.state.h3);
        assert(out@ =~= p4 + o.skip(16));
        write_u32_be(out, 16, self.engine.state.h4);
        let ghost p5 = p4 + word_be_bytes(self.engine.state.h4);
        assert(out@ =~= p5 + o.skip(20));
        write_u32_be(out, 20, self.engine.state.h5);
        let ghost p6 = p5 + word_be_bytes(self.engine.state.h5);
        assert(out@ =~= p6 + o.skip(24));
        write_u32_be(out, 24, self.engine.state.h6);
        let ghost p7 = p6 + word_be_bytes(self.engine.state.h6);
        assert(out@ =~= p7 + o.skip(28));
        write_u32_be(out, 28, self.engine.state.h7);
        let ghost p8 = p7 + word_be_bytes(self.engine.state.h7);
        assert(out@ =~= p8 + o.skip(32));
        proof {
            lemma_words_be_bytes8(self.engine.state@);
        }
        assert(out@.take(32) =~= self@.digest());
    }

    fn reset(&mut self)
        ensures
            final(self)@ == Sha256Model::initial(),
    {
        proof {
            lemma_h256();
        }
        self.engine.reset(&H256);
    }

    fn output_bits(&self) -> (r: usize)
        ensures
            r == 256,
    {
        assert(self.output_size() == 256);
        256
    }
}

/// Providing `a` and then `b` leaves the digest in the same state as providing `a + b` at once.
pub proof fn law_input_concat(m: Sha256Model, a: Seq<u8>, b: Seq<u8>)
    ensures
        m.input(a).input(b) == m.input(a + b),
{
    assert(m.absorbed + a + b =~= m.absorbed + (a + b));
}

/// Computing the result again changes nothing, so every call gives the same digest.
pub proof fn law_result_repeat(m: Sha256Model)
    ensures
        m.finish().finish() == m.finish(),
        m.finish().finish().digest() == m.finish().digest(),
{
}

/// A new or reset digest, given the message `msg` and asked for its result, gives the
/// SHA-256 digest of `msg`.
pub proof fn law_fresh_digest(msg: Seq<u8>)
    ensures
        Sha256Model::initial().input(msg).finish().digest() == sha256(msg),
{
    assert(Seq::<u8>::empty() + msg =~= msg);
}

/// The digest is 32 bytes long: the output size of 256 bits.
pub proof fn law_digest_len(m: Sha256Model)
    ensures
        m.digest().len() == 32,
        8 * m.digest().len() == 256,
{
    lemma_hash_prefix_len(h256(), m.absorbed, m.absorbed.len() / 64);
}

/// Hashing blocks keeps the hash value eight words long.
proof fn lemma_hash_prefix_len(h: Seq<u32>, data: Seq<u8>, n: nat)
    requires
        h.len() == 8,
    ensures
        hash_prefix(h, data, n).len() == 8,
    decreases n,
{
    reveal(compress);
    if n > 0 {
        lemma_hash_prefix_len(h, data, (n - 1) as nat);
    }
}

} // verus!

