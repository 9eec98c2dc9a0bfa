//! The stream-cipher adapters: an encrypting writer that buffers plaintext
//! and transforms it downstream one fixed-size chunk at a time, and a
//! decrypting reader that refills a chunk buffer from its input and serves
//! decrypted bytes through a cursor. Both consume one continuous keystream
//! in strict order and offer a cumulative progress sample per chunk.

use vstd::prelude::*;

use crate::CHUNK;
use crate::cipher::{
    CipherStream, MAX_STREAM, lemma_apply_concat, lemma_apply_subrange, spec_apply_keystream,
};
use crate::progress::{lemma_progress_push, progress_consistent, send_progress};
use vstd::slice::{slice_subrange, slice_to_vec};

verus! {

/// The cumulative progress counts offered while transforming `chunks` full
/// chunks, starting from `base` bytes already transformed: one count per
/// chunk, each one chunk higher.
pub open spec fn spec_chunk_samples(base: int, chunks: int) -> Seq<u64> {
    Seq::new(chunks as nat, |i: int| (base + (i + 1) * (CHUNK as int)) as u64)
}

/// The encrypting sink: plaintext written to it is buffered, and whenever a
/// full chunk is buffered it is cipher-transformed and moved to the output,
/// which the caller drains with [`EncryptingWriter::take_output`]. A final
/// [`EncryptingWriter::flush`] transforms whatever partial chunk remains.
pub struct EncryptingWriter {
    cipher: CipherStream,
    buffer: Vec<u8>,
    out: Vec<u8>,
    progress_sender: Option<crossbeam::channel::Sender<u64>>,
    total_bytes_processed: u64,
    start: Ghost<int>,
    consumed: Ghost<Seq<u8>>,
    taken: Ghost<Seq<u8>>,
    samples: Ghost<Seq<u64>>,
}

impl EncryptingWriter {
    /// The cipher's key.
    pub closed spec fn key(self) -> Seq<u8> {
        self.cipher.key()
    }

    /// The cipher's nonce.
    pub closed spec fn nonce(self) -> Seq<u8> {
        self.cipher.nonce()
    }

    /// The keystream position this writer started at.
    pub closed spec fn start(self) -> int {
        self.start@
    }

    /// The plaintext already cipher-transformed, in order.
    pub closed spec fn consumed(self) -> Seq<u8> {
        self.consumed@
    }

    /// The plaintext still buffered, waiting for a full chunk or a flush.
    pub closed spec fn buffered(self) -> Seq<u8> {
        self.buffer@
    }

    /// All plaintext ever written: the transformed part, then the buffer.
    pub open spec fn streamed(self) -> Seq<u8> {
        self.consumed() + self.buffered()
    }

    /// The ciphertext already handed to the caller.
    pub closed spec fn taken(self) -> Seq<u8> {
        self.taken@
    }

    /// The ciphertext produced but not yet taken.
    pub closed spec fn pending(self) -> Seq<u8> {
        self.out@
    }

    /// The progress samples offered so far: cumulative transformed bytes,
    /// one sample per chunk.
    pub closed spec fn samples(self) -> Seq<u64> {
        self.samples@
    }

    /// The invariant of the writer: the cipher sits exactly past the
    /// transformed plaintext, less than one chunk is buffered, everything
    /// produced is the keystream transform of the transformed plaintext, and
    /// the sample history matches it.
    pub closed spec fn wf(self) -> bool {
        &&& self.cipher.wf()
        &&& 0 <= self.start@
        &&& self.cipher.pos() == self.start@ + self.consumed@.len()
        &&& self.start@ + self.consumed@.len() + self.buffer@.len() <= MAX_STREAM
        &&& self.buffer@.len() < CHUNK
        &&& self.taken@ + self.out@ == spec_apply_keystream(
            self.cipher.key(),
            self.cipher.nonce(),
            self.start@,
            self.consumed@,
        )
        &&& self.total_bytes_processed == self.consumed@.len()
        &&& progress_consistent(self.samples@, self.consumed@.len() as int)
    }

    /// A writer that continues the given cipher from its current position,
    /// with nothing buffered, produced or sampled yet.
    pub fn new(cipher: CipherStream) -> (r: Self)
        requires
            cipher.wf(),
        ensures
            r.wf(),
            r.key() == cipher.key(),
            r.nonce() == cipher.nonce(),
            r.start() == cipher.pos(),
            r.consumed() == Seq::<u8>::empty(),
            r.buffered() == Seq::<u8>::empty(),
            r.taken() == Seq::<u8>::empty(),
            r.pending() == Seq::<u8>::empty(),
            r.samples() == Seq::<u64>::empty(),
    {
        let r = EncryptingWriter {
            start: Ghost(cipher.pos()),
            cipher,
            buffer: Vec::new(),
            out: Vec::new(),
            progress_sender: None,
            total_bytes_processed: 0,
            consumed: Ghost(Seq::empty()),
            taken: Ghost(Seq::empty()),
            samples: Ghost(Seq::empty()),
        };
        proof {
            assert(r.taken@ + r.out@ =~= spec_apply_keystream(
                r.cipher.key(),
                r.cipher.nonce(),
                r.start@,
                r.consumed@,
            ));
        }
        r
    }

    /// Attach a channel for progress samples; everything else stays as it
    /// was.
    pub fn set_progress_sender(&mut self, sender: crossbeam::channel::Sender<u64>)
        ensures
            final(self).wf() == old(self).wf(),
            final(self).key() == old(self).key(),
            final(self).nonce() == old(self).nonce(),
            final(self).start() == old(self).start(),
            final(self).consumed() == old(self).consumed(),
            final(self).buffered() == old(self).buffered(),
            final(self).taken() == old(self).taken(),
            final(self).pending() == old(self).pending(),
            final(self).samples() == old(self).samples(),
    {
        self.progress_sender = Some(sender);
    }

    /// Offer the current cumulative count to the channel and record it in
    /// the sample history.
    fn emit_progress(&mut self)
        ensures
            *final(self) == (EncryptingWriter {
                samples: Ghost(old(self).samples@.push(old(self).total_bytes_processed)),
                ..*old(self)
            }),
    {
        self.samples = Ghost(self.samples@.push(self.total_bytes_processed));
        match &self.progress_sender {
            Some(sender) => send_progress(sender, self.total_bytes_processed),
            None => {},
        }
    }

    /// Accept `data`: buffer it, and cipher-transform and emit every full
    /// chunk now buffered, in order, with one progress sample each. Less
    /// than one chunk stays buffered.
    pub fn write(&mut self, data: &[u8])
        requires
            old(self).wf(),
            old(self).start() + old(self).streamed().len() + data@.len() <= MAX_STREAM,
        ensures
            final(self).wf(),
            final(self).key() == old(self).key(),
            final(self).nonce() == old(self).nonce(),
            final(self).start() == old(self).start(),
            final(self).taken() == old(self).taken(),
            final(self).streamed() == old(self).streamed() + data@,
            final(self).buffered().len() as int == ((old(self).buffered().len() + data@.len())
                as int) % (CHUNK as int),
            final(self).taken() + final(self).pending() == spec_apply_keystream(
                old(self).key(),
                old(self).nonce(),
                old(self).start(),
                final(self).consumed(),
            ),
            final(self).samples() == old(self).samples() + spec_chunk_samples(
                old(self).consumed().len() as int,
                ((old(self).buffered().len() + data@.len()) as int) / (CHUNK as int),
            ),
            old(self).samples().is_prefix_of(final(self).samples()),
            progress_consistent(final(self).samples(), final(self).consumed().len() as int),
    {
        let ghost target = old(self).streamed() + data@;
        let ghost pending_total: int = (old(self).buffered().len() + data@.len()) as int;
        let ghost mut chunks: int = 0;
        self.buffer.extend_from_slice(data);
        proof {
            assert(self.buffer@ =~= old(self).buffered() + data@);
            assert(self.consumed@ + self.buffer@ =~= target);
            assert(self.samples@ =~= old(self).samples() + spec_chunk_samples(
                old(self).consumed().len() as int,
                0,
            ));
        }
        while self.buffer.len() >= CHUNK
            invariant
                self.cipher.wf(),
                0 <= self.start@,
                self.cipher.pos() == self.start@ + self.consumed@.len(),
                self.taken@ + self.out@ == spec_apply_keystream(
                    self.cipher.key(),
                    self.cipher.nonce(),
                    self.start@,
                    self.consumed@,
                ),
                self.total_bytes_processed == self.consumed@.len(),
                progress_consistent(self.samples@, self.consumed@.len() as int),
                self.consumed@ + self.buffer@ == target,
                self.start@ + self.consumed@.len() + self.buffer@.len() <= MAX_STREAM,
                self.cipher.key() == old(self).key(),
                self.cipher.nonce() == old(self).nonce(),
                self.start@ == old(self).start(),
                self.taken@ == old(self).taken(),
                0 <= chunks,
                self.consumed@.len() == old(self).consumed().len() + chunks * (CHUNK as int),
                self.buffer@.len() == pending_total - chunks * (CHUNK as int),
                self.samples@ == old(self).samples() + spec_chunk_samples(
                    old(self).consumed().len() as int,
                    chunks,
                ),
                old(self).samples().is_prefix_of(self.samples@),
            decreases self.buffer@.len(),
        {
            let ghost consumed_before = self.consumed@;
            let ghost buffer_before = self.buffer@;
            let ghost samples_before = self.samples@;
            let mut rest = self.buffer.split_off(CHUNK);
            core::mem::swap(&mut self.buffer, &mut rest);
            // `rest` now holds the chunk, the buffer the remainder
            self.cipher.apply_keystream(&mut rest);
            proof {
                lemma_apply_concat(
                    self.cipher.key(),
                    self.cipher.nonce(),
                    self.start@,
                    consumed_before,
                    buffer_before.subrange(0, CHUNK as int),
                );
            }
            self.out.append(&mut rest);
            self.consumed = Ghost(consumed_before + buffer_before.subrange(0, CHUNK as int));
            proof {
                assert(self.taken@ + self.out@ =~= spec_apply_keystream(
                    self.cipher.key(),
                    self.cipher.nonce(),
                    self.start@,
                    self.consumed@,
                ));
                assert(self.consumed@ + self.buffer@ =~= target);
            }
            self.total_bytes_processed = self.total_bytes_processed + CHUNK as u64;
            self.emit_progress();
            proof {
                lemma_progress_push(
                    samples_before,
                    consumed_before.len() as int,
                    self.total_bytes_processed,
                );
                chunks = chunks + 1;
                assert(chunks * (CHUNK as int) == (chunks - 1) * (CHUNK as int) + (
                CHUNK as int)) by (nonlinear_arith);
                assert(self.consumed@.len() == old(self).consumed().len() + chunks * (
                CHUNK as int));
                assert(self.samples@ =~= old(self).samples() + spec_chunk_samples(
                    old(self).consumed().len() as int,
                    chunks,
                ));
            }
        }
        proof {
            assert(self.streamed() == old(self).streamed() + data@);
            vstd::arithmetic::div_mod::lemma_fundamental_div_mod_converse(
                pending_total,
                CHUNK as int,
                chunks,
                self.buffer@.len() as int,
            );
        }
    }

    /// Cipher-transform and emit whatever partial chunk remains (possibly
    /// nothing), with a progress sample if anything was emitted. Afterwards
    /// everything written has been transformed.
    pub fn flush(&mut self)
        requires
            old(self).wf(),
        ensures
            final(self).wf(),
            final(self).key() == old(self).key(),
            final(self).nonce() == old(self).nonce(),
            final(self).start() == old(self).start(),
            final(self).taken() == old(self).taken(),
            final(self).consumed() == old(self).streamed(),
            final(self).buffered() == Seq::<u8>::empty(),
            final(self).streamed() == old(self).streamed(),
            final(self).taken() + final(self).pending() == spec_apply_keystream(
                old(self).key(),
                old(self).nonce(),
                old(self).start(),
                old(self).streamed(),
            ),
            final(self).samples() == (if old(self).buffered().len() == 0 {
                old(self).samples()
            } else {
                old(self).samples().push(old(self).streamed().len() as u64)
            }),
            old(self).samples().is_prefix_of(final(self).samples()),
            progress_consistent(final(self).samples(), final(self).consumed().len() as int),
    {
        if self.buffer.len() > 0 {
            let ghost consumed_before = self.consumed@;
            let ghost buffer_before = self.buffer@;
            let ghost samples_before = self.samples@;
            let mut rest: Vec<u8> = Vec::new();
            core::mem::swap(&mut self.buffer, &mut rest);
            let remaining = rest.len();
            self.cipher.apply_keystream(&mut rest);
            proof {
                lemma_apply_concat(
                    self.cipher.key(),
                    self.cipher.nonce(),
                    self.start@,
                    consumed_before,
                    buffer_before,
                );
            }
            self.out.append(&mut rest);
            self.consumed = Ghost(consumed_before + buffer_before);
            proof {
                assert(self.taken@ + self.out@ =~= spec_apply_keystream(
                    self.cipher.key(),
                    self.cipher.nonce(),
                    self.start@,
                    self.consumed@,
                ));
            }
            self.total_bytes_processed = self.total_bytes_processed + remaining as u64;
            self.emit_progress();
            proof {
                lemma_progress_push(
                    samples_before,
                    consumed_before.len() as int,
                    self.total_bytes_processed,
                );
            }
        }
        proof {
            assert(self.consumed() =~= old(self).streamed());
            assert(self.streamed() =~= old(self).streamed());
        }
    }

    /// Hand over the ciphertext produced since the last call, in stream
    /// order.
    pub fn take_output(&mut self) -> (r: Vec<u8>)
        requires
            old(self).wf(),
        ensures
            final(self).wf(),
            r@ == old(self).pending(),
            final(self).pending() == Seq::<u8>::empty(),
            final(self).taken() == old(self).taken() + r@,
            final(self).key() == old(self).key(),
            final(self).nonce() == old(self).nonce(),
            final(self).start() == old(self).start(),
            final(self).consumed() == old(self).consumed(),
            final(self).buffered() == old(self).buffered(),
            final(self).streamed() == old(self).streamed(),
            final(self).samples() == old(self).samples(),
    {
        let mut out: Vec<u8> = Vec::new();
        core::mem::swap(&mut self.out, &mut out);
        self.taken = Ghost(self.taken@ + out@);
        proof {
            assert(self.taken@ + self.out@ =~= old(self).taken() + old(self).pending());
        }
        out
    }
}

/// The decrypting source: wraps the encrypted byte stream, refills an
/// internal buffer one chunk at a time — transforming it in place and
/// offering a progress sample — and serves decrypted bytes through a cursor
/// without ever transforming them twice.
pub struct DecryptingReader {
    input: Vec<u8>,
    in_pos: usize,
    cipher: CipherStream,
    buffer: Vec<u8>,
    pos: usize,
    progress_sender: Option<crossbeam::channel::Sender<u64>>,
    total_bytes_processed: u64,
    start: Ghost<int>,
    samples: Ghost<Seq<u64>>,
}

impl DecryptingReader {
    /// The cipher's key.
    pub closed spec fn key(self) -> Seq<u8> {
        self.cipher.key()
    }

    /// The cipher's nonce.
    pub closed spec fn nonce(self) -> Seq<u8> {
        self.cipher.nonce()
    }

    /// The keystream position this reader started at.
    pub closed spec fn start(self) -> int {
        self.start@
    }

    /// The encrypted byte stream this reader serves from.
    pub closed spec fn input(self) -> Seq<u8> {
        self.input@
    }

    /// The whole input, decrypted: what the reader serves, in order.
    pub open spec fn decrypted_input(self) -> Seq<u8> {
        spec_apply_keystream(self.key(), self.nonce(), self.start(), self.input())
    }

    /// How many decrypted bytes have been served to the caller.
    pub closed spec fn served(self) -> int {
        self.in_pos - self.buffer@.len() + self.pos
    }

    /// How many input bytes have been decrypted (and sampled as progress).
    pub closed spec fn processed(self) -> int {
        self.in_pos as int
    }

    /// The progress samples offered so far: cumulative decrypted bytes, one
    /// sample per refilled chunk.
    pub closed spec fn samples(self) -> Seq<u64> {
        self.samples@
    }

    /// The invariant of the reader: the cipher sits exactly past the input
    /// bytes decrypted so far, the buffer holds the decryption of the input
    /// just before the refill mark, the cursor is inside the buffer, and the
    /// sample history matches the decrypted count.
    pub closed spec fn wf(self) -> bool {
        &&& self.cipher.wf()
        &&& 0 <= self.start@
        &&& self.start@ + self.input@.len() <= MAX_STREAM
        &&& self.buffer@.len() <= self.in_pos <= self.input@.len()
        &&& self.cipher.pos() == self.start@ + self.in_pos
        &&& self.pos <= self.buffer@.len()
        &&& self.buffer@ == spec_apply_keystream(
            self.cipher.key(),
            self.cipher.nonce(),
            self.start@ + self.in_pos - self.buffer@.len(),
            self.input@.subrange(self.in_pos - self.buffer@.len(), self.in_pos as int),
        )
        &&& self.total_bytes_processed == self.in_pos
        &&& progress_consistent(self.samples@, self.in_pos as int)
    }

    /// A reader over `input` that continues the given cipher from its
    /// current position, with nothing decrypted or served yet.
    pub fn new(input: Vec<u8>, cipher: CipherStream) -> (r: Self)
        requires
            cipher.wf(),
            cipher.pos() + input@.len() <= MAX_STREAM,
        ensures
            r.wf(),
            r.key() == cipher.key(),
            r.nonce() == cipher.nonce(),
            r.start() == cipher.pos(),
            r.input() == input@,
            r.served() == 0,
            r.processed() == 0,
            r.samples() == Seq::<u64>::empty(),
    {
        let r = DecryptingReader {
            start: Ghost(cipher.pos()),
            input,
            in_pos: 0,
            cipher,
            buffer: Vec::new(),
            pos: 0,
            progress_sender: None,
            total_bytes_processed: 0,
            samples: Ghost(Seq::empty()),
        };
        proof {
            assert(r.buffer@ =~= spec_apply_keystream(
                r.cipher.key(),
                r.cipher.nonce(),
                r.start@,
                r.input@.subrange(0, 0),
            ));
        }
        r
    }

    /// Attach a channel for progress samples; everything else stays as it
    /// was.
    pub fn set_progress_sender(&mut self, sender: crossbeam::channel::Sender<u64>)
        ensures
            final(self).wf() == old(self).wf(),
            final(self).key() == old(self).key(),
            final(self).nonce() == old(self).nonce(),
            final(self).start() == old(self).start(),
            final(self).input() == old(self).input(),
            final(self).served() == old(self).served(),
            final(self).processed() == old(self).processed(),
            final(self).samples() == old(self).samples(),
    {
        self.progress_sender = Some(sender);
    }

    /// Offer the current cumulative count to the channel and record it in
    /// the sample history.
    fn emit_progress(&mut self)
        ensures
            *final(self) == (DecryptingReader {
                samples: Ghost(old(self).samples@.push(old(self).total_bytes_processed)),
                ..*old(self)
            }),
    {
        self.samples = Ghost(self.samples@.push(self.total_bytes_processed));
        match &self.progress_sender {
            Some(sender) => send_progress(sender, self.total_bytes_processed),
            None => {},
        }
    }

    /// Serve up to `want` decrypted bytes. When the buffer is used up, one
    /// more chunk of input is decrypted first (short only at the stream's
    /// tail). An empty result with `want > 0` means the end of the stream.
    pub fn read(&mut self, want: usize) -> (r: Vec<u8>)
        requires
            old(self).wf(),
        ensures
            final(self).wf(),
            final(self).key() == old(self).key(),
            final(self).nonce() == old(self).nonce(),
            final(self).start() == old(self).start(),
            final(self).input() == old(self).input(),
            r@.len() <= want,
            r@ == old(self).decrypted_input().subrange(
                old(self).served(),
                old(self).served() + r@.len(),
            ),
            final(self).served() == old(self).served() + r@.len(),
            final(self).processed() == (if old(self).served() == old(self).processed()
                && old(self).processed() < old(self).input().len() {
                old(self).processed() + (if old(self).input().len() - old(self).processed() < CHUNK {
                    old(self).input().len() - old(self).processed()
                } else {
                    CHUNK as int
                })
            } else {
                old(self).processed()
            }),
            final(self).samples() == (if old(self).served() == old(self).processed()
                && old(self).processed() < old(self).input().len() {
                old(self).samples().push(final(self).processed() as u64)
            } else {
                old(self).samples()
            }),
            r@.len() == (if want <= final(self).processed() - old(self).served() {
                want as int
            } else {
                final(self).processed() - old(self).served()
            }),
            want > 0 && old(self).served() < old(self).input().len() ==> r@.len() > 0,
            old(self).served() == old(self).input().len() ==> r@.len() == 0,
            old(self).samples().is_prefix_of(final(self).samples()),
            progress_consistent(final(self).samples(), final(self).processed()),
    {
        if self.pos == self.buffer.len() {
            let remaining = self.input.len() - self.in_pos;
            if remaining == 0 {
                let r = Vec::<u8>::new();
                proof {
                    assert(r@ =~= old(self).decrypted_input().subrange(
                        old(self).served(),
                        old(self).served(),
                    ));
                }
                return r;
            }
            let n = if remaining < CHUNK {
                remaining
            } else {
                CHUNK
            };
            let ghost samples_before = self.samples@;
            let ghost in_pos_before = self.in_pos as int;
            let mut chunk = slice_to_vec(
                slice_subrange(self.input.as_slice(), self.in_pos, self.in_pos + n),
            );
            self.cipher.apply_keystream(&mut chunk);
            self.buffer = chunk;
            self.pos = 0;
            self.in_pos = self.in_pos + n;
            self.total_bytes_processed = self.total_bytes_processed + n as u64;
            self.emit_progress();
            proof {
                lemma_progress_push(samples_before, in_pos_before, self.total_bytes_processed);
            }
        }
        let avail = self.buffer.len() - self.pos;
        let n = if want < avail {
            want
        } else {
            avail
        };
        let r = slice_to_vec(slice_subrange(self.buffer.as_slice(), self.pos, self.pos + n));
        self.pos = self.pos + n;
        proof {
            lemma_apply_subrange(
                self.cipher.key(),
                self.cipher.nonce(),
                self.start@ + self.in_pos - self.buffer@.len(),
                self.input@.subrange(self.in_pos - self.buffer@.len(), self.in_pos as int),
                self.pos - n,
                self.pos as int,
            );
            assert(r@ =~= old(self).decrypted_input().subrange(
                old(self).served(),
                old(self).served() + r@.len(),
            ));
        }
        r
    }

    /// What has been served never exceeds the input.
    pub proof fn lemma_served_bounded(self)
        requires
            self.wf(),
        ensures
            0 <= self.served() <= self.input().len(),
            self.served() <= self.processed() <= self.input().len(),
    {
    }

    /// Serve exactly `n` decrypted bytes, or nothing if fewer than `n`
    /// remain in the stream.
    pub fn read_exact(&mut self, n: usize) -> (r: Option<Vec<u8>>)
        requires
            old(self).wf(),
        ensures
            final(self).wf(),
            final(self).key() == old(self).key(),
            final(self).nonce() == old(self).nonce(),
            final(self).start() == old(self).start(),
            final(self).input() == old(self).input(),
            r is Some <==> old(self).served() + n <= old(self).input().len(),
            match r {
                Some(v) => {
                    &&& v@.len() == n
                    &&& v@ == old(self).decrypted_input().subrange(
                        old(self).served(),
                        old(self).served() + n,
                    )
                    &&& final(self).served() == old(self).served() + n
                },
                None => true,
            },
            old(self).samples().is_prefix_of(final(self).samples()),
            progress_consistent(final(self).samples(), final(self).processed()),
    {
        proof {
            old(self).lemma_served_bounded();
        }
        let mut collected: Vec<u8> = Vec::new();
        proof {
            assert(collected@ =~= old(self).decrypted_input().subrange(
                old(self).served(),
                old(self).served(),
            ));
        }
        while collected.len() < n
            invariant
                self.wf(),
                self.key() == old(self).key(),
                self.nonce() == old(self).nonce(),
                self.start() == old(self).start(),
                self.input() == old(self).input(),
                0 <= old(self).served() <= old(self).input().len(),
                collected@.len() <= n,
                self.served() == old(self).served() + collected@.len(),
                collected@ == old(self).decrypted_input().subrange(
                    old(self).served(),
                    self.served(),
                ),
                old(self).samples().is_prefix_of(self.samples()),
                progress_consistent(self.samples(), self.processed()),
            decreases n - collected@.len(),
        {
            let mut piece = self.read(n - collected.len());
            if piece.len() == 0 {
                proof {
                    self.lemma_served_bounded();
                }
                return None;
            }
            let ghost collected_before = collected@;
            collected.append(&mut piece);
            proof {
                self.lemma_served_bounded();
                assert(collected@ =~= old(self).decrypted_input().subrange(
                    old(self).served(),
                    self.served(),
                ));
            }
        }
        proof {
            self.lemma_served_bounded();
        }
        Some(collected)
    }

    /// Serve everything that remains of the stream, decrypting chunk by
    /// chunk; afterwards the whole input has been processed.
    pub fn read_to_end(&mut self) -> (r: Vec<u8>)
        requires
            old(self).wf(),
        ensures
            final(self).wf(),
            final(self).key() == old(self).key(),
            final(self).nonce() == old(self).nonce(),
            final(self).start() == old(self).start(),
            final(self).input() == old(self).input(),
            r@ == old(self).decrypted_input().subrange(
                old(self).served(),
                old(self).input().len() as int,
            ),
            final(self).served() == old(self).input().len(),
            final(self).processed() == old(self).input().len(),
            old(self).samples().is_prefix_of(final(self).samples()),
            progress_consistent(final(self).samples(), final(self).processed()),
    {
        proof {
            old(self).lemma_served_bounded();
        }
        let mut collected: Vec<u8> = Vec::new();
        proof {
            assert(collected@ =~= old(self).decrypted_input().subrange(
                old(self).served(),
                old(self).served(),
            ));
        }
        loop
            invariant_except_break
                self.wf(),
                self.key() == old(self).key(),
                self.nonce() == old(self).nonce(),
                self.start() == old(self).start(),
                self.input() == old(self).input(),
                0 <= old(self).served() <= old(self).input().len(),
                self.served() == old(self).served() + collected@.len(),
                collected@ == old(self).decrypted_input().subrange(
                    old(self).served(),
                    self.served(),
                ),
                old(self).samples().is_prefix_of(self.samples()),
                progress_consistent(self.samples(), self.processed()),
            ensures
                self.wf(),
                self.key() == old(self).key(),
                self.nonce() == old(self).nonce(),
                self.start() == old(self).start(),
                self.input() == old(self).input(),
                self.served() == self.input().len(),
                collected@ == old(self).decrypted_input().subrange(
                    old(self).served(),
                    self.input().len() as int,
                ),
                old(self).samples().is_prefix_of(self.samples()),
                progress_consistent(self.samples(), self.processed()),
            decreases old(self).input().len() - self.served(),
        {
            proof {
                self.lemma_served_bounded();
            }
            let mut piece = self.read(CHUNK);
            if piece.len() == 0 {
                proof {
                    self.lemma_served_bounded();
                }
                break ;
            }
            collected.append(&mut piece);
            proof {
                self.lemma_served_bounded();
                assert(collected@ =~= old(self).decrypted_input().subrange(
                    old(self).served(),
                    self.served(),
                ));
            }
        }
        proof {
            self.lemma_served_bounded();
        }
        collected
    }
}

} // verus!
