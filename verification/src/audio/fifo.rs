//! Input/output FIFOs that decouple a host's variable block length from the
//! fixed chunk an oversampling resampler works in.
//!
//! Incoming frames are queued until a whole chunk is available; whole chunks
//! go through the resampler and amp chain and their output is queued; the host
//! block is then served from the output queue. Once engaged, the output queue
//! starts with `max_block + chunk` frames of silence, which is exactly the
//! latency the FIFO adds and exactly enough that a read never runs dry.
//!
//! The FIFO starts disengaged: hosts whose blocks are whole multiples of the
//! chunk never pay its latency. Engaging is sticky.

use vstd::prelude::*;

use crate::audio::path::{spec_variable_block_chunk, variable_block_chunk};

verus! {

/// What a FIFO holds, as sequences of frames, with its fixed geometry.
pub struct FifoView<T> {
    /// Frames queued for the resampler, oldest first.
    pub input: Seq<T>,
    /// Processed frames waiting to be served, oldest first.
    pub output: Seq<T>,
    /// Whether the FIFO is in use (sticky once set).
    pub engaged: bool,
    /// Largest block a caller may push.
    pub max_block: nat,
    /// Fixed resampler chunk.
    pub chunk: nat,
    /// The frame value written as silence.
    pub silence: T,
}

impl<T> FifoView<T> {
    /// Frames of silence loaded into the output queue on engaging.
    pub open spec fn prefill(self) -> nat {
        self.max_block + self.chunk
    }

    /// Room of the input queue: leftover frames plus one whole block.
    pub open spec fn input_capacity(self) -> nat {
        self.prefill()
    }

    /// Room of the output queue: the prefill plus what one call can add.
    pub open spec fn output_capacity(self) -> nat {
        2 * self.prefill()
    }

    /// Frames held across both queues.
    pub open spec fn held(self) -> nat {
        self.input.len() + self.output.len()
    }

    /// Latency the FIFO adds: its prefill once engaged, nothing before.
    pub open spec fn latency(self) -> nat {
        if self.engaged {
            self.prefill()
        } else {
            0
        }
    }

    /// The state between two host blocks once engaged: fewer than a chunk
    /// left over on the input side and `prefill` frames held in all.
    pub open spec fn steady(self) -> bool {
        &&& self.engaged
        &&& self.input.len() < self.chunk
        &&& self.held() == self.prefill()
    }

    /// `n` frames of silence.
    pub open spec fn silent(self, n: nat) -> Seq<T> {
        Seq::new(n, |i: int| self.silence)
    }

    /// Queues as just after engaging or resetting an engaged FIFO; both
    /// queues empty otherwise.
    pub open spec fn primed(self) -> FifoView<T> {
        FifoView {
            input: Seq::empty(),
            output: if self.engaged {
                self.silent(self.prefill())
            } else {
                Seq::empty()
            },
            ..self
        }
    }

    /// Appends what fits of `block` to the input queue.
    pub open spec fn push_input(self, block: Seq<T>) -> FifoView<T> {
        let room = self.input_capacity() - self.input.len();
        let n = if block.len() <= room {
            block.len()
        } else {
            room as nat
        };
        FifoView { input: self.input + block.take(n as int), ..self }
    }

    /// Takes one whole chunk off the input queue, when there is one.
    pub open spec fn load_chunk(self) -> FifoView<T> {
        if self.input.len() < self.chunk {
            self
        } else {
            FifoView { input: self.input.skip(self.chunk as int), ..self }
        }
    }

    /// Appends what fits of `produced` to the output queue.
    pub open spec fn push_output(self, produced: Seq<T>) -> FifoView<T> {
        let room = self.output_capacity() - self.output.len();
        let n = if produced.len() <= room {
            produced.len()
        } else {
            room as nat
        };
        FifoView { output: self.output + produced.take(n as int), ..self }
    }

    /// Serves `n` frames (or as many as are queued) off the output queue.
    pub open spec fn pop_output(self, n: nat) -> FifoView<T> {
        let k = if n <= self.output.len() {
            n
        } else {
            self.output.len()
        };
        FifoView { output: self.output.skip(k as int), ..self }
    }

    /// Runs whole chunks through, one per entry of `produced` (each the
    /// resampled output of the chunk taken), while the input queue holds one.
    pub open spec fn drain(self, produced: Seq<Seq<T>>) -> FifoView<T>
        decreases produced.len(),
    {
        if self.input.len() >= self.chunk && produced.len() > 0 {
            self.load_chunk().push_output(produced[0]).drain(produced.drop_first())
        } else {
            self
        }
    }
}

/// A pair of bounded frame queues around a fixed-chunk resampler.
pub struct BlockFifo<T: Copy> {
    input: Vec<T>,
    input_len: usize,
    output: Vec<T>,
    output_len: usize,
    prefill: usize,
    max_block: usize,
    chunk: usize,
    engaged: bool,
    silence: T,
}

impl<T: Copy> View for BlockFifo<T> {
    type V = FifoView<T>;

    closed spec fn view(&self) -> FifoView<T> {
        FifoView {
            input: self.input@.take(self.input_len as int),
            output: self.output@.take(self.output_len as int),
            engaged: self.engaged,
            max_block: self.max_block as nat,
            chunk: self.chunk as nat,
            silence: self.silence,
        }
    }
}

/// Writes `n` copies of `value`.
fn filled<T: Copy>(value: T, n: usize) -> (r: Vec<T>)
    ensures
        r@ == Seq::new(n as nat, |i: int| value),
{
    let mut v: Vec<T> = Vec::new();
    while v.len() < n
        invariant
            v.len() <= n,
            v@ == Seq::new(v.len() as nat, |i: int| value),
        decreases n - v.len(),
    {
        v.push(value);
    }
    v
}

impl<T: Copy> BlockFifo<T> {
    /// The queues' fixed sizes and the fill levels within them.
    pub closed spec fn wf(&self) -> bool {
        &&& self.chunk >= 1
        &&& self.prefill == self.max_block + self.chunk
        &&& self.input.len() == self.prefill
        &&& self.output.len() == 2 * self.prefill
        &&& self.input_len <= self.input.len()
        &&& self.output_len <= self.output.len()
    }

    /// A disengaged FIFO for a host whose blocks vary up to `max_block`
    /// frames: its chunk is the variable-block chunk for `max_block`.
    pub fn new_variable_block(max_block: usize, silence: T) -> (r: Self)
        requires
            2 * (max_block + spec_variable_block_chunk(max_block)) <= usize::MAX,
        ensures
            r.wf(),
            r@ == (FifoView {
                input: Seq::empty(),
                output: Seq::empty(),
                engaged: false,
                max_block: max_block as nat,
                chunk: spec_variable_block_chunk(max_block) as nat,
                silence,
            }),
    {
        let chunk = variable_block_chunk(max_block);
        Self::new(max_block, chunk, silence)
    }

    /// A disengaged FIFO for blocks of at most `max_block` frames around a
    /// resampler that works in `chunk`-frame chunks.
    pub fn new(max_block: usize, chunk: usize, silence: T) -> (r: Self)
        requires
            chunk >= 1,
            2 * (max_block + chunk) <= usize::MAX,
        ensures
            r.wf(),
            r@ == (FifoView {
                input: Seq::empty(),
                output: Seq::empty(),
                engaged: false,
                max_block: max_block as nat,
                chunk: chunk as nat,
                silence,
            }),
    {
        let prefill = max_block + chunk;
        let r = BlockFifo {
            input: filled(silence, prefill),
            input_len: 0,
            output: filled(silence, 2 * prefill),
            output_len: 0,
            prefill,
            max_block,
            chunk,
            engaged: false,
            silence,
        };
        proof {
            assert(r@.input =~= Seq::<T>::empty());
            assert(r@.output =~= Seq::<T>::empty());
        }
        r
    }

    pub fn is_engaged(&self) -> (r: bool)
        ensures
            r == self@.engaged,
    {
        self.engaged
    }

    pub fn max_block(&self) -> (r: usize)
        ensures
            r == self@.max_block,
    {
        self.max_block
    }

    pub fn chunk(&self) -> (r: usize)
        requires
            self.wf(),
        ensures
            r == self@.chunk,
            r >= 1,
    {
        self.chunk
    }

    /// Latency the FIFO currently adds, in frames.
    pub fn latency_frames(&self) -> (r: usize)
        requires
            self.wf(),
        ensures
            r == self@.latency(),
    {
        if self.engaged {
            self.prefill
        } else {
            0
        }
    }

    /// Starts buffering: both queues are dropped and the output queue is
    /// primed with the prefill of silence.
    pub fn engage(&mut self)
        requires
            old(self).wf(),
        ensures
            final(self).wf(),
            final(self)@ == (FifoView { engaged: true, ..old(self)@ }).primed(),
    {
        self.engaged = true;
        self.reset();
    }

    /// Drops every queued frame, leaving the FIFO as it was the moment it
    /// engaged (or empty, if it never did). Never changes `engaged`, so the
    /// latency it reports is the same after a reset as before.
    pub fn reset(&mut self)
        requires
            old(self).wf(),
        ensures
            final(self).wf(),
            final(self)@ == old(self)@.primed(),
    {
        self.input_len = 0;
        let ghost g = *self;
        if self.engaged {
            let mut i: usize = 0;
            while i < self.prefill
                invariant
                    g.wf(),
                    self.prefill == g.prefill,
                    self.max_block == g.max_block,
                    self.chunk == g.chunk,
                    self.engaged == g.engaged,
                    self.silence == g.silence,
                    self.input_len == g.input_len,
                    self.output_len == g.output_len,
                    self.input == g.input,
                    self.output.len() == g.output.len(),
                    i <= self.prefill,
                    forall|j: int| 0 <= j < i ==> self.output@[j] == self.silence,
                decreases self.prefill - i,
            {
                self.output.set(i, self.silence);
                i = i + 1;
            }
            self.output_len = self.prefill;
            proof {
                assert(self.output@.take(self.prefill as int) =~= self@.silent(self@.prefill()));
            }
        } else {
            self.output_len = 0;
        }
        proof {
            assert(self@.input =~= Seq::<T>::empty());
            if !self.engaged {
                assert(self@.output =~= Seq::<T>::empty());
            }
        }
    }

    /// Appends a host block to the input queue. Frames that do not fit are
    /// dropped; that only happens to a caller that exceeds the block size it
    /// declared.
    pub fn push_input(&mut self, block: &[T])
        requires
            old(self).wf(),
        ensures
            final(self).wf(),
            final(self)@ == old(self)@.push_input(block@),
    {
        let room = self.input.len() - self.input_len;
        let n = if block.len() <= room {
            block.len()
        } else {
            room
        };
        let ghost g = *self;
        let start = self.input_len;
        let mut i: usize = 0;
        while i < n
            invariant
                g.wf(),
                self.prefill == g.prefill,
                self.max_block == g.max_block,
                self.chunk == g.chunk,
                self.engaged == g.engaged,
                self.silence == g.silence,
                self.input_len == g.input_len,
                self.output_len == g.output_len,
                self.output == g.output,
                self.input.len() == g.input.len(),
                start == g.input_len,
                start + n <= self.input.len(),
                n <= block@.len(),
                i <= n,
                forall|j: int| 0 <= j < start ==> self.input@[j] == g.input@[j],
                forall|j: int| 0 <= j < i ==> self.input@[start + j] == block@[j],
            decreases n - i,
        {
            self.input.set(start + i, block[i]);
            i = i + 1;
        }
        self.input_len = start + n;
        proof {
            assert(self@.input =~= g@.input + block@.take(n as int));
        }
    }

    /// Moves one whole chunk from the input queue into `chunk_out`. Returns
    /// `false`, touching nothing, when fewer than a chunk of frames are queued.
    pub fn load_chunk(&mut self, chunk_out: &mut [T]) -> (r: bool)
        requires
            old(self).wf(),
            old(chunk_out)@.len() == old(self)@.chunk,
        ensures
            final(self).wf(),
            r == (old(self)@.input.len() >= old(self)@.chunk),
            final(self)@ == old(self)@.load_chunk(),
            r ==> final(chunk_out)@ == old(self)@.input.take(old(self)@.chunk as int),
            !r ==> final(chunk_out)@ == old(chunk_out)@,
    {
        let chunk = self.chunk;
        if self.input_len < chunk {
            return false;
        }
        let ghost g = *self;
        let mut i: usize = 0;
        while i < chunk
            invariant
                chunk == self.chunk,
                chunk_out@.len() == chunk,
                chunk <= self.input_len <= self.input.len(),
                self.input@ == g.input@,
                self.input_len == g.input_len,
                i <= chunk,
                forall|j: int| 0 <= j < i ==> chunk_out@[j] == g@.input[j],
            decreases chunk - i,
        {
            chunk_out[i] = self.input[i];
            i = i + 1;
        }
        let len = self.input_len;
        let mut k: usize = chunk;
        while k < len
            invariant
                g.wf(),
                self.prefill == g.prefill,
                self.max_block == g.max_block,
                self.chunk == g.chunk,
                self.engaged == g.engaged,
                self.silence == g.silence,
                self.input_len == g.input_len,
                self.output_len == g.output_len,
                self.output == g.output,
                self.input.len() == g.input.len(),
                chunk == self.chunk,
                chunk <= k <= len,
                len == self.input_len,
                forall|j: int| k <= j < len ==> #[trigger] self.input@[j] == g.input@[j],
                forall|j: int| 0 <= j < k - chunk ==> #[trigger] self.input@[j] == g.input@[j
                    + chunk],
            decreases len - k,
        {
            let x = self.input[k];
            self.input.set(k - chunk, x);
            k = k + 1;
        }
        self.input_len = len - chunk;
        proof {
            assert(chunk_out@ =~= g@.input.take(chunk as int));
            assert(self@.input =~= g@.input.skip(chunk as int));
        }
        true
    }

    /// Appends a chunk of resampled output to the output queue, dropping what
    /// does not fit.
    pub fn push_output(&mut self, produced: &[T])
        requires
            old(self).wf(),
        ensures
            final(self).wf(),
            final(self)@ == old(self)@.push_output(produced@),
    {
        let room = self.output.len() - self.output_len;
        let n = if produced.len() <= room {
            produced.len()
        } else {
            room
        };
        let ghost g = *self;
        let start = self.output_len;
        let mut i: usize = 0;
        while i < n
            invariant
                g.wf(),
                self.prefill == g.prefill,
                self.max_block == g.max_block,
                self.chunk == g.chunk,
                self.engaged == g.engaged,
                self.silence == g.silence,
                self.input_len == g.input_len,
                self.output_len == g.output_len,
                self.input == g.input,
                self.output.len() == g.output.len(),
                start == g.output_len,
                start + n <= self.output.len(),
                n <= produced@.len(),
                i <= n,
                forall|j: int| 0 <= j < start ==> self.output@[j] == g.output@[j],
                forall|j: int| 0 <= j < i ==> self.output@[start + j] == produced@[j],
            decreases n - i,
        {
            self.output.set(start + i, produced[i]);
            i = i + 1;
        }
        self.output_len = start + n;
        proof {
            assert(self@.output =~= g@.output + produced@.take(n as int));
        }
    }

    /// Serves a host block from the output queue; any shortfall (which the
    /// prefill is sized to prevent) is filled with silence.
    pub fn pop_output(&mut self, out: &mut [T])
        requires
            old(self).wf(),
        ensures
            final(self).wf(),
            final(self)@ == old(self)@.pop_output(old(out)@.len()),
            final(out)@.len() == old(out)@.len(),
            forall|j: int|
                0 <= j < old(out)@.len() ==> #[trigger] final(out)@[j] == if j < old(
                    self,
                )@.output.len() {
                    old(self)@.output[j]
                } else {
                    old(self)@.silence
                },
    {
        let ghost g = *self;
        let n = if out.len() <= self.output_len {
            out.len()
        } else {
            self.output_len
        };
        let mut i: usize = 0;
        while i < out.len()
            invariant
                out@.len() == old(out)@.len(),
                n <= out@.len(),
                n <= self.output_len <= self.output.len(),
                n == out@.len() || n == self.output_len,
                self.output@ == g.output@,
                self.output_len == g.output_len,
                self.silence == g.silence,
                i <= out@.len(),
                forall|j: int|
                    0 <= j < i ==> #[trigger] out@[j] == if j < g@.output.len() {
                        g@.output[j]
                    } else {
                        g@.silence
                    },
            decreases out@.len() - i,
        {
            if i < n {
                out[i] = self.output[i];
            } else {
                out[i] = self.silence;
            }
            i = i + 1;
        }
        let len = self.output_len;
        let mut k: usize = n;
        while k < len
            invariant
                g.wf(),
                self.prefill == g.prefill,
                self.max_block == g.max_block,
                self.chunk == g.chunk,
                self.engaged == g.engaged,
                self.silence == g.silence,
                self.input_len == g.input_len,
                self.output_len == g.output_len,
                self.input == g.input,
                self.output.len() == g.output.len(),
                n <= k <= len,
                len == self.output_len,
                forall|j: int| k <= j < len ==> #[trigger] self.output@[j] == g.output@[j],
                forall|j: int| 0 <= j < k - n ==> #[trigger] self.output@[j] == g.output@[j + n],
            decreases len - k,
        {
            let x = self.output[k];
            self.output.set(k - n, x);
            k = k + 1;
        }
        self.output_len = len - n;
        proof {
            assert(self@.output =~= g@.output.skip(n as int));
        }
    }
}

/// Running whole chunks through keeps the number of frames held: each chunk
/// taken off the input queue comes back as the same number of output frames,
/// and while at most `prefill + max_block` frames are held the output queue
/// always has room for it.
proof fn lemma_drain<T>(v: FifoView<T>, produced: Seq<Seq<T>>)
    requires
        v.chunk >= 1,
        v.held() <= v.prefill() + v.max_block,
        forall|i: int| 0 <= i < produced.len() ==> (#[trigger] produced[i]).len() == v.chunk,
        produced.len() == v.input.len() / v.chunk,
    ensures
        v.drain(produced).held() == v.held(),
        v.drain(produced).input.len() == v.input.len() % v.chunk,
        v.drain(produced).engaged == v.engaged,
        v.drain(produced).max_block == v.max_block,
        v.drain(produced).chunk == v.chunk,
    decreases produced.len(),
{
    let a: int = v.input.len() as int;
    let c: int = v.chunk as int;
    if v.input.len() >= v.chunk && produced.len() > 0 {
        let w = v.load_chunk().push_output(produced[0]);
        assert(w.input.len() == a - c);
        assert(w.output.len() == v.output.len() + c);
        assert((a - c) / c == a / c - 1) by (nonlinear_arith)
            requires
                a >= c,
                c >= 1,
        ;
        assert((a - c) % c == a % c) by (nonlinear_arith)
            requires
                a >= c,
                c >= 1,
        ;
        assert forall|i: int| 0 <= i < produced.drop_first().len() implies (
        #[trigger] produced.drop_first()[i]).len() == w.chunk by {
            assert(produced.drop_first()[i] == produced[i + 1]);
        }
        lemma_drain(w, produced.drop_first());
    } else {
        if a >= c {
            assert(a / c >= 1) by (nonlinear_arith)
                requires
                    a >= c,
                    c >= 1,
            ;
        } else {
            assert(a / c == 0) by (nonlinear_arith)
                requires
                    a < c,
                    c >= 1,
                    a >= 0,
            ;
            assert(a % c == a) by (nonlinear_arith)
                requires
                    a < c,
                    c >= 1,
                    a >= 0,
            ;
        }
    }
}

/// An engaged FIFO between blocks never runs dry: push a host block of at
/// most `max_block` frames (nothing is dropped), run every whole chunk through
/// 1:1, and the output queue holds more than the block's length, so serving
/// the block takes only processed frames; afterwards the FIFO is back between
/// blocks with `prefill` frames held.
pub proof fn law_engaged_block_never_underruns<T>(
    v: FifoView<T>,
    block: Seq<T>,
    produced: Seq<Seq<T>>,
)
    requires
        v.chunk >= 1,
        v.steady(),
        block.len() <= v.max_block,
        forall|i: int| 0 <= i < produced.len() ==> (#[trigger] produced[i]).len() == v.chunk,
        produced.len() == (v.input.len() + block.len()) / v.chunk,
    ensures
        v.push_input(block).input == v.input + block,
        v.push_input(block).drain(produced).output.len() > block.len(),
        v.push_input(block).drain(produced).pop_output(block.len()).steady(),
{
    let v1 = v.push_input(block);
    assert(block.take(block.len() as int) =~= block);
    assert(v1.input.len() == v.input.len() + block.len());
    lemma_drain(v1, produced);
    let v2 = v1.drain(produced);
    let a: int = v1.input.len() as int;
    let c: int = v1.chunk as int;
    assert(a % c < c) by (nonlinear_arith)
        requires
            c >= 1,
    ;
}

/// Engaging is sticky: no operation on the queues disengages the FIFO, and
/// none changes its geometry.
pub proof fn law_engaged_is_sticky<T>(v: FifoView<T>, block: Seq<T>, produced: Seq<T>, n: nat)
    ensures
        v.push_input(block).engaged == v.engaged,
        v.load_chunk().engaged == v.engaged,
        v.push_output(produced).engaged == v.engaged,
        v.pop_output(n).engaged == v.engaged,
        v.primed().engaged == v.engaged,
        v.push_input(block).prefill() == v.prefill(),
        v.load_chunk().prefill() == v.prefill(),
        v.push_output(produced).prefill() == v.prefill(),
        v.pop_output(n).prefill() == v.prefill(),
{
}

/// Resetting never changes the latency a FIFO reports: an engaged FIFO is
/// re-primed with its full prefill rather than emptied.
pub proof fn law_reset_keeps_latency<T>(v: FifoView<T>)
    ensures
        v.primed().latency() == v.latency(),
        v.primed().engaged == v.engaged,
        v.engaged && v.chunk >= 1 ==> v.primed().steady(),
{
}

} // verus!
