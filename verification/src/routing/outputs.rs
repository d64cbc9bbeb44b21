use vstd::prelude::*;

verus! {

/// A spectrum buffer of which only the first `length` bins are in use.
pub struct SpectralOutput<T> {
    length: usize,
    output: Vec<T>,
}

impl<T> SpectralOutput<T> {
    #[verifier::type_invariant]
    spec fn length_fits(&self) -> bool {
        self.length <= self.output@.len()
    }

    /// The number of bins in use.
    pub closed spec fn spec_length(&self) -> nat {
        self.length as nat
    }

    /// All bins of the buffer, used or not.
    pub closed spec fn spec_buffer(&self) -> Seq<T> {
        self.output@
    }

    /// An output over `buffer` with no bin in use yet.
    pub fn new(buffer: Vec<T>) -> (r: Self)
        ensures
            r.spec_length() == 0,
            r.spec_buffer() == buffer@,
    {
        Self { length: 0, output: buffer }
    }

    /// The bins in use.
    pub fn get(&self) -> (r: &[T])
        ensures
            r@ == self.spec_buffer().subrange(0, self.spec_length() as int),
    {
        proof {
            use_type_invariant(self);
        }
        vstd::slice::slice_subrange(self.output.as_slice(), 0, self.length)
    }

    /// Uses the first `new_length` bins, or all of them when the buffer is shorter.
    pub fn set_length(&mut self, new_length: usize)
        ensures
            final(self).spec_length() == if new_length < old(self).spec_buffer().len() {
                new_length as nat
            } else {
                old(self).spec_buffer().len()
            },
            final(self).spec_buffer() == old(self).spec_buffer(),
    {
        let capacity: usize = self.output.len();
        self.length = if new_length < capacity {
            new_length
        } else {
            capacity
        };
    }
}

/// One voice's block of output samples and, for control outputs, the value
/// the next block starts from.
pub struct SamplesOutput<T> {
    buffer: Vec<T>,
    next_frame_sample: T,
}

impl<T: Copy> SamplesOutput<T> {
    pub closed spec fn spec_buffer(&self) -> Seq<T> {
        self.buffer@
    }

    pub closed spec fn spec_next_frame_sample(&self) -> T {
        self.next_frame_sample
    }

    pub fn new(buffer: Vec<T>, next_frame_sample: T) -> (r: Self)
        ensures
            r.spec_buffer() == buffer@,
            r.spec_next_frame_sample() == next_frame_sample,
    {
        Self { buffer, next_frame_sample }
    }

    pub fn buffer(&self) -> (r: &[T])
        ensures
            r@ == self.spec_buffer(),
    {
        self.buffer.as_slice()
    }

    /// The samples, to be written.
    pub fn buffer_mut(&mut self) -> (r: &mut [T])
        ensures
            r@ == old(self).spec_buffer(),
            final(self).spec_buffer() == final(r)@,
            final(self).spec_next_frame_sample() == old(self).spec_next_frame_sample(),
    {
        self.buffer.as_mut_slice()
    }

    pub fn next_frame_sample(&self) -> (r: T)
        ensures
            r == self.spec_next_frame_sample(),
    {
        self.next_frame_sample
    }

    /// The value at `this_frame` in the current block, else the one the next block starts from.
    pub fn scalar(&self, this_frame: Option<usize>) -> (r: T)
        requires
            this_frame matches Some(offset) ==> offset < self.spec_buffer().len(),
        ensures
            r == match this_frame {
                Some(offset) => self.spec_buffer()[offset as int],
                None => self.spec_next_frame_sample(),
            },
    {
        match this_frame {
            Some(offset) => self.buffer[offset],
            None => self.next_frame_sample,
        }
    }

    /// A control output runs one sample ahead: the next block starts from sample `samples`.
    pub fn keep_next_frame(&mut self, samples: usize)
        requires
            samples < old(self).spec_buffer().len(),
        ensures
            final(self).spec_buffer() == old(self).spec_buffer(),
            final(self).spec_next_frame_sample() == old(self).spec_buffer()[samples as int],
    {
        self.next_frame_sample = self.buffer[samples];
    }

    /// Writes `value` into samples `from..to`.
    fn fill_range(&mut self, from: usize, to: usize, value: T)
        requires
            from <= to <= old(self).spec_buffer().len(),
        ensures
            final(self).spec_next_frame_sample() == old(self).spec_next_frame_sample(),
            final(self).spec_buffer().len() == old(self).spec_buffer().len(),
            forall|i: int|
                0 <= i < old(self).spec_buffer().len() ==> #[trigger] final(self).spec_buffer()[i] == if from <= i
                    < to {
                    value
                } else {
                    old(self).spec_buffer()[i]
                },
    {
        let mut i: usize = from;
        while i < to
            invariant
                from <= i <= to,
                to <= self.buffer@.len(),
                self.buffer@.len() == old(self).buffer@.len(),
                self.next_frame_sample == old(self).next_frame_sample,
                forall|k: int|
                    0 <= k < self.buffer@.len() ==> #[trigger] self.buffer@[k] == if from <= k < i {
                        value
                    } else {
                        old(self).buffer@[k]
                    },
            decreases to - i,
        {
            self.buffer.set(i, value);
            i = i + 1;
        }
    }

    /// Before an audio voice renders a block of `samples`: a voice (re)started
    /// at `offset` is silent before it.
    pub fn start_audio_voice(&mut self, triggered: Option<usize>, samples: usize, silence: T)
        requires
            samples <= old(self).spec_buffer().len(),
        ensures
            final(self).spec_next_frame_sample() == old(self).spec_next_frame_sample(),
            final(self).spec_buffer().len() == old(self).spec_buffer().len(),
            forall|i: int|
                0 <= i < old(self).spec_buffer().len() ==> #[trigger] final(self).spec_buffer()[i] == match triggered {
                    Some(offset) => if i < offset && i < samples {
                        silence
                    } else {
                        old(self).spec_buffer()[i]
                    },
                    None => old(self).spec_buffer()[i],
                },
    {
        if let Some(offset) = triggered {
            let end = if offset < samples {
                offset
            } else {
                samples
            };
            self.fill_range(0, end, silence);
        }
    }

    /// Before a control voice renders a block of `samples`: a voice (re)started
    /// at `offset` is silent before it; otherwise the block starts where the
    /// last one ended.
    pub fn start_control_voice(&mut self, triggered: Option<usize>, samples: usize, silence: T)
        requires
            samples <= old(self).spec_buffer().len(),
            old(self).spec_buffer().len() > 0,
        ensures
            final(self).spec_next_frame_sample() == old(self).spec_next_frame_sample(),
            final(self).spec_buffer().len() == old(self).spec_buffer().len(),
            forall|i: int|
                0 <= i < old(self).spec_buffer().len() ==> #[trigger] final(self).spec_buffer()[i] == match triggered {
                    Some(offset) => if i < offset && i < samples {
                        silence
                    } else {
                        old(self).spec_buffer()[i]
                    },
                    None => if i == 0 {
                        old(self).spec_next_frame_sample()
                    } else {
                        old(self).spec_buffer()[i]
                    },
                },
    {
        match triggered {
            Some(offset) => {
                let end = if offset < samples {
                    offset
                } else {
                    samples
                };
                self.fill_range(0, end, silence);
            },
            None => {
                let next = self.next_frame_sample;
                self.buffer.set(0, next);
            },
        }
    }

    /// A control voice driven from outside: its samples from `offset` on are
    /// those of `in_buff` from `offset` on, then the last of them once more,
    /// which is also where the next block starts.
    pub fn fill_with_ext_control(&mut self, offset: usize, in_buff: &[T])
        requires
            offset < in_buff@.len(),
            in_buff@.len() < old(self).spec_buffer().len(),
        ensures
            final(self).spec_buffer().len() == old(self).spec_buffer().len(),
            final(self).spec_next_frame_sample() == in_buff@.last(),
            forall|i: int|
                0 <= i < old(self).spec_buffer().len() ==> #[trigger] final(self).spec_buffer()[i] == if offset
                    <= i < in_buff@.len() {
                    in_buff@[i]
                } else if i == in_buff@.len() {
                    in_buff@.last()
                } else {
                    old(self).spec_buffer()[i]
                },
    {
        let len: usize = in_buff.len();
        let last = in_buff[len - 1];
        let mut i: usize = offset;
        while i < len
            invariant
                offset <= i <= len,
                len == in_buff@.len(),
                len < self.buffer@.len(),
                self.buffer@.len() == old(self).buffer@.len(),
                forall|k: int|
                    0 <= k < self.buffer@.len() ==> #[trigger] self.buffer@[k] == if offset <= k < i {
                        in_buff@[k]
                    } else {
                        old(self).buffer@[k]
                    },
            decreases len - i,
        {
            self.buffer.set(i, in_buff[i]);
            i = i + 1;
        }
        self.buffer.set(len, last);
        self.next_frame_sample = last;
    }

    /// A control voice held at `value` from `offset` through sample `samples`,
    /// and the next block starts from it.
    pub fn fill_with_ext_control_value(&mut self, offset: usize, samples: usize, value: T)
        requires
            offset <= samples + 1,
            samples < old(self).spec_buffer().len(),
        ensures
            final(self).spec_buffer().len() == old(self).spec_buffer().len(),
            final(self).spec_next_frame_sample() == value,
            forall|i: int|
                0 <= i < old(self).spec_buffer().len() ==> #[trigger] final(self).spec_buffer()[i] == if offset
                    <= i <= samples {
                    value
                } else {
                    old(self).spec_buffer()[i]
                },
    {
        let len: usize = self.buffer.len();
        assert(samples < len);
        self.fill_range(offset, samples + 1, value);
        self.next_frame_sample = value;
    }
}

} // verus!
