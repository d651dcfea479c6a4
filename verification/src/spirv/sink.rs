//! Where emitted words go.
use vstd::prelude::*;
use vstd::slice::slice_subrange;

use super::error::PcuSpirvError;

verus! {

/// A sink for words.
pub trait PcuSpirvSink {
    /// The words taken so far.
    spec fn words(&self) -> Seq<u32>;

    /// How many more words the sink takes.
    spec fn room(&self) -> nat;

    /// The error of a sink that takes no more.
    spec fn failure(&self) -> PcuSpirvError;

    /// Appends one word.
    ///
    /// # Errors
    ///
    /// An honest sink failure. A word that is refused is not taken in part, and a sink that is
    /// full stays so.
    fn push_word(&mut self, word: u32) -> (taken: Result<(), PcuSpirvError>)
        ensures
            final(self).failure() == old(self).failure(),
            if old(self).room() > 0 {
                &&& taken is Ok
                &&& final(self).words() == old(self).words().push(word)
                &&& final(self).room() == old(self).room() - 1
            } else {
                &&& taken == Err::<(), PcuSpirvError>(old(self).failure())
                &&& final(self).words() == old(self).words()
                &&& final(self).room() == 0
            },
    ;
}

/// A word sink of fixed capacity that allocates nothing.
#[derive(Debug, Clone, PartialEq, Eq)]
pub struct PcuSpirvFixedSink<const WORDS: usize> {
    pub words: [u32; WORDS],
    pub len: usize,
}

impl<const WORDS: usize> PcuSpirvFixedSink<WORDS> {
    /// The words held fit the capacity.
    pub open spec fn wf(self) -> bool {
        self.len <= WORDS
    }

    #[must_use]
    pub fn new() -> (sink: PcuSpirvFixedSink<WORDS>)
        ensures
            sink.wf(),
            sink.words() == Seq::<u32>::empty(),
            sink.room() == WORDS,
    {
        let sink = PcuSpirvFixedSink { words: [0u32;WORDS], len: 0 };
        assert(sink.words() =~= Seq::<u32>::empty());
        sink
    }

    #[must_use]
    pub fn as_slice(&self) -> (words: &[u32])
        requires
            self.wf(),
        ensures
            words@ == self.words(),
    {
        slice_subrange(self.words.as_slice(), 0, self.len)
    }

    #[must_use]
    pub fn len(&self) -> (len: usize)
        requires
            self.wf(),
        ensures
            len == self.words().len(),
    {
        self.len
    }

    #[must_use]
    pub fn is_empty(&self) -> (empty: bool)
        requires
            self.wf(),
        ensures
            empty == (self.words().len() == 0),
    {
        self.len == 0
    }
}

impl<const WORDS: usize> Default for PcuSpirvFixedSink<WORDS> {
    fn default() -> (sink: PcuSpirvFixedSink<WORDS>)
        ensures
            sink.wf(),
            sink.words() == Seq::<u32>::empty(),
            sink.room() == WORDS,
    {
        PcuSpirvFixedSink::new()
    }
}

impl<const WORDS: usize> PcuSpirvSink for PcuSpirvFixedSink<WORDS> {
    open spec fn words(&self) -> Seq<u32> {
        self.words@.take(self.len as int)
    }

    open spec fn room(&self) -> nat {
        if self.len <= WORDS {
            (WORDS - self.len) as nat
        } else {
            0
        }
    }

    open spec fn failure(&self) -> PcuSpirvError {
        PcuSpirvError::SinkFull
    }

    fn push_word(&mut self, word: u32) -> (taken: Result<(), PcuSpirvError>)
        ensures
            old(self).wf() ==> final(self).wf(),
    {
        if self.len >= WORDS {
            return Err(PcuSpirvError::SinkFull);
        }
        let ghost before = self.words();
        let at: usize = self.len;
        self.words[at] = word;
        self.len = at + 1;
        assert(self.words() =~= before.push(word));
        Ok(())
    }
}

} // verus!
