//! Newline framing of a byte stream, one byte at a time.

use vstd::prelude::*;

verus! {

/// The byte that ends a frame.
pub const NEWLINE: u8 = 10;

/// A reader that collects bytes until a newline completes a frame.
pub struct LineReader {
    pending: Vec<u8>,
}

/// The frames that `bytes` complete, in order.
pub open spec fn frames_of(bytes: Seq<u8>) -> Seq<Seq<u8>>
    decreases bytes.len(),
{
    if bytes.len() == 0 {
        Seq::empty()
    } else if bytes.last() == NEWLINE {
        frames_of(bytes.drop_last()).push(tail_of(bytes.drop_last()))
    } else {
        frames_of(bytes.drop_last())
    }
}

/// The bytes behind the last newline of `bytes`: the frame still open.
pub open spec fn tail_of(bytes: Seq<u8>) -> Seq<u8>
    decreases bytes.len(),
{
    if bytes.len() == 0 {
        Seq::empty()
    } else if bytes.last() == NEWLINE {
        Seq::empty()
    } else {
        tail_of(bytes.drop_last()).push(bytes.last())
    }
}

impl View for LineReader {
    type V = Seq<u8>;

    /// The bytes of the frame still open.
    closed spec fn view(&self) -> Seq<u8> {
        self.pending@
    }
}

impl LineReader {
    /// A reader with no byte pending.
    pub fn new() -> (reader: LineReader)
        ensures
            reader@ == Seq::<u8>::empty(),
    {
        LineReader { pending: Vec::new() }
    }

    /// Takes the next byte of the stream. A newline completes the frame and
    /// hands it out, without the newline; any other byte joins the frame.
    pub fn push(&mut self, byte: u8) -> (frame: Option<Vec<u8>>)
        ensures
            byte == NEWLINE ==> frame is Some && frame->Some_0@ == old(self)@ && final(self)@
                == Seq::<u8>::empty(),
            byte != NEWLINE ==> frame is None && final(self)@ == old(self)@.push(byte),
    {
        if byte == NEWLINE {
            let mut done: Vec<u8> = Vec::new();
            core::mem::swap(&mut done, &mut self.pending);
            Some(done)
        } else {
            self.pending.push(byte);
            None
        }
    }

    /// Ends the stream and hands out what was pending behind the last
    /// newline.
    pub fn finish(self) -> (rest: Vec<u8>)
        ensures
            rest@ == self@,
    {
        self.pending
    }
}

/// Splits a whole stream into its completed frames and the bytes left open
/// at its end.
pub fn split_frames(bytes: &[u8]) -> (out: (Vec<Vec<u8>>, Vec<u8>))
    ensures
        out.0@.len() == frames_of(bytes@).len(),
        forall|k: int| 0 <= k < out.0@.len() ==> (#[trigger] out.0@[k])@ == frames_of(bytes@)[k],
        out.1@ == tail_of(bytes@),
{
    let mut reader = LineReader::new();
    let mut frames: Vec<Vec<u8>> = Vec::new();
    let mut i: usize = 0;
    assert(bytes@.subrange(0, 0) =~= Seq::<u8>::empty());
    while i < bytes.len()
        invariant
            i <= bytes@.len(),
            reader@ == tail_of(bytes@.subrange(0, i as int)),
            frames@.len() == frames_of(bytes@.subrange(0, i as int)).len(),
            forall|k: int|
                0 <= k < frames@.len() ==> (#[trigger] frames@[k])@ == frames_of(
                    bytes@.subrange(0, i as int),
                )[k],
        decreases bytes@.len() - i,
    {
        proof {
            let now = bytes@.subrange(0, i + 1);
            assert(now.drop_last() =~= bytes@.subrange(0, i as int));
            assert(now.last() == bytes@[i as int]);
        }
        match reader.push(bytes[i]) {
            Some(frame) => {
                frames.push(frame);
            },
            None => {},
        }
        i = i + 1;
    }
    assert(bytes@.subrange(0, i as int) =~= bytes@);
    (frames, reader.finish())
}

} // verus!
