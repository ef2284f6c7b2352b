//! The scratch buffer in which a thread stages a line before the line goes to
//! a stream, and what happens when rendering one record emits another.
//!
//! A thread owns one scratch buffer. Rendering a record may emit further
//! records, for example where the text of a value is produced by code that logs.
//! Such a nested record finds the buffer taken. It is then staged in a buffer
//! of its own and written at once, so that it reaches the stream as a whole
//! line, before the line of the record whose rendering emitted it.

use vstd::prelude::*;

verus! {

/// The scratch buffer of one thread: free, or lent to the record that is being
/// rendered.
#[derive(Debug)]
pub struct ScratchBuffer {
    slot: Option<Vec<u8>>,
}

/// The buffer in which one record is staged.
#[derive(Debug)]
pub enum Staging {
    /// The thread's scratch buffer.
    Shared(Vec<u8>),
    /// A buffer of the record's own, because the scratch buffer was taken.
    Private(Vec<u8>),
}

/// One piece of what rendering a record does.
#[derive(Debug)]
pub enum Fragment {
    /// Bytes are written to the line of the record.
    Text(Vec<u8>),
    /// Another record is emitted, which is rendered in its turn.
    Nested(Rendering),
}

/// What rendering a record does, piece by piece.
#[derive(Debug)]
pub struct Rendering {
    pub fragments: Vec<Fragment>,
}

/// The end of a line.
pub open spec fn line_end() -> Seq<u8> {
    seq![0x0au8]
}

/// The bytes that the first `n` pieces write to the line of the record itself.
pub open spec fn text_up_to(fragments: Seq<Fragment>, n: int) -> Seq<u8>
    decreases n,
{
    if n <= 0 || n > fragments.len() {
        Seq::empty()
    } else {
        text_up_to(fragments, n - 1) + match fragments[n - 1] {
            Fragment::Text(bytes) => bytes@,
            Fragment::Nested(_) => Seq::empty(),
        }
    }
}

/// The lines that reach the stream while the first `n` pieces of a record are
/// rendered: those of the records that these pieces emit.
pub open spec fn nested_lines_up_to(rendering: Rendering, n: int) -> Seq<u8>
    decreases rendering, n,
{
    if n <= 0 || n > rendering.fragments.len() {
        Seq::empty()
    } else {
        nested_lines_up_to(rendering, n - 1) + match rendering.fragments[n - 1] {
            Fragment::Text(_) => Seq::empty(),
            Fragment::Nested(inner) => lines(inner),
        }
    }
}

/// Everything that reaches the stream for a record: first the lines of the
/// records that its rendering emits, each as a whole and in the order in which
/// they are emitted, and then the line of the record itself, unbroken.
pub open spec fn lines(rendering: Rendering) -> Seq<u8>
    decreases rendering, rendering.fragments.len() + 1,
{
    nested_lines_up_to(rendering, rendering.fragments.len() as int) + text_up_to(
        rendering.fragments@,
        rendering.fragments.len() as int,
    ) + line_end()
}

impl Staging {
    /// The bytes that are staged.
    pub open spec fn bytes(self) -> Seq<u8> {
        match self {
            Staging::Shared(buffer) => buffer@,
            Staging::Private(buffer) => buffer@,
        }
    }

    /// Adds bytes to the line.
    pub fn extend(&mut self, bytes: &[u8])
        ensures
            final(self).bytes() == old(self).bytes() + bytes@,
            (*final(self) is Shared) == (*old(self) is Shared),
    {
        match self {
            Staging::Shared(buffer) => buffer.extend_from_slice(bytes),
            Staging::Private(buffer) => buffer.extend_from_slice(bytes),
        }
    }

    /// Ends the line that is staged: adds the line end, after which the staged
    /// bytes are the whole line as it goes to the stream.
    pub fn end_line(&mut self)
        ensures
            final(self).bytes() == old(self).bytes() + line_end(),
            (*final(self) is Shared) == (*old(self) is Shared),
    {
        self.extend(&[0x0au8]);
    }

    /// The staged bytes.
    pub fn as_slice(&self) -> (bytes: &[u8])
        ensures
            bytes@ == self.bytes(),
    {
        match self {
            Staging::Shared(buffer) => buffer.as_slice(),
            Staging::Private(buffer) => buffer.as_slice(),
        }
    }
}

impl ScratchBuffer {
    /// Whether the buffer is free, that is, not lent to a record.
    pub closed spec fn is_free(&self) -> bool {
        self.slot is Some
    }

    /// A scratch buffer that is free.
    pub fn new() -> (scratch: ScratchBuffer)
        ensures
            scratch.is_free(),
    {
        ScratchBuffer { slot: Some(Vec::with_capacity(200)) }
    }

    /// Tries to take the scratch buffer for a record, without waiting. If the
    /// buffer is free, the record is staged in it; if it is lent, the record gets
    /// a buffer of its own. Either way the staging buffer is empty.
    pub fn acquire(&mut self) -> (staging: Staging)
        ensures
            staging.bytes() == Seq::<u8>::empty(),
            (staging is Shared) == old(self).is_free(),
            !final(self).is_free(),
    {
        match self.slot.take() {
            Some(mut buffer) => {
                buffer.clear();
                Staging::Shared(buffer)
            },
            None => Staging::Private(Vec::with_capacity(200)),
        }
    }

    /// Ends the staging of a record. The scratch buffer is emptied and becomes
    /// free again; a record's own buffer is dropped.
    pub fn release(&mut self, staging: Staging)
        ensures
            final(self).is_free() == (staging is Shared || old(self).is_free()),
    {
        match staging {
            Staging::Shared(mut buffer) => {
                buffer.clear();
                self.slot = Some(buffer);
            },
            Staging::Private(_) => {},
        }
    }
}

/// Renders a record and writes its line to `sink`, staging the line in the
/// thread's scratch buffer, or in a buffer of its own if the scratch buffer is
/// taken.
///
/// Records that the rendering emits are written while the record is staged:
/// their lines reach `sink` first, and the line of the record follows in one
/// piece. Afterwards the scratch buffer is free again if it was free before.
pub fn write_buffered(scratch: &mut ScratchBuffer, rendering: &Rendering, sink: &mut Vec<u8>)
    ensures
        final(sink)@ == old(sink)@ + lines(*rendering),
        final(scratch).is_free() == old(scratch).is_free(),
    decreases rendering,
{
    let mut staging = scratch.acquire();
    let ghost was_free = old(scratch).is_free();
    let n = rendering.fragments.len();
    let mut i: usize = 0;
    while i < n
        invariant
            i <= n == rendering.fragments.len(),
            staging.bytes() == text_up_to(rendering.fragments@, i as int),
            (staging is Shared) == was_free,
            !scratch.is_free(),
            sink@ == old(sink)@ + nested_lines_up_to(*rendering, i as int),
        decreases n - i,
    {
        match &rendering.fragments[i] {
            Fragment::Text(bytes) => {
                staging.extend(bytes.as_slice());
            },
            Fragment::Nested(inner) => {
                write_buffered(scratch, inner, sink);
                assert(sink@ =~= old(sink)@ + (nested_lines_up_to(*rendering, i as int) + lines(
                    *inner,
                )));
            },
        }
        i += 1;
    }
    staging.end_line();
    sink.extend_from_slice(staging.as_slice());
    scratch.release(staging);
}

} // verus!
