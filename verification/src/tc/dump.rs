//! The dump of queueing disciplines: one request, and an answer that comes
//! in reads of several messages each, up to the marker that ends it.

use vstd::prelude::*;
use vstd::slice::slice_subrange;
use netlink_packet_route::tc::TcMessage;
use crate::tc::errors::TcError;
use crate::tc::netlink::encode_qdisc_request;
use crate::tc::netlink::is_qdisc_request;
use crate::tc::netlink::QDISC_REQUEST_LEN;

verus! {

/// The flag of a request.
pub const NLM_F_REQUEST: u16 = 1;

/// The flags that ask for every object, not one.
pub const NLM_F_DUMP: u16 = 768;

/// The flags of the request for a dump: a request, and for every object.
pub const QDISC_DUMP_FLAGS: u16 = 769;

/// The request that asks the kernel for all queueing disciplines: a
/// `GetQueueDiscipline` message of 36 bytes whose header carries the flags
/// of a request and of a dump, and nothing else.
pub fn qdisc_dump_request() -> (bytes: Vec<u8>)
    ensures
        is_qdisc_request(bytes@, QDISC_DUMP_FLAGS),
        QDISC_DUMP_FLAGS == NLM_F_REQUEST | NLM_F_DUMP,
        bytes@.len() == QDISC_REQUEST_LEN,
{
    assert(1u16 | 768u16 == 769u16) by (bit_vector);
    encode_qdisc_request(NLM_F_REQUEST | NLM_F_DUMP)
}

/// What one netlink message carries, as far as the dump reads it.
pub enum FrameBody {
    /// A queueing discipline.
    Qdisc(TcMessage),
    /// The marker that ends a dump.
    Done,
    /// An error that the kernel reports, with its description.
    Error(String),
    /// Anything else.
    Other,
}

/// One decoded netlink message: the length that its header declares, and
/// what it carries.
pub struct Frame {
    pub length: u32,
    pub body: FrameBody,
}

/// Where a dump stands.
pub enum DumpState {
    /// The buffered data is used up: the next read is wanted.
    AwaitingData,
    /// The read of `size` bytes is being walked; the next message begins at
    /// `offset`.
    Parsing { offset: usize, size: usize },
    /// The marker that ends the dump was seen.
    Done,
    /// The dump failed; the description says why.
    Failed(String),
}

/// Where a dump stands, as plain values.
pub enum DumpStateView {
    AwaitingData,
    Parsing { offset: usize, size: usize },
    Done,
    Failed(Seq<char>),
}

impl DeepView for DumpState {
    type V = DumpStateView;

    open spec fn deep_view(&self) -> DumpStateView {
        match self {
            DumpState::AwaitingData => DumpStateView::AwaitingData,
            DumpState::Parsing { offset, size } => DumpStateView::Parsing {
                offset: *offset,
                size: *size,
            },
            DumpState::Done => DumpStateView::Done,
            DumpState::Failed(text) => DumpStateView::Failed(text@),
        }
    }
}

/// What one step of the walk met at the offset: a message, or the
/// description of why none could be decoded.
pub enum Met {
    Qdisc(TcMessage),
    Done,
    Error(Seq<char>),
    Other,
    Undecoded(Seq<char>),
}

/// What a decoding came to, as the walk sees it.
pub open spec fn met(decoded: Result<Frame, String>) -> Met {
    match decoded {
        Err(text) => Met::Undecoded(text@),
        Ok(frame) => match frame.body {
            FrameBody::Qdisc(message) => Met::Qdisc(message),
            FrameBody::Done => Met::Done,
            FrameBody::Error(text) => Met::Error(text@),
            FrameBody::Other => Met::Other,
        },
    }
}

/// The length that a decoded message declares; 0 where none was decoded.
pub open spec fn declared(decoded: Result<Frame, String>) -> nat {
    match decoded {
        Ok(frame) => frame.length as nat,
        Err(_) => 0,
    }
}

/// Where the walk stands after a message of `length` bytes at `offset` of
/// a read of `size` bytes: at the next message, or at the end of the read,
/// which a message of no length ends too. A message that runs past the read
/// fails the dump.
pub open spec fn walked(offset: usize, size: usize, length: nat) -> DumpStateView {
    if offset + length > size {
        DumpStateView::Failed("netlink message runs past the data received"@)
    } else if offset + length == size || length == 0 {
        DumpStateView::AwaitingData
    } else {
        DumpStateView::Parsing { offset: (offset + length) as usize, size }
    }
}

/// The state after the walk met `decoded` at `offset` of a read of `size`
/// bytes: what could not be decoded and what the kernel reports as an error
/// fail the dump, the marker ends it, and any other message is stepped over.
pub open spec fn state_after(
    offset: usize,
    size: usize,
    decoded: Result<Frame, String>,
) -> DumpStateView {
    match met(decoded) {
        Met::Undecoded(text) => DumpStateView::Failed(text),
        Met::Error(text) => DumpStateView::Failed(text),
        Met::Done => DumpStateView::Done,
        _ => walked(offset, size, declared(decoded)),
    }
}

/// The messages kept after the walk met `decoded`: a queueing discipline is
/// added to those kept before, and nothing else is.
pub open spec fn kept_after(kept: Seq<TcMessage>, decoded: Result<Frame, String>) -> Seq<
    TcMessage,
> {
    match met(decoded) {
        Met::Qdisc(message) => kept.push(message),
        _ => kept,
    }
}

/// A dump as plain values: where it stands, and the messages kept.
pub type DumpView = (DumpStateView, Seq<TcMessage>);

/// Where a dump that stood at `start` stands after the walk met `frames`,
/// one after the other. A step is taken only while a read is being walked.
pub open spec fn walk(start: DumpView, frames: Seq<Result<Frame, String>>) -> DumpView
    decreases frames.len(),
{
    if frames.len() == 0 {
        start
    } else {
        let before = walk(start, frames.drop_last());
        match before.0 {
            DumpStateView::Parsing { offset, size } => (
                state_after(offset, size, frames.last()),
                kept_after(before.1, frames.last()),
            ),
            _ => before,
        }
    }
}

/// Whether `frame` is something that the decoder `decode` may give for the
/// bytes of `data` from `offset` on.
pub open spec fn decoded_at<D: Fn(&[u8]) -> Result<Frame, String>>(
    decode: D,
    data: Seq<u8>,
    offset: int,
    frame: Result<Frame, String>,
) -> bool {
    exists|bytes: &[u8]|
        #![trigger call_ensures(decode, (bytes,), frame)]
        bytes@ == data.subrange(offset, data.len() as int) && call_ensures(
            decode,
            (bytes,),
            frame,
        )
}

/// Whether a walk that stands at `state` in the read `data` takes a step
/// there that meets `frame`: it stands inside the read, and `frame` is what
/// the decoder gives for the bytes from its offset on.
pub open spec fn steps_at<D: Fn(&[u8]) -> Result<Frame, String>>(
    decode: D,
    data: Seq<u8>,
    state: DumpStateView,
    frame: Result<Frame, String>,
) -> bool {
    match state {
        DumpStateView::Parsing { offset, .. } => decoded_at(decode, data, offset as int, frame),
        _ => false,
    }
}

/// Whether `frames` are the steps of a whole walk of the read `data`: there
/// is a first step, each step meets what the decoder gives for the bytes
/// from the offset where the walk stands, every step but the last leaves the
/// walk inside the read, and the last one does not.
pub open spec fn steps_of_read<D: Fn(&[u8]) -> Result<Frame, String>>(
    decode: D,
    data: Seq<u8>,
    kept: Seq<TcMessage>,
    frames: Seq<Result<Frame, String>>,
) -> bool {
    let start = (DumpStateView::Parsing { offset: 0, size: data.len() as usize }, kept);
    &&& frames.len() > 0
    &&& forall|j: int|
        0 <= j < frames.len() ==> steps_at(
            decode,
            data,
            (#[trigger] walk(start, frames.take(j))).0,
            frames[j],
        )
    &&& !(walk(start, frames).0 is Parsing)
}

/// Whether `after` is where a dump that waited for data with the messages
/// `kept` may stand after the read `data`: the read is walked from its
/// first byte, step by step for as long as the walk stays inside the read,
/// and it is walked to an end.
pub open spec fn walked_read<D: Fn(&[u8]) -> Result<Frame, String>>(
    decode: D,
    data: Seq<u8>,
    kept: Seq<TcMessage>,
    after: DumpView,
) -> bool {
    exists|frames: Seq<Result<Frame, String>>| #[trigger]
        steps_of_read(decode, data, kept, frames) && after == walk(
            (DumpStateView::Parsing { offset: 0, size: data.len() as usize }, kept),
            frames,
        )
}

/// Whether `after` is where a dump that stood at `before` may stand after it
/// was fed the read `data`: a dump that waits for data walks the read, any
/// other stays as it is.
pub open spec fn fed<D: Fn(&[u8]) -> Result<Frame, String>>(
    decode: D,
    before: DumpView,
    data: Seq<u8>,
    after: DumpView,
) -> bool {
    if before.0 is AwaitingData {
        walked_read(decode, data, before.1, after)
    } else {
        after == before
    }
}

/// The queueing disciplines among what a walk met, in the order in which it
/// met them.
pub open spec fn qdiscs_of(frames: Seq<Result<Frame, String>>) -> Seq<TcMessage>
    decreases frames.len(),
{
    if frames.len() == 0 {
        Seq::empty()
    } else {
        kept_after(qdiscs_of(frames.drop_last()), frames.last())
    }
}

/// The queueing disciplines of two runs of messages, one after the other,
/// are those of the first and then those of the second.
pub proof fn lemma_qdiscs_of_concat(a: Seq<Result<Frame, String>>, b: Seq<Result<Frame, String>>)
    ensures
        qdiscs_of(a + b) == qdiscs_of(a) + qdiscs_of(b),
    decreases b.len(),
{
    if b.len() == 0 {
        assert(a + b =~= a);
        assert(qdiscs_of(a) + qdiscs_of(b) =~= qdiscs_of(a));
    } else {
        assert((a + b).drop_last() =~= a + b.drop_last());
        assert((a + b).last() == b.last());
        lemma_qdiscs_of_concat(a, b.drop_last());
        assert(kept_after(qdiscs_of(a) + qdiscs_of(b.drop_last()), b.last()) =~= qdiscs_of(a)
            + kept_after(qdiscs_of(b.drop_last()), b.last()));
    }
}

/// A walk that takes every one of its steps inside the read keeps the
/// queueing disciplines that it meets, each once and in their order, after
/// those kept before; and before its last step it meets nothing that ends
/// or fails the dump.
pub proof fn lemma_walk_keeps_in_order(start: DumpView, frames: Seq<Result<Frame, String>>)
    requires
        forall|j: int| 0 <= j < frames.len() ==> (#[trigger] walk(start, frames.take(j))).0 is Parsing,
    ensures
        walk(start, frames).1 == start.1 + qdiscs_of(frames),
        forall|j: int|
            0 <= j < frames.len() - 1 ==> met(#[trigger] frames[j]) is Qdisc || met(frames[j])
                is Other,
    decreases frames.len(),
{
    if frames.len() == 0 {
        assert(start.1 + qdiscs_of(frames) =~= start.1);
    } else {
        let init = frames.drop_last();
        assert forall|j: int| 0 <= j < init.len() implies (#[trigger] walk(
            start,
            init.take(j),
        )).0 is Parsing by {
            assert(init.take(j) =~= frames.take(j));
        }
        lemma_walk_keeps_in_order(start, init);
        assert(frames.take(frames.len() - 1) =~= init);
        assert(walk(start, init).0 is Parsing);
        assert(kept_after(start.1 + qdiscs_of(init), frames.last()) =~= start.1 + kept_after(
            qdiscs_of(init),
            frames.last(),
        ));
        assert forall|j: int| 0 <= j < frames.len() - 1 implies met(#[trigger] frames[j]) is Qdisc
            || met(frames[j]) is Other by {
            assert(frames[j] == init[j]);
            if j == init.len() - 1 {
                assert(init.take(init.len() - 1) =~= init.drop_last());
                assert(walk(start, init.drop_last()).0 is Parsing);
            }
        }
    }
}

/// What a dump that stands at `state` with the messages `kept` comes to:
/// the messages, if it ended with the marker; else a description of the
/// failure, and no message.
pub open spec fn outcome_of(state: DumpStateView, kept: Seq<TcMessage>) -> Result<
    Seq<TcMessage>,
    Seq<char>,
> {
    match state {
        DumpStateView::Done => Ok(kept),
        DumpStateView::Failed(text) => Err(text),
        _ => Err("netlink dump ended before its end was marked"@),
    }
}

/// An error that the kernel reports fails the dump with the error's
/// description, whatever was kept before it: what the dump comes to is that
/// error, and no message.
pub proof fn lemma_error_fails_the_dump(
    offset: usize,
    size: usize,
    decoded: Result<Frame, String>,
    kept: Seq<TcMessage>,
)
    requires
        met(decoded) is Error,
    ensures
        outcome_of(state_after(offset, size, decoded), kept_after(kept, decoded)) == Err::<
            Seq<TcMessage>,
            Seq<char>,
        >(met(decoded)->Error_0),
{
}

/// The marker ends the dump with exactly the messages kept before it.
pub proof fn lemma_marker_ends_the_dump(
    offset: usize,
    size: usize,
    decoded: Result<Frame, String>,
    kept: Seq<TcMessage>,
)
    requires
        met(decoded) is Done,
    ensures
        outcome_of(state_after(offset, size, decoded), kept_after(kept, decoded)) == Ok::<
            Seq<TcMessage>,
            Seq<char>,
        >(kept),
{
}

/// A queueing discipline is kept after those kept before it, once, and the
/// walk goes on behind it: at the next message of the read, or with the next
/// read where this one is used up.
pub proof fn lemma_qdisc_is_kept_once(
    offset: usize,
    size: usize,
    decoded: Result<Frame, String>,
    kept: Seq<TcMessage>,
)
    requires
        met(decoded) is Qdisc,
        0 < declared(decoded),
        offset + declared(decoded) <= size,
    ensures
        kept_after(kept, decoded) == kept.push(met(decoded)->Qdisc_0),
        state_after(offset, size, decoded) == if offset + declared(decoded) == size {
            DumpStateView::AwaitingData
        } else {
            DumpStateView::Parsing { offset: (offset + declared(decoded)) as usize, size }
        },
{
}

/// A dump of queueing disciplines in progress: where it stands, and the
/// messages kept so far, in the order in which they came.
pub struct QdiscDump {
    pub state: DumpState,
    pub messages: Vec<TcMessage>,
}

impl QdiscDump {
    /// A dump that has seen no data yet.
    pub fn new() -> (dump: Self)
        ensures
            dump.state.deep_view() == DumpStateView::AwaitingData,
            dump.messages@ == Seq::<TcMessage>::empty(),
    {
        QdiscDump { state: DumpState::AwaitingData, messages: Vec::new() }
    }

    /// Whether the dump waits for the next read.
    pub fn wants_data(&self) -> (b: bool)
        ensures
            b == (self.state.deep_view() is AwaitingData),
    {
        match &self.state {
            DumpState::AwaitingData => true,
            _ => false,
        }
    }

    /// Takes one step of the walk: `decoded` is what was met at the offset
    /// where the walk stands. A dump that is not walking a read stays as it
    /// is.
    pub fn on_frame(&mut self, decoded: Result<Frame, String>)
        ensures
            match old(self).state.deep_view() {
                DumpStateView::Parsing { offset, size } => {
                    &&& final(self).state.deep_view() == state_after(offset, size, decoded)
                    &&& final(self).messages@ == kept_after(old(self).messages@, decoded)
                },
                _ => {
                    &&& final(self).state.deep_view() == old(self).state.deep_view()
                    &&& final(self).messages@ == old(self).messages@
                },
            },
    {
        let (offset, size) = match &self.state {
            DumpState::Parsing { offset, size } => (*offset, *size),
            _ => {
                return ;
            },
        };
        let frame = match decoded {
            Ok(frame) => frame,
            Err(text) => {
                self.state = DumpState::Failed(text);
                return ;
            },
        };
        let length = frame.length as usize;
        match frame.body {
            FrameBody::Error(text) => {
                self.state = DumpState::Failed(text);
                return ;
            },
            FrameBody::Done => {
                self.state = DumpState::Done;
                return ;
            },
            FrameBody::Qdisc(message) => {
                self.messages.push(message);
            },
            FrameBody::Other => {},
        }
        if length > size || offset > size - length {
            self.state = DumpState::Failed("netlink message runs past the data received".to_owned());
        } else if offset + length == size || length == 0 {
            self.state = DumpState::AwaitingData;
        } else {
            self.state = DumpState::Parsing { offset: offset + length, size };
        }
    }

    /// This dump as plain values.
    pub open spec fn view(&self) -> DumpView {
        (self.state.deep_view(), self.messages@)
    }

    /// Takes one read of the answer and walks it message by message, from
    /// its first byte: up to its end, to the marker that ends the dump, or to
    /// what fails it. `decode` gives the message that bytes begin with, or
    /// says why they hold none. A dump that does not wait for data stays as
    /// it is.
    ///
    /// The decoder is handed in, and the walk holds for whatever it gives:
    /// the decoder of `netlink-packet-route` reads in the machine's byte
    /// order, and it panics on a message that is framed well but holds a
    /// statistics entry shorter than its fields, which nothing here may do.
    pub fn feed<D: Fn(&[u8]) -> Result<Frame, String>>(&mut self, data: &[u8], decode: &D)
        requires
            forall|bytes: &[u8]| call_requires(*decode, (bytes,)),
        ensures
            fed(*decode, old(self)@, data@, final(self)@),
            old(self).messages@.is_prefix_of(final(self).messages@),
    {
        match &self.state {
            DumpState::AwaitingData => {},
            _ => {
                return ;
            },
        }
        let size: usize = data.len();
        let mut offset: usize = 0;
        self.state = DumpState::Parsing { offset, size };
        let ghost before = old(self).messages@;
        let ghost start = (DumpStateView::Parsing { offset: 0, size }, before);
        let ghost frames = Seq::<Result<Frame, String>>::empty();
        loop
            invariant_except_break
                self.state.deep_view() == (DumpStateView::Parsing { offset, size }),
            invariant
                offset <= size,
                size == data@.len(),
                forall|bytes: &[u8]| call_requires(*decode, (bytes,)),
                start == (DumpStateView::Parsing { offset: 0, size }, before),
                before.is_prefix_of(self.messages@),
                self@ == walk(start, frames),
                forall|j: int|
                    0 <= j < frames.len() ==> steps_at(
                        *decode,
                        data@,
                        (#[trigger] walk(start, frames.take(j))).0,
                        frames[j],
                    ),
            ensures
                steps_of_read(*decode, data@, before, frames),
            decreases size - offset,
        {
            let bytes = slice_subrange(data, offset, size);
            let decoded = decode(bytes);
            let ghost met_here = decoded;
            let ghost earlier = frames;
            proof {
                assert(call_ensures(*decode, (bytes,), met_here));
                assert(decoded_at(*decode, data@, offset as int, met_here));
            }
            self.on_frame(decoded);
            proof {
                frames = earlier.push(met_here);
                assert(frames.drop_last() =~= earlier);
                assert(frames.take(frames.len() as int) =~= frames);
                assert(frames.take(earlier.len() as int) =~= earlier);
                assert forall|j: int| 0 <= j < frames.len() implies steps_at(
                    *decode,
                    data@,
                    (#[trigger] walk(start, frames.take(j))).0,
                    frames[j],
                ) by {
                    if j < earlier.len() {
                        assert(frames.take(j) =~= earlier.take(j));
                        assert(frames[j] == earlier[j]);
                    }
                }
            }
            match &self.state {
                DumpState::Parsing { offset: next, .. } => {
                    offset = *next;
                },
                _ => {
                    break ;
                },
            }
        }
        proof {
            assert(walked_read(*decode, data@, before, self@));
        }
    }

    /// Records that the socket failed: the dump fails with `text`, unless it
    /// has ended or failed already.
    pub fn abort(&mut self, text: String)
        ensures
            final(self).messages@ == old(self).messages@,
            final(self).state.deep_view() == match old(self).state.deep_view() {
                DumpStateView::Done => DumpStateView::Done,
                DumpStateView::Failed(first) => DumpStateView::Failed(first),
                _ => DumpStateView::Failed(text@),
            },
    {
        match &self.state {
            DumpState::Done => {},
            DumpState::Failed(_) => {},
            _ => {
                self.state = DumpState::Failed(text);
            },
        }
    }

    /// What the dump came to: the messages kept, if it ended with the
    /// marker; else an error, and never the messages kept until then. A
    /// dump that was cut short fails too.
    pub fn finish(self) -> (r: Result<Vec<TcMessage>, TcError>)
        ensures
            match outcome_of(self.state.deep_view(), self.messages@) {
                Ok(kept) => r matches Ok(messages) && messages@ == kept,
                Err(text) => r matches Err(TcError::Netlink(m)) && m@ == text,
            },
    {
        match self.state {
            DumpState::Done => Ok(self.messages),
            DumpState::Failed(text) => Err(TcError::Netlink(text)),
            _ => Err(
                TcError::Netlink("netlink dump ended before its end was marked".to_owned()),
            ),
        }
    }
}

} // verus!
