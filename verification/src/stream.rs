//! Framing a stream piece by piece: the framer says how many bytes it wants
//! next, takes what a reader could get of them, and decides how to go on.
//! Only one payload is held at a time.

use crate::endian::{le_value, read_u16_le};
use crate::framer::{
    absorb, absorb_payload, extract, no_messages, results_view, scan, Extraction, FrameError,
};
use crate::parser::{messages_view, texts_view, ParsedMessage};
use crate::registry::{MessageRegistry, MessageSpec};
use vstd::prelude::*;

verus! {

/// Where a framer stands in the stream.
#[derive(Debug, Clone, Copy, PartialEq, Eq, Structural)]
pub enum Phase {
    /// Before the header.
    Header,
    /// Before the type id of a message, where the stream may end.
    TypeId,
    /// Before the payload length of a message of the given type.
    Length(u16),
    /// Before the payload, of the given length, of a message of the given
    /// type.
    Payload(u16, u16),
    /// The stream ended where it may.
    Done,
    /// The stream cannot be framed.
    Failed(FrameError),
}

/// How many bytes the framer wants next; none once it is done or has failed.
pub open spec fn wanted(phase: Phase) -> Option<nat> {
    match phase {
        Phase::Header => Some(4nat),
        Phase::TypeId => Some(2nat),
        Phase::Length(_) => Some(2nat),
        Phase::Payload(_, length) => Some(length as nat),
        Phase::Done => None,
        Phase::Failed(_) => None,
    }
}

/// The phase and results after the framer was given `chunk`: the bytes it
/// wanted, or fewer where the stream ended.
pub open spec fn fed(phase: Phase, acc: Extraction, chunk: Seq<u8>, defs: Map<u16, MessageSpec>) -> (
    Phase,
    Extraction,
) {
    match phase {
        Phase::Header => if chunk.len() < 4 {
            (Phase::Failed(FrameError::TruncatedHeader), acc)
        } else {
            (Phase::TypeId, acc)
        },
        Phase::TypeId => if chunk.len() == 0 {
            (Phase::Done, acc)
        } else if chunk.len() < 2 {
            (Phase::Failed(FrameError::TruncatedTypeId), acc)
        } else {
            (Phase::Length(le_value(chunk.take(2)) as u16), acc)
        },
        Phase::Length(log_type) => if chunk.len() < 2 {
            (Phase::Failed(FrameError::TruncatedLength), acc)
        } else {
            (Phase::Payload(log_type, le_value(chunk.take(2)) as u16), acc)
        },
        Phase::Payload(log_type, length) => if chunk.len() < length {
            (Phase::Failed(FrameError::TruncatedPayload), acc)
        } else {
            let next = absorb(acc, log_type, chunk.take(length as int), defs);
            if next.skipped > usize::MAX {
                (Phase::Failed(FrameError::SkipCountOverflow), acc)
            } else {
                (Phase::TypeId, next)
            }
        },
        Phase::Done => (phase, acc),
        Phase::Failed(_) => (phase, acc),
    }
}

/// What a reader at `pos` gets when asked for `count` bytes: that many, or
/// what is left of the stream.
pub open spec fn chunk_at(stream: Seq<u8>, pos: int, count: nat) -> Seq<u8> {
    if pos + count <= stream.len() {
        stream.subrange(pos, pos + count)
    } else {
        stream.subrange(pos, stream.len() as int)
    }
}

/// Orders the phases so that a phase that may pass without taking a byte
/// comes after the one that follows it.
pub open spec fn phase_rank(phase: Phase) -> nat {
    match phase {
        Phase::Header => 3,
        Phase::Length(_) => 3,
        Phase::Payload(_, _) => 2,
        Phase::TypeId => 1,
        Phase::Done => 0,
        Phase::Failed(_) => 0,
    }
}

/// The phase and results in which a framer ends that starts at `pos` and is
/// given, time after time, what it wants of the stream.
pub open spec fn driven(
    stream: Seq<u8>,
    pos: int,
    phase: Phase,
    acc: Extraction,
    defs: Map<u16, MessageSpec>,
) -> (Phase, Extraction)
    decreases stream.len() - pos, phase_rank(phase),
{
    if pos < 0 || pos > stream.len() {
        (phase, acc)
    } else {
        match wanted(phase) {
            None => (phase, acc),
            Some(count) => {
                let chunk = chunk_at(stream, pos, count);
                let next = fed(phase, acc, chunk, defs);
                driven(stream, pos + chunk.len(), next.0, next.1, defs)
            },
        }
    }
}

/// What a framer that has ended gives.
pub open spec fn outcome(end: (Phase, Extraction)) -> Result<Extraction, FrameError> {
    match end.0 {
        Phase::Failed(e) => Err(e),
        _ => Ok(end.1),
    }
}

/// Two bytes denote a number below 65536.
pub proof fn lemma_le_value_two(bytes: Seq<u8>)
    requires
        bytes.len() == 2,
    ensures
        le_value(bytes) < 0x1_0000,
{
    assert(le_value(bytes.drop_first().drop_first()) == 0);
    assert(le_value(bytes.drop_first()) == bytes[1]);
}

/// From the start of a message on, the framer that is fed piece by piece
/// ends as the framing of the whole stream does.
pub proof fn lemma_driven_scans(
    stream: Seq<u8>,
    pos: int,
    acc: Extraction,
    defs: Map<u16, MessageSpec>,
)
    requires
        0 <= pos <= stream.len(),
    ensures
        outcome(driven(stream, pos, Phase::TypeId, acc, defs)) == scan(stream, pos, acc, defs),
    decreases stream.len() - pos,
{
    let len = stream.len() as int;
    let first = chunk_at(stream, pos, 2);
    let after_first = fed(Phase::TypeId, acc, first, defs);
    assert(driven(stream, pos, Phase::TypeId, acc, defs) == driven(
        stream,
        pos + first.len(),
        after_first.0,
        after_first.1,
        defs,
    ));
    if len - pos == 0 {
        assert(after_first.0 == Phase::Done);
        assert(driven(stream, pos, Phase::Done, acc, defs) == (Phase::Done, acc));
    } else if len - pos < 2 {
        let failed = Phase::Failed(FrameError::TruncatedTypeId);
        assert(after_first.0 == failed);
        assert(driven(stream, pos + 1, failed, acc, defs) == (failed, acc));
    } else {
        assert(first.take(2) =~= stream.subrange(pos, pos + 2));
        lemma_le_value_two(stream.subrange(pos, pos + 2));
        let log_type = le_value(stream.subrange(pos, pos + 2)) as u16;
        assert(after_first == (Phase::Length(log_type), acc));
        let second = chunk_at(stream, pos + 2, 2);
        let after_second = fed(Phase::Length(log_type), acc, second, defs);
        assert(driven(stream, pos + 2, Phase::Length(log_type), acc, defs) == driven(
            stream,
            pos + 2 + second.len(),
            after_second.0,
            after_second.1,
            defs,
        ));
        if len - pos < 4 {
            let failed = Phase::Failed(FrameError::TruncatedLength);
            assert(after_second == (failed, acc));
            assert(driven(stream, pos + 2 + second.len(), failed, acc, defs) == (failed, acc));
        } else {
            assert(second.take(2) =~= stream.subrange(pos + 2, pos + 4));
            lemma_le_value_two(stream.subrange(pos + 2, pos + 4));
            let length = le_value(stream.subrange(pos + 2, pos + 4));
            let reading = Phase::Payload(log_type, length as u16);
            assert(after_second == (reading, acc));
            let third = chunk_at(stream, pos + 4, length);
            let after_third = fed(reading, acc, third, defs);
            assert(driven(stream, pos + 4, reading, acc, defs) == driven(
                stream,
                pos + 4 + third.len(),
                after_third.0,
                after_third.1,
                defs,
            ));
            if len - pos - 4 < length {
                let failed = Phase::Failed(FrameError::TruncatedPayload);
                assert(after_third == (failed, acc));
                assert(driven(stream, pos + 4 + third.len(), failed, acc, defs) == (failed, acc));
            } else {
                assert(third.take(length as int) =~= stream.subrange(pos + 4, pos + 4 + length));
                let next = absorb(acc, log_type, stream.subrange(pos + 4, pos + 4 + length), defs);
                if next.skipped > usize::MAX {
                    let failed = Phase::Failed(FrameError::SkipCountOverflow);
                    assert(after_third == (failed, acc));
                    assert(driven(stream, pos + 4 + length, failed, acc, defs) == (failed, acc));
                } else {
                    assert(after_third == (Phase::TypeId, next));
                    lemma_driven_scans(stream, pos + 4 + length, next, defs);
                }
            }
        }
    }
}

/// A framer that is fed a stream piece by piece, from its header on, ends
/// with the results of framing the whole stream at once, or with the same
/// error.
pub proof fn law_feeding_is_extracting(stream: Seq<u8>, defs: Map<u16, MessageSpec>)
    ensures
        outcome(driven(stream, 0, Phase::Header, no_messages(), defs)) == extract(stream, defs),
{
    let first = chunk_at(stream, 0, 4);
    let after_first = fed(Phase::Header, no_messages(), first, defs);
    assert(driven(stream, 0, Phase::Header, no_messages(), defs) == driven(
        stream,
        first.len() as int,
        after_first.0,
        after_first.1,
        defs,
    ));
    if stream.len() >= 4 {
        lemma_driven_scans(stream, 4, no_messages(), defs);
    } else {
        let failed = Phase::Failed(FrameError::TruncatedHeader);
        assert(driven(stream, first.len() as int, failed, no_messages(), defs) == (
            failed,
            no_messages(),
        ));
    }
}

/// A framer: the phase it is in and the results so far.
pub struct Framer {
    pub phase: Phase,
    pub messages: Vec<ParsedMessage>,
    pub warnings: Vec<String>,
    pub skipped: usize,
}

impl Framer {
    /// The results so far, as plain text.
    pub open spec fn results(&self) -> Extraction {
        results_view(self.messages@, self.warnings@, self.skipped)
    }

    /// A framer before the header of a stream, with no results.
    pub fn new() -> (r: Framer)
        ensures
            r.phase == Phase::Header,
            r.results() == no_messages(),
    {
        let r = Framer {
            phase: Phase::Header,
            messages: Vec::new(),
            warnings: Vec::new(),
            skipped: 0,
        };
        proof {
            assert(messages_view(r.messages@) =~= no_messages().messages);
            assert(texts_view(r.warnings@) =~= no_messages().warnings);
        }
        r
    }

    /// How many bytes to read next and hand to `feed`; `None` once the framer
    /// is done or has failed.
    pub fn wants(&self) -> (n: Option<usize>)
        ensures
            match n {
                Some(count) => wanted(self.phase) == Some(count as nat),
                None => wanted(self.phase) is None,
            },
    {
        match self.phase {
            Phase::Header => Some(4),
            Phase::TypeId => Some(2),
            Phase::Length(_) => Some(2),
            Phase::Payload(_, length) => Some(length as usize),
            Phase::Done => None,
            Phase::Failed(_) => None,
        }
    }

    /// Takes the bytes that were read: as many as the framer wanted, or
    /// fewer where the stream ended before. Bytes beyond those wanted are
    /// not looked at.
    pub fn feed(&mut self, chunk: &[u8], registry: &MessageRegistry)
        ensures
            (final(self).phase, final(self).results()) == fed(
                old(self).phase,
                old(self).results(),
                chunk@,
                registry@,
            ),
    {
        let len: usize = chunk.len();
        match self.phase {
            Phase::Header => {
                if len < 4 {
                    self.phase = Phase::Failed(FrameError::TruncatedHeader);
                } else {
                    self.phase = Phase::TypeId;
                }
            },
            Phase::TypeId => {
                if len == 0 {
                    self.phase = Phase::Done;
                } else if len < 2 {
                    self.phase = Phase::Failed(FrameError::TruncatedTypeId);
                } else {
                    let log_type: u16 = read_u16_le(vstd::slice::slice_subrange(chunk, 0, 2));
                    proof {
                        assert(chunk@.subrange(0, 2) =~= chunk@.take(2));
                    }
                    self.phase = Phase::Length(log_type);
                }
            },
            Phase::Length(log_type) => {
                if len < 2 {
                    self.phase = Phase::Failed(FrameError::TruncatedLength);
                } else {
                    let length: u16 = read_u16_le(vstd::slice::slice_subrange(chunk, 0, 2));
                    proof {
                        assert(chunk@.subrange(0, 2) =~= chunk@.take(2));
                    }
                    self.phase = Phase::Payload(log_type, length);
                }
            },
            Phase::Payload(log_type, length) => {
                if len < length as usize {
                    self.phase = Phase::Failed(FrameError::TruncatedPayload);
                } else {
                    let payload: &[u8] = vstd::slice::slice_subrange(chunk, 0, length as usize);
                    proof {
                        assert(chunk@.subrange(0, length as int) =~= chunk@.take(length as int));
                    }
                    let fits: bool = absorb_payload(
                        &mut self.messages,
                        &mut self.warnings,
                        &mut self.skipped,
                        log_type,
                        payload,
                        registry,
                    );
                    if fits {
                        self.phase = Phase::TypeId;
                    } else {
                        self.phase = Phase::Failed(FrameError::SkipCountOverflow);
                    }
                }
            },
            Phase::Done => {},
            Phase::Failed(_) => {},
        }
    }
}

} // verus!
