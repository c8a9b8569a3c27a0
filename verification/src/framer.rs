//! The message framer: walks a stream of length-prefixed messages and
//! decodes each payload by the layout that the registry holds for its type.

use crate::endian::{le_value, read_u16_le};
use crate::parser::{
    decode, messages_view, parse_fields, texts_view, ParsedMessage, ParsedSpec,
};
use crate::registry::{MessageRegistry, MessageSpec};
use crate::text::{decimal, render_unsigned};
use vstd::prelude::*;
use vstd::slice::*;
use vstd::string::*;

verus! {

/// Why a stream cannot be framed. Each of these ends the whole run.
#[derive(Debug, Clone, Copy, PartialEq, Eq, Structural)]
pub enum FrameError {
    /// The stream is shorter than its four-byte header.
    TruncatedHeader,
    /// The stream ends inside the two bytes of a type id.
    TruncatedTypeId,
    /// The stream ends before or inside the two bytes of a payload length.
    TruncatedLength,
    /// The stream ends before the declared length of a payload.
    TruncatedPayload,
    /// The count of skipped fields does not fit the machine's address size.
    SkipCountOverflow,
}

/// What an error says in words.
pub open spec fn error_text(error: FrameError) -> Seq<char> {
    match error {
        FrameError::TruncatedHeader => "stream ends inside the header"@,
        FrameError::TruncatedTypeId => "stream ends inside a type id"@,
        FrameError::TruncatedLength => "stream ends inside a payload length"@,
        FrameError::TruncatedPayload => "stream ends inside a payload"@,
        FrameError::SkipCountOverflow => "too many skipped fields to count"@,
    }
}

impl FrameError {
    /// The error in words.
    pub fn describe(&self) -> (s: String)
        ensures
            s@ == error_text(*self),
    {
        match self {
            FrameError::TruncatedHeader => String::from_str("stream ends inside the header"),
            FrameError::TruncatedTypeId => String::from_str("stream ends inside a type id"),
            FrameError::TruncatedLength => String::from_str(
                "stream ends inside a payload length",
            ),
            FrameError::TruncatedPayload => String::from_str("stream ends inside a payload"),
            FrameError::SkipCountOverflow => String::from_str(
                "too many skipped fields to count",
            ),
        }
    }

    /// Whether the error tells that the stream ended too early.
    pub fn is_truncation(&self) -> (r: bool)
        ensures
            r == (*self != FrameError::SkipCountOverflow),
    {
        match self {
            FrameError::SkipCountOverflow => false,
            _ => true,
        }
    }
}

/// The bytes of the header that starts a stream.
pub open spec fn header_len() -> int {
    4
}

/// What framing and decoding a stream gives.
pub struct Extraction {
    pub messages: Seq<ParsedSpec>,
    pub warnings: Seq<Seq<char>>,
    pub skipped: nat,
}

pub open spec fn no_messages() -> Extraction {
    Extraction { messages: Seq::empty(), warnings: Seq::empty(), skipped: 0 }
}

/// A warning with the type id and the name of the message it came from.
pub open spec fn prefixed_warning(log_type: u16, name: Seq<char>, warning: Seq<char>) -> Seq<
    char,
> {
    "log_type "@ + decimal(log_type as nat) + " ("@ + name + "): "@ + warning
}

/// Each of the warnings with the type id and name before it.
pub open spec fn prefix_all(log_type: u16, name: Seq<char>, warnings: Seq<Seq<char>>) -> Seq<
    Seq<char>,
> {
    Seq::new(warnings.len(), |i: int| prefixed_warning(log_type, name, warnings[i]))
}

/// The results with one more message taken in. A message of a type that the
/// registry does not know leaves them as they are.
pub open spec fn absorb(
    acc: Extraction,
    log_type: u16,
    payload: Seq<u8>,
    defs: Map<u16, MessageSpec>,
) -> Extraction {
    if defs.contains_key(log_type) {
        let def = defs[log_type];
        let decoded = decode(payload, def.fields);
        Extraction {
            messages: acc.messages.push(
                ParsedSpec { log_type: log_type, name: def.name, fields: decoded.fields },
            ),
            warnings: acc.warnings + prefix_all(log_type, def.name, decoded.warnings),
            skipped: acc.skipped + decoded.skipped,
        }
    } else {
        acc
    }
}

/// The results of the messages from `pos` on, added to `acc`. The stream may
/// end only where a message would start.
pub open spec fn scan(
    stream: Seq<u8>,
    pos: int,
    acc: Extraction,
    defs: Map<u16, MessageSpec>,
) -> Result<Extraction, FrameError>
    decreases stream.len() - pos,
{
    if pos >= stream.len() {
        Ok(acc)
    } else if stream.len() - pos < 2 {
        Err(FrameError::TruncatedTypeId)
    } else if stream.len() - pos < 4 {
        Err(FrameError::TruncatedLength)
    } else {
        let log_type = le_value(stream.subrange(pos, pos + 2)) as u16;
        let length = le_value(stream.subrange(pos + 2, pos + 4));
        if stream.len() - pos - 4 < length {
            Err(FrameError::TruncatedPayload)
        } else {
            let next = absorb(acc, log_type, stream.subrange(pos + 4, pos + 4 + length), defs);
            if next.skipped > usize::MAX {
                Err(FrameError::SkipCountOverflow)
            } else {
                scan(stream, pos + 4 + length, next, defs)
            }
        }
    }
}

/// What a whole stream gives: the header is passed over, then message
/// follows message to the end.
pub open spec fn extract(stream: Seq<u8>, defs: Map<u16, MessageSpec>) -> Result<
    Extraction,
    FrameError,
> {
    if stream.len() < header_len() {
        Err(FrameError::TruncatedHeader)
    } else {
        scan(stream, header_len(), no_messages(), defs)
    }
}

/// A message of a type that the registry does not know leaves no trace: the
/// run goes on behind it with the results it had before it.
pub proof fn law_unknown_type_leaves_no_trace(
    stream: Seq<u8>,
    pos: int,
    acc: Extraction,
    defs: Map<u16, MessageSpec>,
)
    requires
        0 <= pos,
        pos + 4 <= stream.len(),
        pos + 4 + le_value(stream.subrange(pos + 2, pos + 4)) <= stream.len(),
        !defs.contains_key(le_value(stream.subrange(pos, pos + 2)) as u16),
        acc.skipped <= usize::MAX,
    ensures
        scan(stream, pos, acc, defs) == scan(
            stream,
            pos + 4 + le_value(stream.subrange(pos + 2, pos + 4)),
            acc,
            defs,
        ),
{
}

/// Builds a warning with the type id and name of its message before it.
pub fn prefixed_text(log_type: u16, name: &str, warning: &str) -> (s: String)
    ensures
        s@ == prefixed_warning(log_type, name@, warning@),
{
    let id_text: String = render_unsigned(log_type as u64);
    let mut s: String = String::from_str("log_type ");
    s.append(id_text.as_str());
    s.append(" (");
    s.append(name);
    s.append("): ");
    s.append(warning);
    s
}

/// The results so far, as plain text.
pub open spec fn results_view(
    messages: Seq<ParsedMessage>,
    warnings: Seq<String>,
    skipped: usize,
) -> Extraction {
    Extraction {
        messages: messages_view(messages),
        warnings: texts_view(warnings),
        skipped: skipped as nat,
    }
}

/// Decodes one framed payload and adds what it gives to the results.
///
/// A payload of a type that the registry does not know changes nothing.
/// Returns `false`, with nothing changed, where the count of skipped fields
/// would no longer fit.
pub fn absorb_payload(
    messages: &mut Vec<ParsedMessage>,
    warnings: &mut Vec<String>,
    skipped: &mut usize,
    log_type: u16,
    payload: &[u8],
    registry: &MessageRegistry,
) -> (fits: bool)
    ensures
        fits == (absorb(
            results_view(old(messages)@, old(warnings)@, *old(skipped)),
            log_type,
            payload@,
            registry@,
        ).skipped <= usize::MAX),
        fits ==> results_view(final(messages)@, final(warnings)@, *final(skipped)) == absorb(
            results_view(old(messages)@, old(warnings)@, *old(skipped)),
            log_type,
            payload@,
            registry@,
        ),
        !fits ==> final(messages)@ == old(messages)@ && final(warnings)@ == old(warnings)@
            && *final(skipped) == *old(skipped),
{
    let ghost before = results_view(messages@, warnings@, *skipped);
    let ghost next = absorb(before, log_type, payload@, registry@);
    match registry.get(log_type) {
        Some(def) => {
            let decoded = parse_fields(payload, def.fields.as_slice());
            let fields: Vec<(String, String)> = decoded.0;
            let field_warnings: Vec<String> = decoded.1;
            let count: usize = decoded.2;
            if count > usize::MAX - *skipped {
                return false;
            }
            *skipped = *skipped + count;
            let ghost old_messages = messages@;
            let message = ParsedMessage { log_type: log_type, name: def.name.clone(), fields };
            messages.push(message);
            proof {
                assert(messages_view(messages@) =~= messages_view(old_messages).push(message@));
            }
            let ghost old_warnings = texts_view(warnings@);
            let ghost added = prefix_all(log_type, def.name@, texts_view(field_warnings@));
            let mut j: usize = 0;
            while j < field_warnings.len()
                invariant
                    j <= field_warnings@.len(),
                    added == prefix_all(log_type, def.name@, texts_view(field_warnings@)),
                    texts_view(warnings@) == old_warnings + added.take(j as int),
                decreases field_warnings@.len() - j,
            {
                let ghost earlier = texts_view(warnings@);
                let text: String = prefixed_text(
                    log_type,
                    def.name.as_str(),
                    field_warnings[j].as_str(),
                );
                warnings.push(text);
                proof {
                    assert(texts_view(warnings@) =~= earlier.push(text@));
                    assert(added.take(j + 1) =~= added.take(j as int).push(added[j as int]));
                    assert(texts_view(warnings@) =~= old_warnings + added.take(j + 1));
                }
                j = j + 1;
            }
            proof {
                assert(added.take(j as int) =~= added);
                assert(texts_view(warnings@) == next.warnings);
            }
            true
        },
        None => true,
    }
}

/// Frames a stream and decodes every message whose type the registry knows.
///
/// Returns the decoded messages in stream order, the warnings of all of
/// them, each with its message's type id and name before it, and the number
/// of skipped fields over the whole stream. A message of an unknown type
/// leaves no trace. A stream that ends anywhere but before a type id fails.
pub fn extract_messages(stream: &[u8], registry: &MessageRegistry) -> (r: Result<
    (Vec<ParsedMessage>, Vec<String>, usize),
    FrameError,
>)
    ensures
        match r {
            Ok(out) => extract(stream@, registry@) == Ok::<Extraction, FrameError>(
                results_view(out.0@, out.1@, out.2),
            ),
            Err(e) => extract(stream@, registry@) == Err::<Extraction, FrameError>(e),
        },
{
    let len: usize = stream.len();
    if len < 4 {
        return Err(FrameError::TruncatedHeader);
    }
    let mut messages: Vec<ParsedMessage> = Vec::new();
    let mut warnings: Vec<String> = Vec::new();
    let mut total_skipped: usize = 0;
    let mut pos: usize = 4;
    proof {
        assert(messages_view(messages@) =~= no_messages().messages);
        assert(texts_view(warnings@) =~= no_messages().warnings);
    }
    while pos < len
        invariant
            4 <= pos <= len,
            len == stream@.len(),
            extract(stream@, registry@) == scan(
                stream@,
                pos as int,
                results_view(messages@, warnings@, total_skipped),
                registry@,
            ),
        decreases len - pos,
    {
        if len - pos < 2 {
            return Err(FrameError::TruncatedTypeId);
        }
        if len - pos < 4 {
            return Err(FrameError::TruncatedLength);
        }
        let log_type: u16 = read_u16_le(slice_subrange(stream, pos, pos + 2));
        let length: usize = read_u16_le(slice_subrange(stream, pos + 2, pos + 4)) as usize;
        if len - pos - 4 < length {
            return Err(FrameError::TruncatedPayload);
        }
        let payload: &[u8] = slice_subrange(stream, pos + 4, pos + 4 + length);
        let fits: bool = absorb_payload(
            &mut messages,
            &mut warnings,
            &mut total_skipped,
            log_type,
            payload,
            registry,
        );
        if !fits {
            return Err(FrameError::SkipCountOverflow);
        }
        pos = pos + 4 + length;
    }
    Ok((messages, warnings, total_skipped))
}

} // verus!
