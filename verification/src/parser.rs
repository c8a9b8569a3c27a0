//! The field decoder: turns one payload into named textual values by the
//! ordered fields of its layout.

use crate::endian::{
    as_signed, f32_text, f64_text, le_value, lemma_le_value_one, read_f32_le_text,
    read_f64_le_text, read_i16_le, read_i32_le, read_i64_le, read_u16_le, read_u32_le,
    read_u64_le,
};
use crate::registry::{schema_view, FieldDef, FieldSpec};
use crate::text::{
    decimal, hex_block, lossy_decode, render_hex, render_signed, render_text, render_unsigned,
    signed_decimal, trim_nul,
};
use crate::typecode::{kind_fits_width, resolve, resolve_type, width_of, FieldKind, TypeRule};
use vstd::prelude::*;
use vstd::slice::*;
use vstd::string::*;

verus! {

/// A field of one of these names takes up bytes and yields no value.
pub open spec fn is_skip_name(name: Seq<char>) -> bool {
    name == "TRASH"@ || name == "PADDING"@ || name == "RESERVED"@
}

/// The field that takes all that is left of the payload: one named
/// `FILE_CONTENTS` with the type code `c`.
pub open spec fn is_tail_field(f: FieldSpec) -> bool {
    f.type_code == "c"@ && f.name == "FILE_CONTENTS"@
}

/// The text of a value of the given kind, held in exactly these bytes.
pub open spec fn render_value(kind: FieldKind, bytes: Seq<u8>) -> Seq<char> {
    match kind {
        FieldKind::U64 | FieldKind::U32 | FieldKind::U16 | FieldKind::U8 => decimal(
            le_value(bytes),
        ),
        FieldKind::I64 | FieldKind::I32 | FieldKind::I16 | FieldKind::I8 => signed_decimal(
            as_signed(le_value(bytes), bytes.len()),
        ),
        FieldKind::F32 => f32_text(bytes),
        FieldKind::F64 => f64_text(bytes),
        FieldKind::Text => trim_nul(lossy_decode(bytes)),
        FieldKind::Bytes => hex_block(bytes),
    }
}

/// Warning: a skipped field reaches past the end of the payload.
pub open spec fn skip_overrun_warning(f: FieldSpec, width: nat, len: nat, cursor: nat) -> Seq<
    char,
> {
    "Attempted to skip field '"@ + f.name + "' ("@ + f.type_code + ") of size "@ + decimal(width)
        + ", but it exceeds payload length "@ + decimal(len) + ". Skipping remaining "@ + decimal(
        (len - cursor) as nat,
    ) + " bytes."@
}

/// Warning: the type code of a skipped field stands for nothing.
pub open spec fn skip_unresolved_warning(f: FieldSpec) -> Seq<char> {
    "Cannot determine size for skippable field '"@ + f.name + "' with unknown type '"@
        + f.type_code + "'. Parsing may be incorrect."@
}

/// Warning: a field reaches past the end of the payload.
pub open spec fn overrun_warning(f: FieldSpec, width: nat, len: nat) -> Seq<char> {
    "Attempted to read field '"@ + f.name + "' ("@ + f.type_code + ") of size "@ + decimal(width)
        + ", but it exceeds payload length "@ + decimal(len)
        + ". Stopping parse for this message."@
}

/// Warning: the type code of a field stands for nothing.
pub open spec fn unresolved_warning(f: FieldSpec) -> Seq<char> {
    "Cannot determine size for field '"@ + f.name + "' with unknown type '"@ + f.type_code
        + "'. Stopping parse for this message."@
}

/// Warning: bytes of the payload were left over.
pub open spec fn leftover_warning(len: nat, cursor: nat) -> Seq<char> {
    "Payload not fully consumed. Expected length "@ + decimal(len) + ", read "@ + decimal(cursor)
        + ". Remaining "@ + decimal((len - cursor) as nat) + " bytes."@
}

/// Where the decoding of one payload stands after some of its fields.
pub struct DecodeState {
    /// Bytes of the payload taken so far.
    pub cursor: nat,
    /// The values so far, each with its field's name.
    pub fields: Seq<(Seq<char>, Seq<char>)>,
    pub warnings: Seq<Seq<char>>,
    /// How many skipped fields had a width.
    pub skipped: nat,
    /// Set once a field could not be placed: no later field is looked at.
    pub stopped: bool,
}

/// What decoding one payload gives.
pub struct Decoded {
    pub fields: Seq<(Seq<char>, Seq<char>)>,
    pub warnings: Seq<Seq<char>>,
    pub skipped: nat,
}

pub open spec fn initial_state() -> DecodeState {
    DecodeState {
        cursor: 0,
        fields: Seq::empty(),
        warnings: Seq::empty(),
        skipped: 0,
        stopped: false,
    }
}

/// A skipped field: its width is taken from the payload, as far as the payload
/// goes, and no value is kept. Without a width nothing moves.
pub open spec fn skip_step(payload: Seq<u8>, st: DecodeState, f: FieldSpec) -> DecodeState {
    match width_of(f.type_code) {
        None => DecodeState { warnings: st.warnings.push(skip_unresolved_warning(f)), ..st },
        Some(w) => if st.cursor + w > payload.len() {
            DecodeState {
                cursor: payload.len(),
                warnings: st.warnings.push(
                    skip_overrun_warning(f, w, payload.len(), st.cursor),
                ),
                skipped: st.skipped + 1,
                ..st
            }
        } else {
            DecodeState { cursor: st.cursor + w, skipped: st.skipped + 1, ..st }
        },
    }
}

/// A field with a value: it is read at the cursor if its type code stands for
/// something and its width fits; otherwise decoding stops with a warning.
pub open spec fn value_step(payload: Seq<u8>, st: DecodeState, f: FieldSpec) -> DecodeState {
    match resolve(f.type_code) {
        None => DecodeState {
            warnings: st.warnings.push(unresolved_warning(f)),
            stopped: true,
            ..st
        },
        Some(rule) => if st.cursor + rule.1 > payload.len() {
            DecodeState {
                warnings: st.warnings.push(overrun_warning(f, rule.1, payload.len())),
                stopped: true,
                ..st
            }
        } else if is_tail_field(f) {
            DecodeState {
                cursor: payload.len(),
                fields: st.fields.push(
                    (
                        f.name,
                        trim_nul(
                            lossy_decode(payload.subrange(st.cursor as int, payload.len() as int)),
                        ),
                    ),
                ),
                ..st
            }
        } else {
            DecodeState {
                cursor: st.cursor + rule.1,
                fields: st.fields.push(
                    (
                        f.name,
                        render_value(
                            rule.0,
                            payload.subrange(st.cursor as int, (st.cursor + rule.1) as int),
                        ),
                    ),
                ),
                ..st
            }
        },
    }
}

/// The state after one more field.
pub open spec fn step(payload: Seq<u8>, st: DecodeState, f: FieldSpec) -> DecodeState {
    if is_skip_name(f.name) {
        skip_step(payload, st, f)
    } else {
        value_step(payload, st, f)
    }
}

/// The state after the fields of `schema`, taken in order until one stops
/// the decoding.
pub open spec fn run(payload: Seq<u8>, schema: Seq<FieldSpec>) -> DecodeState
    decreases schema.len(),
{
    if schema.len() == 0 {
        initial_state()
    } else {
        let before = run(payload, schema.drop_last());
        if before.stopped {
            before
        } else {
            step(payload, before, schema.last())
        }
    }
}

/// The result for a final state: bytes left over give one more warning.
pub open spec fn finish(payload: Seq<u8>, st: DecodeState) -> Decoded {
    Decoded {
        fields: st.fields,
        warnings: if st.cursor < payload.len() {
            st.warnings.push(leftover_warning(payload.len(), st.cursor))
        } else {
            st.warnings
        },
        skipped: st.skipped,
    }
}

/// What decoding `payload` by `schema` gives.
pub open spec fn decode(payload: Seq<u8>, schema: Seq<FieldSpec>) -> Decoded {
    finish(payload, run(payload, schema))
}

/// One decoded message: its type id, the name of its layout and its values,
/// each with its field's name, in the layout's order.
#[derive(Debug, Clone)]
pub struct ParsedMessage {
    pub log_type: u16,
    pub name: String,
    pub fields: Vec<(String, String)>,
}

/// A decoded message as plain text.
pub struct ParsedSpec {
    pub log_type: u16,
    pub name: Seq<char>,
    pub fields: Seq<(Seq<char>, Seq<char>)>,
}

impl View for ParsedMessage {
    type V = ParsedSpec;

    open spec fn view(&self) -> ParsedSpec {
        ParsedSpec { log_type: self.log_type, name: self.name@, fields: pairs_view(self.fields@) }
    }
}

/// Decoded messages as plain text, in the same order.
pub open spec fn messages_view(messages: Seq<ParsedMessage>) -> Seq<ParsedSpec> {
    Seq::new(messages.len(), |i: int| messages[i]@)
}

/// Name and value pairs as plain text.
pub open spec fn pairs_view(pairs: Seq<(String, String)>) -> Seq<(Seq<char>, Seq<char>)> {
    Seq::new(pairs.len(), |i: int| (pairs[i].0@, pairs[i].1@))
}

/// The names of name and value pairs.
pub open spec fn names_of(pairs: Seq<(Seq<char>, Seq<char>)>) -> Seq<Seq<char>> {
    Seq::new(pairs.len(), |i: int| pairs[i].0)
}

/// The values of name and value pairs.
pub open spec fn values_of(pairs: Seq<(Seq<char>, Seq<char>)>) -> Seq<Seq<char>> {
    Seq::new(pairs.len(), |i: int| pairs[i].1)
}

/// Texts as sequences of characters.
pub open spec fn texts_view(texts: Seq<String>) -> Seq<Seq<char>> {
    Seq::new(texts.len(), |i: int| texts[i]@)
}

/// Once decoding has stopped, further fields change nothing.
pub proof fn lemma_run_stopped(payload: Seq<u8>, schema: Seq<FieldSpec>, i: int)
    requires
        0 <= i <= schema.len(),
        run(payload, schema.take(i)).stopped,
    ensures
        run(payload, schema) == run(payload, schema.take(i)),
    decreases schema.len() - i,
{
    if i == schema.len() {
        assert(schema.take(i) =~= schema);
    } else {
        assert(schema.take(i + 1).drop_last() =~= schema.take(i));
        lemma_run_stopped(payload, schema, i + 1);
    }
}

/// Builds the warning for a skipped field that reaches past the payload.
pub fn skip_overrun_text(field: &FieldDef, width: usize, len: usize, cursor: usize) -> (s: String)
    requires
        cursor <= len,
    ensures
        s@ == skip_overrun_warning(field@, width as nat, len as nat, cursor as nat),
{
    let width_text: String = render_unsigned(width as u64);
    let len_text: String = render_unsigned(len as u64);
    let rest_text: String = render_unsigned((len - cursor) as u64);
    let mut s: String = String::from_str("Attempted to skip field '");
    s.append(field.name.as_str());
    s.append("' (");
    s.append(field.type_code.as_str());
    s.append(") of size ");
    s.append(width_text.as_str());
    s.append(", but it exceeds payload length ");
    s.append(len_text.as_str());
    s.append(". Skipping remaining ");
    s.append(rest_text.as_str());
    s.append(" bytes.");
    s
}

/// Builds the warning for a skipped field whose type code stands for nothing.
pub fn skip_unresolved_text(field: &FieldDef) -> (s: String)
    ensures
        s@ == skip_unresolved_warning(field@),
{
    let mut s: String = String::from_str("Cannot determine size for skippable field '");
    s.append(field.name.as_str());
    s.append("' with unknown type '");
    s.append(field.type_code.as_str());
    s.append("'. Parsing may be incorrect.");
    s
}

/// Builds the warning for a field that reaches past the payload.
pub fn overrun_text(field: &FieldDef, width: usize, len: usize) -> (s: String)
    ensures
        s@ == overrun_warning(field@, width as nat, len as nat),
{
    let width_text: String = render_unsigned(width as u64);
    let len_text: String = render_unsigned(len as u64);
    let mut s: String = String::from_str("Attempted to read field '");
    s.append(field.name.as_str());
    s.append("' (");
    s.append(field.type_code.as_str());
    s.append(") of size ");
    s.append(width_text.as_str());
    s.append(", but it exceeds payload length ");
    s.append(len_text.as_str());
    s.append(". Stopping parse for this message.");
    s
}

/// Builds the warning for a field whose type code stands for nothing.
pub fn unresolved_text(field: &FieldDef) -> (s: String)
    ensures
        s@ == unresolved_warning(field@),
{
    let mut s: String = String::from_str("Cannot determine size for field '");
    s.append(field.name.as_str());
    s.append("' with unknown type '");
    s.append(field.type_code.as_str());
    s.append("'. Stopping parse for this message.");
    s
}

/// Builds the warning for bytes left over after the last field.
pub fn leftover_text(len: usize, cursor: usize) -> (s: String)
    requires
        cursor <= len,
    ensures
        s@ == leftover_warning(len as nat, cursor as nat),
{
    let len_text: String = render_unsigned(len as u64);
    let cursor_text: String = render_unsigned(cursor as u64);
    let rest_text: String = render_unsigned((len - cursor) as u64);
    let mut s: String = String::from_str("Payload not fully consumed. Expected length ");
    s.append(len_text.as_str());
    s.append(", read ");
    s.append(cursor_text.as_str());
    s.append(". Remaining ");
    s.append(rest_text.as_str());
    s.append(" bytes.");
    s
}

/// Renders the value of a field with the given rule that lies at `start`.
pub fn read_value(payload: &[u8], start: usize, rule: TypeRule) -> (s: String)
    requires
        start + rule.width <= payload@.len(),
        kind_fits_width(rule.kind, rule.width as nat),
    ensures
        s@ == render_value(rule.kind, payload@.subrange(start as int, start + rule.width)),
{
    let len: usize = payload.len();
    assert(start + rule.width <= len);
    let bytes: &[u8] = slice_subrange(payload, start, start + rule.width);
    match rule.kind {
        FieldKind::U64 => render_unsigned(read_u64_le(bytes)),
        FieldKind::I64 => render_signed(read_i64_le(bytes)),
        FieldKind::U32 => render_unsigned(read_u32_le(bytes) as u64),
        FieldKind::I32 => render_signed(read_i32_le(bytes) as i64),
        FieldKind::U16 => render_unsigned(read_u16_le(bytes) as u64),
        FieldKind::I16 => render_signed(read_i16_le(bytes) as i64),
        FieldKind::U8 => {
            let b: u8 = bytes[0];
            proof {
                lemma_le_value_one(bytes@);
            }
            render_unsigned(b as u64)
        },
        FieldKind::I8 => {
            let b: u8 = bytes[0];
            proof {
                lemma_le_value_one(bytes@);
            }
            let v: i64 = if b >= 128 {
                b as i64 - 256
            } else {
                b as i64
            };
            render_signed(v)
        },
        FieldKind::F32 => read_f32_le_text(bytes),
        FieldKind::F64 => read_f64_le_text(bytes),
        FieldKind::Text => render_text(bytes),
        FieldKind::Bytes => render_hex(bytes),
    }
}

/// Decodes one payload by the ordered fields of its layout.
///
/// Returns the values, each with its field's name and in the layout's order,
/// the warnings, and the number of skipped fields that had a width. Fields
/// named `TRASH`, `PADDING` or `RESERVED` are skipped. Decoding stops at the
/// first other field whose type code stands for nothing or whose width does
/// not fit in what is left of the payload.
pub fn parse_fields(payload: &[u8], field_defs: &[FieldDef]) -> (r: (
    Vec<(String, String)>,
    Vec<String>,
    usize,
))
    ensures
        pairs_view(r.0@) == decode(payload@, schema_view(field_defs@)).fields,
        texts_view(r.1@) == decode(payload@, schema_view(field_defs@)).warnings,
        r.2 == decode(payload@, schema_view(field_defs@)).skipped,
{
    let trash: String = String::from_str("TRASH");
    let padding: String = String::from_str("PADDING");
    let reserved: String = String::from_str("RESERVED");
    let tail_name: String = String::from_str("FILE_CONTENTS");
    let tail_code: String = String::from_str("c");
    let ghost schema = schema_view(field_defs@);
    let len: usize = payload.len();
    let count: usize = field_defs.len();
    let mut cursor: usize = 0;
    let mut parsed: Vec<(String, String)> = Vec::new();
    let mut warnings: Vec<String> = Vec::new();
    let mut skip_count: usize = 0;
    let mut stopped: bool = false;
    let mut i: usize = 0;
    proof {
        assert(pairs_view(parsed@) =~= initial_state().fields);
        assert(texts_view(warnings@) =~= initial_state().warnings);
    }
    while i < count && !stopped
        invariant
            i <= count,
            count == field_defs@.len(),
            schema == schema_view(field_defs@),
            len == payload@.len(),
            trash@ == "TRASH"@,
            padding@ == "PADDING"@,
            reserved@ == "RESERVED"@,
            tail_name@ == "FILE_CONTENTS"@,
            tail_code@ == "c"@,
            cursor <= len,
            skip_count <= i,
            cursor == run(payload@, schema.take(i as int)).cursor,
            pairs_view(parsed@) == run(payload@, schema.take(i as int)).fields,
            texts_view(warnings@) == run(payload@, schema.take(i as int)).warnings,
            skip_count == run(payload@, schema.take(i as int)).skipped,
            stopped == run(payload@, schema.take(i as int)).stopped,
        decreases count - i,
    {
        let field: &FieldDef = &field_defs[i];
        let ghost before = run(payload@, schema.take(i as int));
        let ghost old_parsed = parsed@;
        let ghost old_warnings = warnings@;
        proof {
            assert(schema.take(i + 1).drop_last() =~= schema.take(i as int));
            assert(schema.take(i + 1).last() == field@);
            assert(run(payload@, schema.take(i + 1)) == step(payload@, before, field@));
        }
        let is_skip: bool = field.name == trash || field.name == padding || field.name
            == reserved;
        let found: Option<TypeRule> = resolve_type(field.type_code.as_str());
        if is_skip {
            match found {
                None => {
                    let text: String = skip_unresolved_text(field);
                    warnings.push(text);
                },
                Some(rule) => {
                    if rule.width > len - cursor {
                        let text: String = skip_overrun_text(field, rule.width, len, cursor);
                        warnings.push(text);
                        cursor = len;
                    } else {
                        cursor = cursor + rule.width;
                    }
                    skip_count = skip_count + 1;
                },
            }
        } else {
            match found {
                None => {
                    let text: String = unresolved_text(field);
                    warnings.push(text);
                    stopped = true;
                },
                Some(rule) => {
                    if rule.width > len - cursor {
                        let text: String = overrun_text(field, rule.width, len);
                        warnings.push(text);
                        stopped = true;
                    } else if field.name == tail_name && field.type_code == tail_code {
                        let rest: &[u8] = slice_subrange(payload, cursor, len);
                        let value: String = render_text(rest);
                        parsed.push((field.name.clone(), value));
                        cursor = len;
                    } else {
                        let value: String = read_value(payload, cursor, rule);
                        parsed.push((field.name.clone(), value));
                        cursor = cursor + rule.width;
                    }
                },
            }
        }
        proof {
            let after = step(payload@, before, field@);
            assert(pairs_view(parsed@) =~= after.fields);
            assert(texts_view(warnings@) =~= after.warnings);
        }
        i = i + 1;
    }
    proof {
        if i < count {
            lemma_run_stopped(payload@, schema, i as int);
        } else {
            assert(schema.take(i as int) =~= schema);
        }
    }
    if cursor < len {
        let ghost old_warnings = warnings@;
        let text: String = leftover_text(len, cursor);
        warnings.push(text);
        proof {
            assert(texts_view(warnings@) =~= texts_view(old_warnings).push(text@));
        }
    }
    (parsed, warnings, skip_count)
}

} // verus!
