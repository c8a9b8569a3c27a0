//! The payload that holds given values, and the proof that decoding it gives
//! them back: integers in their decimal form, text without the NUL
//! characters at its end.

use crate::endian::{as_signed, le_value, span};
use crate::guarantees::{
    field_width, fixed_field, fixed_schema, lemma_fitting_run, lemma_prefix_width, plain_values,
    skip_fields, total_width,
};
use crate::parser::{decode, is_skip_name, render_value};
use crate::registry::FieldSpec;
use crate::text::{signed_decimal, trim_nul};
use crate::typecode::{kind_fits_width, resolve, FieldKind};
use vstd::prelude::*;
use vstd::utf8::{encode_utf8, encode_utf8_decode_utf8, encode_utf8_valid_utf8};

verus! {

/// The first `width` bytes of `v`, least significant first.
pub open spec fn le_bytes(v: nat, width: nat) -> Seq<u8>
    decreases width,
{
    if width == 0 {
        Seq::empty()
    } else {
        seq![(v % 256) as u8] + le_bytes(v / 256, (width - 1) as nat)
    }
}

/// 256 to the power of `width`.
pub open spec fn pow256(width: nat) -> nat
    decreases width,
{
    if width == 0 {
        1
    } else {
        256 * pow256((width - 1) as nat)
    }
}

/// Whether the kind is one of the eight integer kinds.
pub open spec fn is_integer_kind(kind: FieldKind) -> bool {
    match kind {
        FieldKind::U64
        | FieldKind::I64
        | FieldKind::U32
        | FieldKind::I32
        | FieldKind::U16
        | FieldKind::I16
        | FieldKind::U8
        | FieldKind::I8 => true,
        _ => false,
    }
}

/// Whether the kind is one of the signed integer kinds.
pub open spec fn is_signed_kind(kind: FieldKind) -> bool {
    match kind {
        FieldKind::I64 | FieldKind::I32 | FieldKind::I16 | FieldKind::I8 => true,
        _ => false,
    }
}

/// Whether `v` is a value of an integer kind of the given width.
pub open spec fn in_range(kind: FieldKind, width: nat, v: int) -> bool {
    if is_signed_kind(kind) {
        -(span(width) as int) <= 2 * v < span(width)
    } else {
        0 <= v < span(width)
    }
}

/// The bytes of an integer field that holds `v`: little-endian, in two's
/// complement where `v` is negative.
pub open spec fn encode_int(width: nat, v: int) -> Seq<u8> {
    le_bytes(
        (if v < 0 {
            v + span(width)
        } else {
            v
        }) as nat,
        width,
    )
}

/// A value to put into a field.
pub enum FieldValue {
    /// An integer, for a field of an integer kind.
    Number(int),
    /// A text that fills a text field, with the NUL characters that pad it.
    Text(Seq<char>),
}

/// Whether a field of the kind and width can hold the value.
pub open spec fn value_fits(kind: FieldKind, width: nat, v: FieldValue) -> bool {
    match v {
        FieldValue::Number(n) => is_integer_kind(kind) && in_range(kind, width, n),
        FieldValue::Text(t) => kind == FieldKind::Text && encode_utf8(t).len() == width,
    }
}

/// The bytes of a field of the width that holds the value.
pub open spec fn field_bytes(width: nat, v: FieldValue) -> Seq<u8> {
    match v {
        FieldValue::Number(n) => encode_int(width, n),
        FieldValue::Text(t) => encode_utf8(t),
    }
}

/// How a value reads as text: an integer in base 10, a text without the NUL
/// characters at its end.
pub open spec fn shown(v: FieldValue) -> Seq<char> {
    match v {
        FieldValue::Number(n) => signed_decimal(n),
        FieldValue::Text(t) => trim_nul(t),
    }
}

/// A field that gives a value of fixed width.
pub open spec fn value_field(f: FieldSpec) -> bool {
    !is_skip_name(f.name) && fixed_field(f)
}

/// A layout of value fields with one fitting value for each.
pub open spec fn encodable(schema: Seq<FieldSpec>, values: Seq<FieldValue>) -> bool {
    &&& values.len() == schema.len()
    &&& forall|i: int|
        0 <= i < schema.len() ==> value_field(#[trigger] schema[i]) && value_fits(
            resolve(schema[i].type_code).unwrap().0,
            field_width(schema[i]),
            values[i],
        )
}

/// The payload that holds the values, field after field.
pub open spec fn encode(schema: Seq<FieldSpec>, values: Seq<FieldValue>) -> Seq<u8>
    decreases schema.len(),
{
    if schema.len() == 0 {
        Seq::empty()
    } else {
        encode(schema.drop_last(), values.drop_last()) + field_bytes(
            field_width(schema.last()),
            values.last(),
        )
    }
}

/// Each field's name with its value as text.
pub open spec fn canonical(schema: Seq<FieldSpec>, values: Seq<FieldValue>) -> Seq<
    (Seq<char>, Seq<char>),
> {
    Seq::new(schema.len(), |i: int| (schema[i].name, shown(values[i])))
}

/// That many NUL characters.
pub open spec fn padding(count: nat) -> Seq<char> {
    Seq::new(count, |i: int| '\0')
}

/// The bytes of a number below 256 to the power of `width` denote it.
pub proof fn lemma_le_round_trip(v: nat, width: nat)
    requires
        v < pow256(width),
    ensures
        le_bytes(v, width).len() == width,
        le_value(le_bytes(v, width)) == v,
    decreases width,
{
    if width > 0 {
        let rest = (width - 1) as nat;
        assert(v / 256 < pow256(rest)) by (nonlinear_arith)
            requires
                v < 256 * pow256(rest),
        ;
        lemma_le_round_trip(v / 256, rest);
        assert(le_bytes(v, width).drop_first() =~= le_bytes(v / 256, rest));
        assert(v == v % 256 + 256 * (v / 256)) by (nonlinear_arith);
    }
}

/// For the widths of the integer kinds, the span is a power of 256.
pub proof fn lemma_span_is_power(width: nat)
    requires
        width == 1 || width == 2 || width == 4 || width == 8,
    ensures
        span(width) == pow256(width),
{
    reveal_with_fuel(pow256, 9);
}

/// Padding a text that does not end in NUL, and trimming it, gives the text.
pub proof fn law_padding_is_trimmed(text: Seq<char>, count: nat)
    requires
        text.len() == 0 || text.last() != '\0',
    ensures
        trim_nul(text + padding(count)) == text,
    decreases count,
{
    if count == 0 {
        assert(text + padding(0) =~= text);
    } else {
        let padded = text + padding(count);
        assert(padded.last() == '\0');
        assert(padded.drop_last() =~= text + padding((count - 1) as nat));
        law_padding_is_trimmed(text, (count - 1) as nat);
    }
}

/// The bytes of a value that fits its field, read back by the rule of the
/// field's kind, give the value as text.
pub proof fn law_field_round_trip(kind: FieldKind, width: nat, v: FieldValue)
    requires
        kind_fits_width(kind, width),
        value_fits(kind, width, v),
    ensures
        field_bytes(width, v).len() == width,
        render_value(kind, field_bytes(width, v)) == shown(v),
{
    match v {
        FieldValue::Number(n) => {
            lemma_span_is_power(width);
            let raw = (if n < 0 {
                n + span(width)
            } else {
                n
            }) as nat;
            lemma_le_round_trip(raw, width);
            if is_signed_kind(kind) {
                assert(as_signed(raw, width) == n);
            }
        },
        FieldValue::Text(t) => {
            encode_utf8_valid_utf8(t);
            encode_utf8_decode_utf8(t);
        },
    }
}

/// A prefix of an encodable layout, with the values for it, is encodable.
pub proof fn lemma_encodable_prefix(schema: Seq<FieldSpec>, values: Seq<FieldValue>)
    requires
        encodable(schema, values),
        schema.len() > 0,
    ensures
        encodable(schema.drop_last(), values.drop_last()),
        value_field(schema.last()),
        value_fits(
            resolve(schema.last().type_code).unwrap().0,
            field_width(schema.last()),
            values.last(),
        ),
        kind_fits_width(resolve(schema.last().type_code).unwrap().0, field_width(schema.last())),
{
    let init = schema.drop_last();
    let init_values = values.drop_last();
    assert(value_field(schema[schema.len() - 1]));
    assert forall|i: int| 0 <= i < init.len() implies value_field(#[trigger] init[i])
        && value_fits(
        resolve(init[i].type_code).unwrap().0,
        field_width(init[i]),
        init_values[i],
    ) by {
        assert(init[i] == schema[i]);
        assert(value_field(schema[i]));
    }
}

/// The payload of a layout is as long as the layout is wide.
pub proof fn lemma_encode_len(schema: Seq<FieldSpec>, values: Seq<FieldValue>)
    requires
        encodable(schema, values),
    ensures
        encode(schema, values).len() == total_width(schema),
    decreases schema.len(),
{
    if schema.len() > 0 {
        let last = schema.last();
        lemma_encodable_prefix(schema, values);
        law_field_round_trip(resolve(last.type_code).unwrap().0, field_width(last), values.last());
        lemma_encode_len(schema.drop_last(), values.drop_last());
    }
}

/// Each field's bytes lie in the payload at the offset that the widths of
/// the fields before it add up to.
pub proof fn lemma_encode_layout(schema: Seq<FieldSpec>, values: Seq<FieldValue>, k: int)
    requires
        encodable(schema, values),
        0 <= k < schema.len(),
    ensures
        total_width(schema.take(k + 1)) == total_width(schema.take(k)) + field_width(schema[k]),
        total_width(schema.take(k + 1)) <= total_width(schema),
        encode(schema, values).subrange(
            total_width(schema.take(k)) as int,
            total_width(schema.take(k + 1)) as int,
        ) == field_bytes(field_width(schema[k]), values[k]),
    decreases schema.len(),
{
    let init = schema.drop_last();
    let init_values = values.drop_last();
    let last = schema.last();
    lemma_encodable_prefix(schema, values);
    law_field_round_trip(resolve(last.type_code).unwrap().0, field_width(last), values.last());
    lemma_encode_len(init, init_values);
    assert(schema.take(k + 1).drop_last() =~= schema.take(k));
    lemma_prefix_width(schema, k + 1);
    if k == schema.len() - 1 {
        assert(schema.take(k + 1) =~= schema);
        assert(schema.take(k) =~= init);
        assert(encode(schema, values).subrange(
            total_width(init) as int,
            total_width(schema) as int,
        ) =~= field_bytes(field_width(last), values.last()));
    } else {
        lemma_encode_layout(init, init_values, k);
        assert(init.take(k) =~= schema.take(k));
        assert(init.take(k + 1) =~= schema.take(k + 1));
        assert(encode(schema, values).subrange(
            total_width(schema.take(k)) as int,
            total_width(schema.take(k + 1)) as int,
        ) =~= encode(init, init_values).subrange(
            total_width(schema.take(k)) as int,
            total_width(schema.take(k + 1)) as int,
        ));
    }
}

/// The plain values of the first `k` fields of an encoded payload are the
/// first `k` values as text.
pub proof fn lemma_plain_values_of_encoding(
    schema: Seq<FieldSpec>,
    values: Seq<FieldValue>,
    k: int,
)
    requires
        encodable(schema, values),
        0 <= k <= schema.len(),
    ensures
        plain_values(encode(schema, values), schema.take(k)) == canonical(schema, values).take(k),
    decreases k,
{
    let payload = encode(schema, values);
    if k == 0 {
        assert(plain_values(payload, schema.take(0)) =~= canonical(schema, values).take(0));
    } else {
        lemma_plain_values_of_encoding(schema, values, k - 1);
        lemma_encode_layout(schema, values, k - 1);
        let f = schema[k - 1];
        assert(value_field(f));
        assert(schema.take(k).drop_last() =~= schema.take(k - 1));
        assert(schema.take(k).last() == f);
        law_field_round_trip(resolve(f.type_code).unwrap().0, field_width(f), values[k - 1]);
        assert(canonical(schema, values).take(k) =~= canonical(schema, values).take(k - 1).push(
            (f.name, shown(values[k - 1])),
        ));
    }
}

/// A layout of value fields skips nothing.
pub proof fn lemma_no_skips(schema: Seq<FieldSpec>, values: Seq<FieldValue>)
    requires
        encodable(schema, values),
    ensures
        skip_fields(schema) == 0,
    decreases schema.len(),
{
    if schema.len() > 0 {
        lemma_encodable_prefix(schema, values);
        lemma_no_skips(schema.drop_last(), values.drop_last());
    }
}

/// Decoding the payload that holds given values, by the layout by which it
/// was made, gives each field's name with its value as text: integers in
/// base 10, texts without the NUL characters at their end. There is no
/// warning.
pub proof fn law_round_trip(schema: Seq<FieldSpec>, values: Seq<FieldValue>)
    requires
        encodable(schema, values),
    ensures
        decode(encode(schema, values), schema).fields == canonical(schema, values),
        decode(encode(schema, values), schema).warnings == Seq::<Seq<char>>::empty(),
        decode(encode(schema, values), schema).skipped == 0,
{
    let payload = encode(schema, values);
    lemma_encode_len(schema, values);
    assert(fixed_schema(schema)) by {
        assert forall|i: int| 0 <= i < schema.len() implies fixed_field(#[trigger] schema[i]) by {
            assert(value_field(schema[i]));
        }
    }
    lemma_fitting_run(payload, schema);
    lemma_plain_values_of_encoding(schema, values, schema.len() as int);
    assert(schema.take(schema.len() as int) =~= schema);
    assert(canonical(schema, values).take(schema.len() as int) =~= canonical(schema, values));
    lemma_no_skips(schema, values);
}

} // verus!
