//! What holds of every decoding: the behaviour on payloads that fit their
//! layout exactly, that are too long and that are too short, and the
//! treatment of skipped fields.

use crate::parser::{
    decode, is_skip_name, is_tail_field, leftover_warning, lemma_run_stopped, names_of,
    overrun_warning, render_value, run, step, value_step, DecodeState,
};
use crate::registry::FieldSpec;
use crate::typecode::{resolve, width_of};
use vstd::prelude::*;

verus! {

/// Decoding never moves the cursor past the end of the payload: no byte is
/// read from beyond it.
pub proof fn law_cursor_within_payload(payload: Seq<u8>, schema: Seq<FieldSpec>)
    ensures
        run(payload, schema).cursor <= payload.len(),
    decreases schema.len(),
{
    if schema.len() > 0 {
        law_cursor_within_payload(payload, schema.drop_last());
    }
}

/// A field of fixed width: its type code stands for something, and it is not
/// the field that takes the rest of the payload.
pub open spec fn fixed_field(f: FieldSpec) -> bool {
    resolve(f.type_code) is Some && !is_tail_field(f)
}

/// A layout made of fields of fixed width only.
pub open spec fn fixed_schema(schema: Seq<FieldSpec>) -> bool {
    forall|i: int| 0 <= i < schema.len() ==> fixed_field(#[trigger] schema[i])
}

/// The width of a field; zero where its type code stands for nothing.
pub open spec fn field_width(f: FieldSpec) -> nat {
    match width_of(f.type_code) {
        Some(w) => w,
        None => 0,
    }
}

/// The sum of the widths of the fields.
pub open spec fn total_width(schema: Seq<FieldSpec>) -> nat
    decreases schema.len(),
{
    if schema.len() == 0 {
        0
    } else {
        total_width(schema.drop_last()) + field_width(schema.last())
    }
}

/// The number of fields that are skipped.
pub open spec fn skip_fields(schema: Seq<FieldSpec>) -> nat
    decreases schema.len(),
{
    if schema.len() == 0 {
        0
    } else if is_skip_name(schema.last().name) {
        skip_fields(schema.drop_last()) + 1
    } else {
        skip_fields(schema.drop_last())
    }
}

/// The names of the fields that are not skipped, in the layout's order.
pub open spec fn value_names(schema: Seq<FieldSpec>) -> Seq<Seq<char>>
    decreases schema.len(),
{
    if schema.len() == 0 {
        Seq::empty()
    } else if is_skip_name(schema.last().name) {
        value_names(schema.drop_last())
    } else {
        value_names(schema.drop_last()).push(schema.last().name)
    }
}

/// The values of a layout of fixed width, each read at the offset that the
/// widths of the fields before it add up to.
pub open spec fn plain_values(payload: Seq<u8>, schema: Seq<FieldSpec>) -> Seq<
    (Seq<char>, Seq<char>),
>
    decreases schema.len(),
{
    if schema.len() == 0 {
        Seq::empty()
    } else {
        let before = plain_values(payload, schema.drop_last());
        let f = schema.last();
        if is_skip_name(f.name) {
            before
        } else {
            before.push(
                (
                    f.name,
                    render_value(
                        resolve(f.type_code).unwrap().0,
                        payload.subrange(
                            total_width(schema.drop_last()) as int,
                            total_width(schema) as int,
                        ),
                    ),
                ),
            )
        }
    }
}

/// The plain values bear the names of the fields that are not skipped, one
/// value for each, in the layout's order.
pub proof fn lemma_plain_values_names(payload: Seq<u8>, schema: Seq<FieldSpec>)
    ensures
        names_of(plain_values(payload, schema)) == value_names(schema),
        plain_values(payload, schema).len() + skip_fields(schema) == schema.len(),
    decreases schema.len(),
{
    if schema.len() > 0 {
        lemma_plain_values_names(payload, schema.drop_last());
        let before = plain_values(payload, schema.drop_last());
        if !is_skip_name(schema.last().name) {
            assert(names_of(plain_values(payload, schema)) =~= names_of(before).push(
                schema.last().name,
            ));
        }
    } else {
        assert(names_of(plain_values(payload, schema)) =~= value_names(schema));
    }
}

/// A prefix of a layout is no wider than the layout, and fixed if the layout
/// is.
pub proof fn lemma_prefix_width(schema: Seq<FieldSpec>, k: int)
    requires
        0 <= k <= schema.len(),
    ensures
        total_width(schema.take(k)) <= total_width(schema),
        fixed_schema(schema) ==> fixed_schema(schema.take(k)),
    decreases schema.len() - k,
{
    if k == schema.len() {
        assert(schema.take(k) =~= schema);
    } else {
        lemma_prefix_width(schema, k + 1);
        assert(schema.take(k + 1).drop_last() =~= schema.take(k));
    }
    if fixed_schema(schema) {
        assert forall|i: int| 0 <= i < schema.take(k).len() implies fixed_field(
            #[trigger] schema.take(k)[i],
        ) by {
            assert(schema.take(k)[i] == schema[i]);
        }
    }
}

/// On a payload that holds a whole layout of fixed width, decoding reaches
/// the end of the layout without a warning: the cursor stands behind the
/// last field, and every field that is not skipped has given its value.
pub proof fn lemma_fitting_run(payload: Seq<u8>, schema: Seq<FieldSpec>)
    requires
        fixed_schema(schema),
        total_width(schema) <= payload.len(),
    ensures
        run(payload, schema) == (DecodeState {
            cursor: total_width(schema),
            fields: plain_values(payload, schema),
            warnings: Seq::empty(),
            skipped: skip_fields(schema),
            stopped: false,
        }),
    decreases schema.len(),
{
    if schema.len() > 0 {
        let init = schema.drop_last();
        assert(init =~= schema.take(schema.len() - 1));
        lemma_prefix_width(schema, schema.len() - 1);
        lemma_fitting_run(payload, init);
        assert(fixed_field(schema[schema.len() - 1]));
    }
}

/// A payload of exactly the width of a layout of fixed width decodes without
/// a warning, into one value for each field that is not skipped, in the
/// layout's order.
pub proof fn law_exact_payload(payload: Seq<u8>, schema: Seq<FieldSpec>)
    requires
        fixed_schema(schema),
        total_width(schema) == payload.len(),
    ensures
        decode(payload, schema).warnings == Seq::<Seq<char>>::empty(),
        decode(payload, schema).fields == plain_values(payload, schema),
        names_of(decode(payload, schema).fields) == value_names(schema),
        decode(payload, schema).skipped == skip_fields(schema),
        decode(payload, schema).fields.len() + skip_fields(schema) == schema.len(),
{
    lemma_fitting_run(payload, schema);
    lemma_plain_values_names(payload, schema);
}

/// A payload longer than a layout of fixed width decodes as far as the
/// layout goes, with a single warning, which tells how much was left over.
pub proof fn law_long_payload(payload: Seq<u8>, schema: Seq<FieldSpec>)
    requires
        fixed_schema(schema),
        total_width(schema) < payload.len(),
    ensures
        !run(payload, schema).stopped,
        decode(payload, schema).warnings == seq![
            leftover_warning(payload.len(), total_width(schema)),
        ],
        decode(payload, schema).fields == plain_values(payload, schema),
        names_of(decode(payload, schema).fields) == value_names(schema),
        decode(payload, schema).skipped == skip_fields(schema),
{
    lemma_fitting_run(payload, schema);
    lemma_plain_values_names(payload, schema);
    assert(Seq::<Seq<char>>::empty().push(leftover_warning(payload.len(), total_width(schema)))
        =~= seq![leftover_warning(payload.len(), total_width(schema))]);
}

/// Warnings are only ever added.
pub proof fn lemma_warnings_grow(payload: Seq<u8>, schema: Seq<FieldSpec>, k: int)
    requires
        0 <= k <= schema.len(),
    ensures
        run(payload, schema.take(k)).warnings.len() <= run(payload, schema).warnings.len(),
    decreases schema.len() - k,
{
    if k == schema.len() {
        assert(schema.take(k) =~= schema);
    } else {
        lemma_warnings_grow(payload, schema, k + 1);
        assert(schema.take(k + 1).drop_last() =~= schema.take(k));
    }
}

/// Where the field at `k` is the first that does not fit, and it is not a
/// skipped one, decoding stops there: the values are those of the fields
/// before it, and the one warning of the run names that field.
pub proof fn law_stops_at_first_overrun(payload: Seq<u8>, schema: Seq<FieldSpec>, k: int)
    requires
        0 <= k < schema.len(),
        fixed_schema(schema.take(k)),
        total_width(schema.take(k)) <= payload.len(),
        !is_skip_name(schema[k].name),
        resolve(schema[k].type_code) is Some,
        total_width(schema.take(k)) + field_width(schema[k]) > payload.len(),
    ensures
        run(payload, schema).stopped,
        run(payload, schema).cursor == total_width(schema.take(k)),
        decode(payload, schema).fields == decode(payload, schema.take(k)).fields,
        decode(payload, schema).fields == plain_values(payload, schema.take(k)),
        run(payload, schema).warnings == seq![
            overrun_warning(schema[k], field_width(schema[k]), payload.len()),
        ],
        decode(payload, schema).warnings.len() >= 1,
{
    let init = schema.take(k);
    lemma_fitting_run(payload, init);
    assert(schema.take(k + 1).drop_last() =~= init);
    assert(schema.take(k + 1).last() == schema[k]);
    let stopped = run(payload, schema.take(k + 1));
    assert(stopped == value_step(payload, run(payload, init), schema[k]));
    assert(stopped.warnings =~= seq![
        overrun_warning(schema[k], field_width(schema[k]), payload.len()),
    ]);
    lemma_run_stopped(payload, schema, k + 1);
}

/// On a payload shorter than a layout of fixed width, a warning is given
/// before the layout ends.
pub proof fn lemma_short_run_warns(payload: Seq<u8>, schema: Seq<FieldSpec>)
    requires
        fixed_schema(schema),
        total_width(schema) > payload.len(),
    ensures
        run(payload, schema).warnings.len() >= 1,
    decreases schema.len(),
{
    let init = schema.drop_last();
    assert(init =~= schema.take(schema.len() - 1));
    lemma_prefix_width(schema, schema.len() - 1);
    if total_width(init) > payload.len() {
        lemma_short_run_warns(payload, init);
        lemma_warnings_grow(payload, schema, schema.len() - 1);
    } else {
        lemma_fitting_run(payload, init);
        assert(fixed_field(schema[schema.len() - 1]));
    }
}

/// A payload shorter than a layout of fixed width gives at least one
/// warning.
pub proof fn law_short_payload_warns(payload: Seq<u8>, schema: Seq<FieldSpec>)
    requires
        fixed_schema(schema),
        total_width(schema) > payload.len(),
    ensures
        decode(payload, schema).warnings.len() >= 1,
{
    lemma_short_run_warns(payload, schema);
}

/// A skipped field never gives a value. Where its width fits in what is left
/// of the payload, the cursor moves on by exactly that width, and nothing
/// else changes but the count of skipped fields.
pub proof fn law_skip_field(payload: Seq<u8>, st: DecodeState, f: FieldSpec)
    requires
        is_skip_name(f.name),
    ensures
        step(payload, st, f).fields == st.fields,
        !step(payload, st, f).stopped == !st.stopped,
        width_of(f.type_code) is Some && st.cursor + field_width(f) <= payload.len() ==> step(
            payload,
            st,
            f,
        ) == (DecodeState {
            cursor: st.cursor + field_width(f),
            skipped: st.skipped + 1,
            ..st
        }),
{
}

/// No value bears the name of a skipped field, at any point of a decoding.
pub proof fn lemma_run_names(payload: Seq<u8>, schema: Seq<FieldSpec>)
    ensures
        forall|j: int|
            0 <= j < run(payload, schema).fields.len() ==> !is_skip_name(
                #[trigger] run(payload, schema).fields[j].0,
            ),
    decreases schema.len(),
{
    if schema.len() > 0 {
        let before = run(payload, schema.drop_last());
        lemma_run_names(payload, schema.drop_last());
        assert forall|j: int| 0 <= j < run(payload, schema).fields.len() implies !is_skip_name(
            #[trigger] run(payload, schema).fields[j].0,
        ) by {
            if j < before.fields.len() {
                assert(run(payload, schema).fields[j] == before.fields[j]);
            }
        }
    }
}

/// No value of a decoding bears the name of a skipped field.
pub proof fn law_no_value_for_skipped(payload: Seq<u8>, schema: Seq<FieldSpec>)
    ensures
        forall|j: int|
            0 <= j < decode(payload, schema).fields.len() ==> !is_skip_name(
                #[trigger] decode(payload, schema).fields[j].0,
            ),
{
    lemma_run_names(payload, schema);
}

/// As long as decoding has not stopped, there is one value for each field
/// that is not skipped, under the field's name and in the layout's order.
pub proof fn law_values_follow_schema(payload: Seq<u8>, schema: Seq<FieldSpec>)
    requires
        !run(payload, schema).stopped,
    ensures
        names_of(run(payload, schema).fields) == value_names(schema),
    decreases schema.len(),
{
    if schema.len() > 0 {
        let before = run(payload, schema.drop_last());
        law_values_follow_schema(payload, schema.drop_last());
        if !is_skip_name(schema.last().name) {
            assert(names_of(run(payload, schema).fields) =~= names_of(before.fields).push(
                schema.last().name,
            ));
        }
    } else {
        assert(names_of(run(payload, schema).fields) =~= value_names(schema));
    }
}

/// Where decoding stops at the field at `k`, the values are those of the
/// fields before it: one for each that is not skipped, under its name and in
/// the layout's order.
pub proof fn law_values_until_stop(payload: Seq<u8>, schema: Seq<FieldSpec>, k: int)
    requires
        0 <= k < schema.len(),
        !run(payload, schema.take(k)).stopped,
        run(payload, schema.take(k + 1)).stopped,
    ensures
        decode(payload, schema).fields == run(payload, schema.take(k)).fields,
        names_of(decode(payload, schema).fields) == value_names(schema.take(k)),
{
    law_values_follow_schema(payload, schema.take(k));
    assert(schema.take(k + 1).drop_last() =~= schema.take(k));
    lemma_run_stopped(payload, schema, k + 1);
}

/// The values of a decoding are as many as the fields that were reached and
/// not skipped: never more than the layout has fields that are not skipped.
pub proof fn law_values_within_schema(payload: Seq<u8>, schema: Seq<FieldSpec>)
    ensures
        decode(payload, schema).fields.len() + decode(payload, schema).skipped <= schema.len(),
        decode(payload, schema).fields.len() <= value_names(schema).len(),
        decode(payload, schema).skipped <= skip_fields(schema),
    decreases schema.len(),
{
    if schema.len() > 0 {
        law_values_within_schema(payload, schema.drop_last());
    }
}

} // verus!
