//! The table that a group of decoded messages makes: a row of column names
//! and one row of values for each message.

use crate::parser::{
    messages_view, names_of, pairs_view, texts_view, values_of, ParsedMessage, ParsedSpec,
};
use vstd::prelude::*;

verus! {

/// The column names: the field names of the first message.
pub open spec fn header_of(messages: Seq<ParsedSpec>) -> Seq<Seq<char>> {
    if messages.len() == 0 {
        Seq::empty()
    } else {
        names_of(messages[0].fields)
    }
}

/// The rows of the table of `messages`: the column names, then the values of
/// each message in order. Without column names there are no rows at all.
pub open spec fn table(messages: Seq<ParsedSpec>) -> Seq<Seq<Seq<char>>> {
    if header_of(messages).len() == 0 {
        Seq::empty()
    } else {
        seq![header_of(messages)] + Seq::new(
            messages.len(),
            |i: int| values_of(messages[i].fields),
        )
    }
}

/// Rows of texts as sequences of characters.
pub open spec fn rows_view(rows: Seq<Vec<String>>) -> Seq<Seq<Seq<char>>> {
    Seq::new(rows.len(), |i: int| texts_view(rows[i]@))
}

/// Copies the names of the pairs.
pub fn field_names(fields: &Vec<(String, String)>) -> (names: Vec<String>)
    ensures
        texts_view(names@) == names_of(pairs_view(fields@)),
{
    let mut names: Vec<String> = Vec::new();
    let mut i: usize = 0;
    while i < fields.len()
        invariant
            i <= fields@.len(),
            texts_view(names@) == names_of(pairs_view(fields@)).take(i as int),
        decreases fields@.len() - i,
    {
        let ghost before = names@;
        let name: String = fields[i].0.clone();
        names.push(name);
        proof {
            assert(texts_view(names@) =~= texts_view(before).push(name@));
            assert(texts_view(names@) =~= names_of(pairs_view(fields@)).take(i + 1));
        }
        i = i + 1;
    }
    proof {
        assert(names_of(pairs_view(fields@)).take(i as int) =~= names_of(pairs_view(fields@)));
    }
    names
}

/// Copies the values of the pairs.
pub fn field_values(fields: &Vec<(String, String)>) -> (values: Vec<String>)
    ensures
        texts_view(values@) == values_of(pairs_view(fields@)),
{
    let mut values: Vec<String> = Vec::new();
    let mut i: usize = 0;
    while i < fields.len()
        invariant
            i <= fields@.len(),
            texts_view(values@) == values_of(pairs_view(fields@)).take(i as int),
        decreases fields@.len() - i,
    {
        let ghost before = values@;
        let value: String = fields[i].1.clone();
        values.push(value);
        proof {
            assert(texts_view(values@) =~= texts_view(before).push(value@));
            assert(texts_view(values@) =~= values_of(pairs_view(fields@)).take(i + 1));
        }
        i = i + 1;
    }
    proof {
        assert(values_of(pairs_view(fields@)).take(i as int) =~= values_of(
            pairs_view(fields@),
        ));
    }
    values
}

/// Lays out the messages of one group as rows of a table.
///
/// The first row holds the field names of the first message; each further
/// row holds the values of one message. Where there is no message, or the
/// first message has no fields, there are no rows.
pub fn export_rows(messages: &[ParsedMessage]) -> (rows: Vec<Vec<String>>)
    ensures
        rows_view(rows@) == table(messages_view(messages@)),
{
    let mut rows: Vec<Vec<String>> = Vec::new();
    if messages.len() == 0 {
        proof {
            assert(rows_view(rows@) =~= table(messages_view(messages@)));
        }
        return rows;
    }
    let header: Vec<String> = field_names(&messages[0].fields);
    if header.len() == 0 {
        proof {
            assert(rows_view(rows@) =~= table(messages_view(messages@)));
        }
        return rows;
    }
    let ghost all = messages_view(messages@);
    let ghost body = Seq::new(all.len(), |i: int| values_of(all[i].fields));
    rows.push(header);
    proof {
        assert(rows_view(rows@) =~= seq![header_of(all)] + body.take(0));
    }
    let mut i: usize = 0;
    while i < messages.len()
        invariant
            i <= messages@.len(),
            all == messages_view(messages@),
            body == Seq::new(all.len(), |i: int| values_of(all[i].fields)),
            rows_view(rows@) == seq![header_of(all)] + body.take(i as int),
        decreases messages@.len() - i,
    {
        let ghost before = rows@;
        let row: Vec<String> = field_values(&messages[i].fields);
        rows.push(row);
        proof {
            assert(rows_view(rows@) =~= rows_view(before).push(texts_view(row@)));
            assert(body.take(i + 1) =~= body.take(i as int).push(body[i as int]));
            assert(rows_view(rows@) =~= seq![header_of(all)] + body.take(i + 1));
        }
        i = i + 1;
    }
    proof {
        assert(body.take(i as int) =~= body);
    }
    rows
}

} // verus!
