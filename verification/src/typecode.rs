//! The grammar of field type codes: which decoding rule and byte width a
//! code stands for.

use crate::text::{digit_of, digit_value};
use vstd::prelude::*;
use vstd::string::*;

verus! {

/// How the bytes of a field are turned into a value.
#[derive(Clone, Copy, Debug, PartialEq, Eq, Structural)]
pub enum FieldKind {
    U64,
    I64,
    U32,
    I32,
    U16,
    I16,
    U8,
    I8,
    F32,
    F64,
    /// Text of a fixed number of bytes.
    Text,
    /// A raw block of bytes, shown in hexadecimal.
    Bytes,
}

/// A resolved type code: the kind of the field and the bytes it takes.
#[derive(Clone, Copy, Debug, PartialEq, Eq, Structural)]
pub struct TypeRule {
    pub kind: FieldKind,
    pub width: usize,
}

/// Every character of `s` is `c`. Holds of the empty text.
pub open spec fn all_chars(s: Seq<char>, c: char) -> bool {
    forall|i: int| 0 <= i < s.len() ==> s[i] == c
}

/// The character is one of `0` to `9`.
pub open spec fn is_digit(c: char) -> bool {
    digit_of(c) is Some
}

pub open spec fn all_digits(s: Seq<char>) -> bool {
    forall|i: int| 0 <= i < s.len() ==> is_digit(#[trigger] s[i])
}

/// The number that a text of decimal digits denotes; leading zeros count for
/// nothing.
pub open spec fn digits_value(s: Seq<char>) -> nat
    decreases s.len(),
{
    if s.len() == 0 {
        0
    } else {
        digits_value(s.drop_last()) * 10 + match digit_of(s.last()) {
            Some(d) => d,
            None => 0,
        }
    }
}

/// The rule of a one-letter numeric code.
pub open spec fn letter_rule(c: char) -> Option<(FieldKind, nat)> {
    if c == 'Q' {
        Some((FieldKind::U64, 8nat))
    } else if c == 'q' {
        Some((FieldKind::I64, 8nat))
    } else if c == 'I' {
        Some((FieldKind::U32, 4nat))
    } else if c == 'i' {
        Some((FieldKind::I32, 4nat))
    } else if c == 'H' {
        Some((FieldKind::U16, 2nat))
    } else if c == 'h' {
        Some((FieldKind::I16, 2nat))
    } else if c == 'B' {
        Some((FieldKind::U8, 1nat))
    } else if c == 'b' {
        Some((FieldKind::I8, 1nat))
    } else if c == 'f' {
        Some((FieldKind::F32, 4nat))
    } else if c == 'd' {
        Some((FieldKind::F64, 8nat))
    } else {
        None
    }
}

/// `code` is one or more decimal digits followed by `s`.
pub open spec fn is_counted_text(code: Seq<char>) -> bool {
    code.len() >= 2 && code.last() == 's' && all_digits(code.drop_last())
}

/// The kind and width that a type code stands for, if any.
///
/// A single letter among `QqIiHhBbfd` is a number. A run of `c` is text as
/// long as the run, and so is a decimal count followed by `s`, as long as the
/// count, which must fit the machine's address size. A run of two or more `B`,
/// or of `b`, is a block of bytes as long as the run. Everything else stands
/// for nothing.
pub open spec fn resolve(code: Seq<char>) -> Option<(FieldKind, nat)> {
    if code.len() == 1 && letter_rule(code[0]) is Some {
        letter_rule(code[0])
    } else if all_chars(code, 'c') {
        Some((FieldKind::Text, code.len()))
    } else if is_counted_text(code) {
        if digits_value(code.drop_last()) <= usize::MAX {
            Some((FieldKind::Text, digits_value(code.drop_last())))
        } else {
            None
        }
    } else if all_chars(code, 'B') || all_chars(code, 'b') {
        Some((FieldKind::Bytes, code.len()))
    } else {
        None
    }
}

/// A numeric kind goes with the width of its number; text and byte blocks
/// have any width.
pub open spec fn kind_fits_width(kind: FieldKind, width: nat) -> bool {
    match kind {
        FieldKind::U64 | FieldKind::I64 | FieldKind::F64 => width == 8,
        FieldKind::U32 | FieldKind::I32 | FieldKind::F32 => width == 4,
        FieldKind::U16 | FieldKind::I16 => width == 2,
        FieldKind::U8 | FieldKind::I8 => width == 1,
        FieldKind::Text | FieldKind::Bytes => true,
    }
}

/// The width that a type code stands for, if any.
pub open spec fn width_of(code: Seq<char>) -> Option<nat> {
    match resolve(code) {
        Some(rule) => Some(rule.1),
        None => None,
    }
}

impl TypeRule {
    /// The kind and width as a pair over mathematical integers.
    pub open spec fn view(&self) -> (FieldKind, nat) {
        (self.kind, self.width as nat)
    }
}

/// A prefix of a digit text denotes no more than the whole.
pub proof fn lemma_digits_value_prefix(s: Seq<char>, i: int)
    requires
        0 <= i <= s.len(),
    ensures
        digits_value(s.take(i)) <= digits_value(s),
    decreases s.len() - i,
{
    if i == s.len() {
        assert(s.take(i) =~= s);
    } else {
        lemma_digits_value_prefix(s, i + 1);
        assert(s.take(i + 1).drop_last() =~= s.take(i));
    }
}

fn letter_kind(c: char) -> (r: Option<TypeRule>)
    ensures
        match r {
            Some(rule) => letter_rule(c) == Some(rule@),
            None => letter_rule(c) is None,
        },
{
    if c == 'Q' {
        Some(TypeRule { kind: FieldKind::U64, width: 8 })
    } else if c == 'q' {
        Some(TypeRule { kind: FieldKind::I64, width: 8 })
    } else if c == 'I' {
        Some(TypeRule { kind: FieldKind::U32, width: 4 })
    } else if c == 'i' {
        Some(TypeRule { kind: FieldKind::I32, width: 4 })
    } else if c == 'H' {
        Some(TypeRule { kind: FieldKind::U16, width: 2 })
    } else if c == 'h' {
        Some(TypeRule { kind: FieldKind::I16, width: 2 })
    } else if c == 'B' {
        Some(TypeRule { kind: FieldKind::U8, width: 1 })
    } else if c == 'b' {
        Some(TypeRule { kind: FieldKind::I8, width: 1 })
    } else if c == 'f' {
        Some(TypeRule { kind: FieldKind::F32, width: 4 })
    } else if c == 'd' {
        Some(TypeRule { kind: FieldKind::F64, width: 8 })
    } else {
        None
    }
}

/// Tells whether the first `n` characters of `code` are all `c`.
fn run_of(code: &str, n: usize, c: char) -> (r: bool)
    requires
        n == code@.len(),
    ensures
        r == all_chars(code@, c),
{
    let mut i: usize = 0;
    while i < n
        invariant
            i <= n,
            n == code@.len(),
            forall|j: int| 0 <= j < i ==> code@[j] == c,
        decreases n - i,
    {
        if code.get_char(i) != c {
            return false;
        }
        i = i + 1;
    }
    true
}

/// Reads the decimal count before the final `s` of a code of `n` characters.
fn counted_width(code: &str, n: usize) -> (r: Option<usize>)
    requires
        n == code@.len(),
        n >= 2,
        code@.last() == 's',
    ensures
        match r {
            Some(w) => all_digits(code@.drop_last()) && digits_value(code@.drop_last()) == w,
            None => !all_digits(code@.drop_last()) || digits_value(code@.drop_last())
                > usize::MAX,
        },
{
    let ghost body = code@.drop_last();
    let mut acc: usize = 0;
    let mut i: usize = 0;
    while i < n - 1
        invariant
            i <= n - 1,
            n == code@.len(),
            body == code@.drop_last(),
            forall|j: int| 0 <= j < i ==> is_digit(#[trigger] body[j]),
            acc == digits_value(body.take(i as int)),
        decreases n - i,
    {
        let c: char = code.get_char(i);
        assert(c == body[i as int]);
        let d: usize = match digit_value(c) {
            Some(d) => d as usize,
            None => {
                return None;
            },
        };
        proof {
            assert(body.take(i + 1).drop_last() =~= body.take(i as int));
            assert(body.take(i + 1).last() == c);
            assert(digits_value(body.take(i + 1)) == acc * 10 + d);
        }
        if acc > (usize::MAX - d) / 10 {
            proof {
                lemma_digits_value_prefix(body, i + 1);
            }
            return None;
        }
        acc = acc * 10 + d;
        i = i + 1;
    }
    proof {
        assert(body.take(i as int) =~= body);
    }
    Some(acc)
}

/// Resolves a type code to its decoding rule.
pub fn resolve_type(code: &str) -> (r: Option<TypeRule>)
    ensures
        match r {
            Some(rule) => resolve(code@) == Some(rule@) && kind_fits_width(
                rule.kind,
                rule.width as nat,
            ),
            None => resolve(code@) is None,
        },
{
    let n: usize = code.unicode_len();
    if n == 1 {
        let single: Option<TypeRule> = letter_kind(code.get_char(0));
        if single.is_some() {
            return single;
        }
    }
    if run_of(code, n, 'c') {
        return Some(TypeRule { kind: FieldKind::Text, width: n });
    }
    if n >= 2 && code.get_char(n - 1) == 's' {
        return match counted_width(code, n) {
            Some(w) => Some(TypeRule { kind: FieldKind::Text, width: w }),
            None => None,
        };
    }
    if run_of(code, n, 'B') || run_of(code, n, 'b') {
        return Some(TypeRule { kind: FieldKind::Bytes, width: n });
    }
    None
}

/// The number of bytes that a field of this type code takes, if the code
/// stands for anything.
pub fn get_type_size(type_str: &str) -> (r: Option<usize>)
    ensures
        match r {
            Some(w) => width_of(type_str@) == Some(w as nat),
            None => width_of(type_str@) is None,
        },
{
    match resolve_type(type_str) {
        Some(rule) => Some(rule.width),
        None => None,
    }
}

} // verus!
