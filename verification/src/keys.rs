//! Registry keys in text: a type id is written as its decimal number, and
//! nothing else is the key of a type id.

use crate::text::{decimal, digit_of, digit_text, digit_value};
use crate::typecode::{all_digits, digits_value, is_digit, lemma_digits_value_prefix};
use vstd::prelude::*;
use vstd::string::*;

verus! {

/// The text of a digit is the one character of that digit.
pub proof fn lemma_digit_text(d: nat)
    requires
        d < 10,
    ensures
        digit_text(d).len() == 1,
        digit_of(digit_text(d)[0]) == Some(d),
        forall|c: char| digit_of(c) == Some(d) ==> digit_text(d)[0] == c,
{
    reveal_strlit("0");
    reveal_strlit("1");
    reveal_strlit("2");
    reveal_strlit("3");
    reveal_strlit("4");
    reveal_strlit("5");
    reveal_strlit("6");
    reveal_strlit("7");
    reveal_strlit("8");
    reveal_strlit("9");
}

/// The decimal text of a number is made of digits, denotes the number, and
/// starts with a zero only where the number is zero.
pub proof fn lemma_decimal_digits(n: nat)
    ensures
        decimal(n).len() >= 1,
        all_digits(decimal(n)),
        digits_value(decimal(n)) == n,
        n > 0 ==> decimal(n)[0] != '0',
        n < 10 ==> decimal(n).len() == 1,
    decreases n,
{
    if n < 10 {
        lemma_digit_text(n);
        assert(decimal(n).drop_last().len() == 0);
        assert(digits_value(decimal(n).drop_last()) == 0);
    } else {
        lemma_decimal_digits(n / 10);
        lemma_digit_text(n % 10);
        let head = decimal(n / 10);
        let tail = digit_text(n % 10);
        assert(decimal(n) == head + tail);
        assert((head + tail).drop_last() =~= head);
        assert((head + tail).last() == tail[0]);
        assert((head + tail)[0] == head[0]);
        assert forall|i: int| 0 <= i < decimal(n).len() implies is_digit(
            #[trigger] decimal(n)[i],
        ) by {
            if i < head.len() {
                assert(decimal(n)[i] == head[i]);
            } else {
                assert(decimal(n)[i] == tail[0]);
            }
        }
    }
}

/// A text of digits that does not start with a zero denotes a number above
/// zero.
pub proof fn lemma_digits_positive(s: Seq<char>)
    requires
        s.len() >= 1,
        all_digits(s),
        s[0] != '0',
    ensures
        digits_value(s) >= 1,
    decreases s.len(),
{
    assert(is_digit(s[s.len() - 1]));
    if s.len() == 1 {
        assert(s.last() == s[0]);
        assert(digits_value(s.drop_last()) == 0);
    } else {
        let init = s.drop_last();
        assert forall|i: int| 0 <= i < init.len() implies is_digit(#[trigger] init[i]) by {
            assert(init[i] == s[i]);
        }
        assert(init[0] == s[0]);
        lemma_digits_positive(init);
    }
}

/// A text of digits without a needless leading zero is the decimal text of
/// the number it denotes.
pub proof fn lemma_canonical_digits(s: Seq<char>)
    requires
        s.len() >= 1,
        all_digits(s),
        s.len() == 1 || s[0] != '0',
    ensures
        decimal(digits_value(s)) == s,
    decreases s.len(),
{
    let init = s.drop_last();
    let c = s.last();
    assert(is_digit(s[s.len() - 1]));
    let d = digit_of(c).unwrap();
    lemma_digit_text(d);
    assert(digit_text(d)[0] == c);
    assert(digit_text(d) =~= seq![c]);
    if s.len() == 1 {
        assert(digits_value(init) == 0);
        assert(s =~= seq![c]);
    } else {
        assert forall|i: int| 0 <= i < init.len() implies is_digit(#[trigger] init[i]) by {
            assert(init[i] == s[i]);
        }
        assert(init[0] == s[0]);
        lemma_digits_positive(init);
        lemma_canonical_digits(init);
        let v = digits_value(s);
        assert(v == digits_value(init) * 10 + d);
        assert(v / 10 == digits_value(init) && v % 10 == d);
        assert(decimal(v) == decimal(v / 10) + digit_text(v % 10));
        assert(init + seq![c] =~= s);
    }
}

/// Reads the type id that a registry key stands for.
///
/// A key stands for a type id if it is the decimal text of the id, without
/// a sign, spaces or needless zeros. Any other key stands for none.
pub fn type_id_of_key(key: &str) -> (r: Option<u16>)
    ensures
        match r {
            Some(id) => key@ == decimal(id as nat),
            None => forall|id: u16| key@ != decimal(id as nat),
        },
{
    let n: usize = key.unicode_len();
    if n == 0 {
        proof {
            assert forall|id: u16| key@ != decimal(id as nat) by {
                lemma_decimal_digits(id as nat);
            }
        }
        return None;
    }
    if n > 1 && key.get_char(0) == '0' {
        proof {
            assert forall|id: u16| key@ != decimal(id as nat) by {
                lemma_decimal_digits(id as nat);
            }
        }
        return None;
    }
    let mut acc: u32 = 0;
    let mut i: usize = 0;
    while i < n
        invariant
            i <= n,
            n == key@.len(),
            acc <= 65535,
            acc == digits_value(key@.take(i as int)),
            forall|j: int| 0 <= j < i ==> is_digit(#[trigger] key@[j]),
        decreases n - i,
    {
        let c: char = key.get_char(i);
        let d: u32 = match digit_value(c) {
            Some(d) => d as u32,
            None => {
                proof {
                    assert(!is_digit(key@[i as int]));
                    assert forall|id: u16| key@ != decimal(id as nat) by {
                        lemma_decimal_digits(id as nat);
                        if key@ == decimal(id as nat) {
                            assert(is_digit(decimal(id as nat)[i as int]));
                        }
                    }
                }
                return None;
            },
        };
        let next: u32 = acc * 10 + d;
        proof {
            assert(key@.take(i + 1).drop_last() =~= key@.take(i as int));
            assert(key@.take(i + 1).last() == c);
            assert(digits_value(key@.take(i + 1)) == next);
        }
        if next > 65535 {
            proof {
                lemma_digits_value_prefix(key@, i + 1);
                assert forall|id: u16| key@ != decimal(id as nat) by {
                    lemma_decimal_digits(id as nat);
                }
            }
            return None;
        }
        acc = next;
        i = i + 1;
    }
    proof {
        assert(key@.take(i as int) =~= key@);
        lemma_canonical_digits(key@);
    }
    Some(acc as u16)
}

} // verus!
