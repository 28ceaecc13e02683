//! Keys: how the fields of an entry are found by name, and how an ordinal is
//! spelled as a key.

use crate::scan::same_bytes;
use crate::wire::{no_nul, span, FieldModel, ValueModel, INT32, NESTED, STRING};
use vstd::prelude::*;
use vstd::string::StringSliceAdditionalSpecFns;

verus! {

/// An ASCII capital letter as its small letter; any other byte as it is.
pub open spec fn lower(b: u8) -> u8 {
    if 0x41 <= b <= 0x5a {
        (b + 0x20) as u8
    } else {
        b
    }
}

/// Whether two keys are the same but for the case of their ASCII letters.
pub open spec fn same_key(key: Seq<u8>, name: Seq<u8>) -> bool {
    &&& key.len() == name.len()
    &&& forall|i: int| 0 <= i < key.len() ==> lower(#[trigger] key[i]) == lower(name[i])
}

/// Whether `key` spells `name` or `alias`, in any case.
pub open spec fn named(key: Seq<u8>, name: &str, alias: &str) -> bool {
    same_key(key, name.spec_bytes()) || same_key(key, alias.spec_bytes())
}

/// The tag under which a value is written.
pub open spec fn tag_of(value: ValueModel) -> u8 {
    match value {
        ValueModel::Text(_) => STRING,
        ValueModel::Int(_) => INT32,
        ValueModel::Nested(_) => NESTED,
    }
}

/// The place, at or after `from`, of the first field that is written under
/// `tag` and whose key spells `name` or `alias`; the number of fields where
/// there is none.
pub open spec fn position(
    fields: Seq<FieldModel>,
    tag: u8,
    name: &str,
    alias: &str,
    from: int,
) -> int
    decreases fields.len() - from,
{
    if from < 0 || from >= fields.len() {
        fields.len() as int
    } else if tag_of(fields[from].value) == tag && named(fields[from].key, name, alias) {
        from
    } else {
        position(fields, tag, name, alias, from + 1)
    }
}

/// The text of the first string field of that name, or the empty string.
pub open spec fn text_of(fields: Seq<FieldModel>, name: &str, alias: &str) -> Seq<u8> {
    let i = position(fields, STRING, name, alias, 0);
    if i < fields.len() {
        match fields[i].value {
            ValueModel::Text(v) => v,
            _ => Seq::empty(),
        }
    } else {
        Seq::empty()
    }
}

/// The number of the first integer field of that name, or zero.
pub open spec fn number_of(fields: Seq<FieldModel>, name: &str, alias: &str) -> i32 {
    let i = position(fields, INT32, name, alias, 0);
    if i < fields.len() {
        match fields[i].value {
            ValueModel::Int(n) => n,
            _ => 0i32,
        }
    } else {
        0i32
    }
}

/// The encoded children of the first nested field of that name, or nothing.
pub open spec fn body_of(fields: Seq<FieldModel>, name: &str, alias: &str) -> Seq<u8> {
    let i = position(fields, NESTED, name, alias, 0);
    if i < fields.len() {
        match fields[i].value {
            ValueModel::Nested(body) => body,
            _ => Seq::empty(),
        }
    } else {
        Seq::empty()
    }
}

/// The texts of the string fields that stand at the front of `body` from
/// `pos`, in order. The reading stops at the first byte that does not start a
/// complete string field.
pub open spec fn texts_at(body: Seq<u8>, pos: int) -> Seq<Seq<u8>>
    decreases body.len() - pos,
{
    if pos < 0 || pos >= body.len() || body[pos] != STRING {
        Seq::empty()
    } else {
        let k = pos + 1 + span(body, pos + 1);
        let v = k + 1 + span(body, k + 1);
        if k >= body.len() || v >= body.len() {
            Seq::empty()
        } else {
            seq![body.subrange(k + 1, v)] + texts_at(body, v + 1)
        }
    }
}

/// The decimal digits of `n` in ASCII, without leading zeros.
pub open spec fn decimal(n: nat) -> Seq<u8>
    decreases n,
{
    if n < 10 {
        seq![(0x30 + n) as u8]
    } else {
        decimal(n / 10).push((0x30 + n % 10) as u8)
    }
}

/// The digits of a number hold no NUL.
pub proof fn lemma_decimal_no_nul(n: nat)
    ensures
        no_nul(decimal(n)),
        decimal(n).len() > 0,
    decreases n,
{
    if n >= 10 {
        lemma_decimal_no_nul(n / 10);
    }
}

/// Whether a byte is an ASCII digit.
pub open spec fn is_digit(b: u8) -> bool {
    0x30 <= b <= 0x39
}

/// The number that a run of ASCII digits spells in decimal. A byte that is
/// no digit counts as zero.
pub open spec fn digits_value(s: Seq<u8>) -> nat
    decreases s.len(),
{
    if s.len() == 0 {
        0
    } else {
        digits_value(s.drop_last()) * 10 + if is_digit(s.last()) {
            (s.last() - 0x30) as nat
        } else {
            0
        }
    }
}

/// The ordinal that a key spells: the number whose decimal digits the key
/// is. A key that is not the decimal form of a number spells none.
pub open spec fn ordinal_of(key: Seq<u8>) -> Option<nat> {
    if key == decimal(digits_value(key)) {
        Some(digits_value(key))
    } else {
        None
    }
}

/// The decimal form of a number is made of digits.
pub proof fn lemma_decimal_digits(n: nat)
    ensures
        forall|i: int| 0 <= i < decimal(n).len() ==> is_digit(#[trigger] decimal(n)[i]),
    decreases n,
{
    let s = decimal(n);
    if n >= 10 {
        lemma_decimal_digits(n / 10);
        let front = decimal(n / 10);
        assert forall|i: int| 0 <= i < s.len() implies is_digit(#[trigger] s[i]) by {
            if i < front.len() {
                assert(s[i] == front[i]);
            }
        }
    } else {
        assert(is_digit(s[0]));
    }
}

/// The decimal form of a number spells that number.
pub proof fn lemma_ordinal_of_decimal(n: nat)
    ensures
        digits_value(decimal(n)) == n,
        ordinal_of(decimal(n)) == Some(n),
    decreases n,
{
    if n < 10 {
        let s = decimal(n);
        assert(s.drop_last() =~= Seq::<u8>::empty());
        assert(digits_value(s.drop_last()) == 0);
    } else {
        lemma_ordinal_of_decimal(n / 10);
        let s = decimal(n);
        assert(s.drop_last() =~= decimal(n / 10));
    }
}

/// The digits at the front of a run spell no more than the whole run.
pub proof fn lemma_digits_value_grows(s: Seq<u8>, i: int)
    requires
        0 <= i <= s.len(),
    ensures
        digits_value(s.take(i)) <= digits_value(s),
    decreases s.len() - i,
{
    if i < s.len() {
        lemma_digits_value_grows(s, i + 1);
        assert(s.take(i + 1).drop_last() =~= s.take(i));
    } else {
        assert(s.take(i) =~= s);
    }
}

/// Whether `key` spells `name`, in any case.
pub fn key_is(key: &[u8], name: &str) -> (r: bool)
    ensures
        r == same_key(key@, name.spec_bytes()),
{
    let want: &[u8] = name.as_bytes();
    if key.len() != want.len() {
        return false;
    }
    let mut i: usize = 0;
    while i < key.len()
        invariant
            i <= key.len(),
            key.len() == want.len(),
            want@ == name.spec_bytes(),
            forall|j: int| 0 <= j < i ==> lower(#[trigger] key@[j]) == lower(want@[j]),
        decreases key.len() - i,
    {
        let x: u8 = key[i];
        let y: u8 = want[i];
        let lx: u8 = if 0x41 <= x && x <= 0x5a {
            x + 0x20
        } else {
            x
        };
        let ly: u8 = if 0x41 <= y && y <= 0x5a {
            y + 0x20
        } else {
            y
        };
        if lx != ly {
            return false;
        }
        i = i + 1;
    }
    true
}

/// Appends the decimal digits of `n`.
pub fn push_decimal(out: &mut Vec<u8>, n: usize)
    ensures
        final(out)@ == old(out)@ + decimal(n as nat),
    decreases n,
{
    if n >= 10 {
        push_decimal(out, n / 10);
    }
    out.push(0x30 + (n % 10) as u8);
    assert(out@ =~= old(out)@ + decimal(n as nat));
}

/// The key of the entry at place `n`: the decimal digits of `n`.
pub fn ordinal_key(n: usize) -> (key: Vec<u8>)
    ensures
        key@ == decimal(n as nat),
{
    let mut key: Vec<u8> = Vec::new();
    push_decimal(&mut key, n);
    assert(key@ =~= decimal(n as nat));
    key
}

/// The ordinal that `key` spells, if it spells one that fits the machine's
/// word.
pub fn parse_ordinal(key: &[u8]) -> (r: Option<usize>)
    ensures
        r == match ordinal_of(key@) {
            Some(n) => if n <= usize::MAX {
                Some(n as usize)
            } else {
                None
            },
            None => None,
        },
{
    let mut value: usize = 0;
    let mut i: usize = 0;
    while i < key.len()
        invariant
            i <= key.len(),
            value == digits_value(key@.take(i as int)),
        decreases key.len() - i,
    {
        let b: u8 = key[i];
        proof {
            assert(key@.take(i + 1).drop_last() =~= key@.take(i as int));
            assert(key@.take(i + 1).last() == b);
            lemma_digits_value_grows(key@, i + 1);
        }
        if b < 0x30 || b > 0x39 {
            proof {
                lemma_decimal_digits(digits_value(key@));
            }
            return None;
        }
        let digit: usize = (b - 0x30) as usize;
        if value > (usize::MAX - digit) / 10 {
            return None;
        }
        value = value * 10 + digit;
        i = i + 1;
    }
    assert(key@.take(i as int) =~= key@);
    let spelled: Vec<u8> = ordinal_key(value);
    if same_bytes(spelled.as_slice(), key) {
        Some(value)
    } else {
        None
    }
}

} // verus!
