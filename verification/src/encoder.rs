//! Writing a record file.

use crate::entry::{entries_model, fields_model, Field, ShortcutEntry, Value};
use crate::laws::lemma_encode_then_decode;
use crate::wire::{
    all_storable, decode_spec, emit_entries, emit_entry, emit_field, emit_fields, encode_spec,
    header, le_of_int, EntryModel, MalformedInput, END, INT32, NESTED, STRING,
};
use vstd::prelude::*;

verus! {

/// Appends the four little-endian bytes of `n`.
fn push_int(out: &mut Vec<u8>, n: i32)
    ensures
        final(out)@ == old(out)@ + le_of_int(n),
{
    let u: u32 = if n >= 0 {
        n as u32
    } else {
        ((n - i32::MIN) as u32) + 0x8000_0000
    };
    out.push((u % 0x100) as u8);
    out.push((u / 0x100 % 0x100) as u8);
    out.push((u / 0x1_0000 % 0x100) as u8);
    out.push((u / 0x100_0000) as u8);
    assert(out@ =~= old(out)@ + le_of_int(n));
}

/// Appends the encoded form of one field.
fn push_field(out: &mut Vec<u8>, field: &Field)
    ensures
        final(out)@ == old(out)@ + emit_field(field@),
{
    match &field.value {
        Value::Text(text) => {
            out.push(STRING);
            out.extend_from_slice(field.key.as_slice());
            out.push(0);
            out.extend_from_slice(text.as_slice());
            out.push(0);
        },
        Value::Int(n) => {
            out.push(INT32);
            out.extend_from_slice(field.key.as_slice());
            out.push(0);
            push_int(out, *n);
        },
        Value::Nested(body) => {
            out.push(NESTED);
            out.extend_from_slice(field.key.as_slice());
            out.push(0);
            out.extend_from_slice(body.as_slice());
            out.push(END);
        },
    }
    assert(out@ =~= old(out)@ + emit_field(field@));
}

/// Appends the encoded form of one entry.
fn push_entry(out: &mut Vec<u8>, entry: &ShortcutEntry)
    ensures
        final(out)@ == old(out)@ + emit_entry(entry@),
{
    out.push(NESTED);
    out.extend_from_slice(entry.index());
    out.push(0);
    let ghost base = out@;
    let fields = entry.fields();
    let mut i: usize = 0;
    while i < fields.len()
        invariant
            i <= fields.len(),
            out@ == base + emit_fields(fields_model(fields@).take(i as int)),
        decreases fields.len() - i,
    {
        let ghost before = fields_model(fields@).take(i as int);
        push_field(out, &fields[i]);
        i = i + 1;
        proof {
            let now = fields_model(fields@).take(i as int);
            assert(now.drop_last() =~= before);
            assert(now.last() == fields@[i - 1]@);
            assert(out@ =~= base + emit_fields(now));
        }
    }
    out.push(END);
    proof {
        assert(fields_model(fields@).take(i as int) =~= fields_model(fields@));
        assert(out@ =~= old(out)@ + emit_entry(entry@));
    }
}

/// Encodes a list of entries, followed by `trailer`, as a record file.
///
/// Every entry is written under the key it holds, with its fields in the
/// order and spelling it holds them in. Entries that were decoded, and what
/// reconciliation leaves of them, are storable: decoding the result gives
/// them back.
pub fn encode(entries: &[ShortcutEntry], trailer: &[u8]) -> (out: Vec<u8>)
    ensures
        out@ == encode_spec(entries_model(entries@), trailer@),
        all_storable(entries_model(entries@)) ==> decode_spec(out@) == Ok::<
            (Seq<EntryModel>, Seq<u8>),
            MalformedInput,
        >((entries_model(entries@), trailer@)),
{
    proof {
        if all_storable(entries_model(entries@)) {
            lemma_encode_then_decode(entries_model(entries@), trailer@);
        }
    }
    let mut out: Vec<u8> = Vec::new();
    out.push(NESTED);
    out.extend_from_slice("shortcuts".as_bytes());
    out.push(0);
    assert(out@ =~= header());
    let mut i: usize = 0;
    while i < entries.len()
        invariant
            i <= entries.len(),
            out@ == header() + emit_entries(entries_model(entries@).take(i as int)),
        decreases entries.len() - i,
    {
        let ghost before = entries_model(entries@).take(i as int);
        push_entry(&mut out, &entries[i]);
        i = i + 1;
        proof {
            let now = entries_model(entries@).take(i as int);
            assert(now.drop_last() =~= before);
            assert(now.last() == entries@[i - 1]@);
            assert(out@ =~= header() + emit_entries(now));
        }
    }
    out.push(END);
    out.push(END);
    out.extend_from_slice(trailer);
    proof {
        assert(entries_model(entries@).take(i as int) =~= entries_model(entries@));
        assert(out@ =~= encode_spec(entries_model(entries@), trailer@));
    }
    out
}

} // verus!
