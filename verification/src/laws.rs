//! What holds between reading and writing a record file.

use crate::wire::{
    all_storable, closed_body, container_key, decode_spec, emit_entries, emit_entry, emit_field,
    emit_fields, encode_spec, entries_at, field_at, fields_at, header, header_flaw, int_of_le,
    is_field_tag, le_of_int, lemma_entries_at_bounds, lemma_field_at_bounds,
    lemma_fields_at_bounds, lemma_scope_end_bounds, no_nul, scope_end, span, EntryModel,
    FieldModel, MalformedInput, ValueModel, END, INT32, NESTED, STRING,
};
use vstd::prelude::*;
use vstd::string::StringSliceAdditionalSpecFns;

verus! {

/// The bytes that `span` counts are not NUL, and the byte after them is NUL
/// unless the buffer ends there.
pub proof fn lemma_span(b: Seq<u8>, from: int)
    requires
        0 <= from <= b.len(),
    ensures
        from + span(b, from) <= b.len(),
        no_nul(b.subrange(from, from + span(b, from))),
        from + span(b, from) < b.len() ==> b[from + span(b, from)] == 0,
    decreases b.len() - from,
{
    if from < b.len() && b[from] != 0 {
        lemma_span(b, from + 1);
        let run = b.subrange(from, from + span(b, from));
        let rest = b.subrange(from + 1, from + 1 + span(b, from + 1));
        assert forall|i: int| 0 <= i < run.len() implies #[trigger] run[i] != 0 by {
            if i > 0 {
                assert(rest[i - 1] != 0);
            }
        }
    }
}

/// A run of `n` bytes without NUL that a NUL follows has the span `n`.
pub proof fn lemma_span_exact(b: Seq<u8>, from: int, n: nat)
    requires
        0 <= from,
        from + n < b.len(),
        no_nul(b.subrange(from, from + n)),
        b[from + n] == 0,
    ensures
        span(b, from) == n,
    decreases n,
{
    if n > 0 {
        let run = b.subrange(from, from + n);
        let rest = b.subrange(from + 1, from + n);
        assert(run[0] != 0);
        assert forall|i: int| 0 <= i < rest.len() implies #[trigger] rest[i] != 0 by {
            assert(run[i + 1] != 0);
        }
        lemma_span_exact(b, from + 1, (n - 1) as nat);
    }
}

/// Inside a window of the buffer a span is the span in the buffer, cut off
/// at the end of the window.
pub proof fn lemma_span_window(b: Seq<u8>, lo: int, hi: int, from: int)
    requires
        0 <= lo <= hi <= b.len(),
        0 <= from <= hi - lo,
    ensures
        span(b.subrange(lo, hi), from) == if span(b, lo + from) < hi - lo - from {
            span(b, lo + from)
        } else {
            (hi - lo - from) as nat
        },
    decreases hi - lo - from,
{
    let w = b.subrange(lo, hi);
    if from < hi - lo {
        assert(w[from] == b[lo + from]);
        if b[lo + from] != 0 {
            lemma_span_window(b, lo, hi, from + 1);
        }
    }
}

/// Four bytes are the little-endian bytes of the integer they hold.
pub proof fn lemma_le_of_int_of_le(b: Seq<u8>)
    requires
        b.len() == 4,
    ensures
        le_of_int(int_of_le(b)) == b,
{
    let b0 = b[0] as int;
    let b1 = b[1] as int;
    let b2 = b[2] as int;
    let b3 = b[3] as int;
    let u = b0 + 0x100 * b1 + 0x1_0000 * b2 + 0x100_0000 * b3;
    let n = int_of_le(b);
    let back: int = if n >= 0 {
        n as int
    } else {
        n + 0x1_0000_0000
    };
    assert(back == u);
    let q1 = b1 + 0x100 * b2 + 0x1_0000 * b3;
    let q2 = b2 + 0x100 * b3;
    assert(u == 0x100 * q1 + b0);
    assert(u / 0x100 == q1 && u % 0x100 == b0);
    assert(u == 0x1_0000 * q2 + (b0 + 0x100 * b1));
    assert(u / 0x1_0000 == q2);
    assert(q1 == 0x100 * q2 + b1);
    assert(q1 % 0x100 == b1);
    assert(u == 0x100_0000 * b3 + (b0 + 0x100 * b1 + 0x1_0000 * b2));
    assert(u / 0x100_0000 == b3);
    assert(q2 % 0x100 == b2);
    assert(le_of_int(n) =~= b);
}

/// An integer is what its little-endian bytes hold.
pub proof fn lemma_int_of_le_of_int(n: i32)
    ensures
        le_of_int(n).len() == 4,
        int_of_le(le_of_int(n)) == n,
{
    let u: int = if n >= 0 {
        n as int
    } else {
        n + 0x1_0000_0000
    };
    let b0 = u % 0x100;
    let b1 = u / 0x100 % 0x100;
    let b2 = u / 0x1_0000 % 0x100;
    let b3 = u / 0x100_0000;
    assert(0 <= b3 < 0x100);
    assert(u / 0x100 == 0x100 * (u / 0x1_0000) + b1);
    assert(u / 0x1_0000 == 0x100 * (u / 0x100_0000) + b2);
    assert(u == b0 + 0x100 * b1 + 0x1_0000 * b2 + 0x100_0000 * b3);
}

/// A scope that is closed inside a window of the buffer is closed at the
/// same place when the whole buffer is read.
pub proof fn lemma_scope_end_out_of_window(b: Seq<u8>, lo: int, hi: int, pos: int, depth: nat)
    requires
        0 <= lo <= hi <= b.len(),
        0 <= pos,
        scope_end(b.subrange(lo, hi), pos, depth) is Ok,
    ensures
        scope_end(b, lo + pos, depth) == Ok::<int, MalformedInput>(
            lo + scope_end(b.subrange(lo, hi), pos, depth).unwrap(),
        ),
    decreases hi - lo - pos,
{
    let w = b.subrange(lo, hi);
    assert(pos < w.len());
    assert(w[pos] == b[lo + pos]);
    if w[pos] == END {
        if depth > 0 {
            lemma_scope_end_out_of_window(b, lo, hi, pos + 1, (depth - 1) as nat);
        }
    } else {
        lemma_span_window(b, lo, hi, pos + 1);
        let k = pos + 1 + span(w, pos + 1);
        assert(lo + k == lo + pos + 1 + span(b, lo + pos + 1));
        if w[pos] == NESTED {
            lemma_scope_end_out_of_window(b, lo, hi, k + 1, depth + 1);
        } else if w[pos] == STRING {
            lemma_span_window(b, lo, hi, k + 1);
            let v = k + 1 + span(w, k + 1);
            lemma_scope_end_out_of_window(b, lo, hi, v + 1, depth);
        } else {
            lemma_scope_end_out_of_window(b, lo, hi, k + 5, depth);
        }
    }
}

/// A scope of the buffer that is closed before a window ends is closed at
/// the same place when only the window is read.
pub proof fn lemma_scope_end_into_window(b: Seq<u8>, lo: int, hi: int, pos: int, depth: nat)
    requires
        0 <= lo <= hi <= b.len(),
        0 <= pos,
        scope_end(b, lo + pos, depth) is Ok,
        scope_end(b, lo + pos, depth).unwrap() <= hi,
    ensures
        scope_end(b.subrange(lo, hi), pos, depth) == Ok::<int, MalformedInput>(
            scope_end(b, lo + pos, depth).unwrap() - lo,
        ),
    decreases b.len() - lo - pos,
{
    let w = b.subrange(lo, hi);
    lemma_scope_end_bounds(b, lo + pos, depth);
    assert(pos < w.len());
    assert(w[pos] == b[lo + pos]);
    if w[pos] == END {
        if depth > 0 {
            lemma_scope_end_into_window(b, lo, hi, pos + 1, (depth - 1) as nat);
        }
    } else {
        lemma_span_window(b, lo, hi, pos + 1);
        let k = lo + pos + 1 + span(b, lo + pos + 1);
        if w[pos] == NESTED {
            lemma_scope_end_bounds(b, k + 1, depth + 1);
            lemma_scope_end_into_window(b, lo, hi, k + 1 - lo, depth + 1);
        } else if w[pos] == STRING {
            let v = k + 1 + span(b, k + 1);
            lemma_scope_end_bounds(b, v + 1, depth);
            lemma_span_window(b, lo, hi, k + 1 - lo);
            lemma_scope_end_into_window(b, lo, hi, v + 1 - lo, depth);
        } else {
            lemma_scope_end_bounds(b, k + 5, depth);
            lemma_scope_end_into_window(b, lo, hi, k + 5 - lo, depth);
        }
    }
}

/// Fields written one after the other are the fields of the first run
/// followed by the fields of the second.
pub proof fn lemma_emit_fields_concat(x: Seq<FieldModel>, y: Seq<FieldModel>)
    ensures
        emit_fields(x + y) == emit_fields(x) + emit_fields(y),
    decreases y.len(),
{
    if y.len() == 0 {
        assert(x + y =~= x);
        assert(emit_fields(x) + emit_fields(y) =~= emit_fields(x));
    } else {
        lemma_emit_fields_concat(x, y.drop_last());
        assert((x + y).drop_last() =~= x + y.drop_last());
        assert((x + y).last() == y.last());
        assert(emit_fields(x + y) =~= emit_fields(x) + emit_fields(y));
    }
}

/// A run of one field is written as that field.
pub proof fn lemma_emit_fields_one(f: FieldModel)
    ensures
        emit_fields(seq![f]) == emit_field(f),
{
    assert(seq![f].drop_last() =~= Seq::<FieldModel>::empty());
    assert(seq![f].last() == f);
    assert(emit_fields(Seq::<FieldModel>::empty()) =~= Seq::<u8>::empty());
    assert(emit_fields(seq![f]) =~= emit_field(f));
}

/// Entries written one after the other are the entries of the first run
/// followed by the entries of the second.
pub proof fn lemma_emit_entries_concat(x: Seq<EntryModel>, y: Seq<EntryModel>)
    ensures
        emit_entries(x + y) == emit_entries(x) + emit_entries(y),
    decreases y.len(),
{
    if y.len() == 0 {
        assert(x + y =~= x);
        assert(emit_entries(x) + emit_entries(y) =~= emit_entries(x));
    } else {
        lemma_emit_entries_concat(x, y.drop_last());
        assert((x + y).drop_last() =~= x + y.drop_last());
        assert((x + y).last() == y.last());
        assert(emit_entries(x + y) =~= emit_entries(x) + emit_entries(y));
    }
}

/// A run of one entry is written as that entry.
pub proof fn lemma_emit_entries_one(e: EntryModel)
    ensures
        emit_entries(seq![e]) == emit_entry(e),
{
    assert(seq![e].drop_last() =~= Seq::<EntryModel>::empty());
    assert(seq![e].last() == e);
    assert(emit_entries(Seq::<EntryModel>::empty()) =~= Seq::<u8>::empty());
    assert(emit_entries(seq![e]) =~= emit_entry(e));
}

/// A field that was read is storable, and written again it is the bytes it
/// was read from.
#[verifier::rlimit(50)]
pub proof fn lemma_field_read_then_written(b: Seq<u8>, pos: int)
    requires
        0 <= pos < b.len(),
        is_field_tag(b[pos]),
        field_at(b, pos) is Ok,
    ensures
        field_at(b, pos).unwrap().1 <= b.len(),
        field_at(b, pos).unwrap().0.storable(),
        emit_field(field_at(b, pos).unwrap().0) == b.subrange(pos, field_at(b, pos).unwrap().1),
{
    let (f, next) = field_at(b, pos).unwrap();
    lemma_field_at_bounds(b, pos);
    lemma_span(b, pos + 1);
    let k = pos + 1 + span(b, pos + 1);
    let key = b.subrange(pos + 1, k);
    assert(f.key == key);
    assert(b[k] == 0);
    if b[pos] == NESTED {
        lemma_scope_end_bounds(b, k + 1, 0);
        lemma_scope_end_into_window(b, k + 1, next, 0, 0);
        let body = b.subrange(k + 1, next - 1);
        assert(body.push(END) =~= b.subrange(k + 1, next));
        assert(f.value == ValueModel::Nested(body));
        assert(closed_body(body));
        assert(seq![NESTED] + key + seq![0u8] + body + seq![END] =~= b.subrange(pos, next));
    } else if b[pos] == STRING {
        lemma_span(b, k + 1);
        let v = k + 1 + span(b, k + 1);
        let text = b.subrange(k + 1, v);
        assert(f.value == ValueModel::Text(text));
        assert(b[v] == 0);
        assert(seq![STRING] + key + seq![0u8] + text + seq![0u8] =~= b.subrange(pos, next));
    } else {
        let four = b.subrange(k + 1, k + 5);
        lemma_le_of_int_of_le(four);
        assert(f.value == ValueModel::Int(int_of_le(four)));
        assert(seq![INT32] + key + seq![0u8] + four =~= b.subrange(pos, next));
    }
}

/// The fields of a scope that were read are storable, and written again,
/// with the tag that closes them, they are the bytes they were read from.
pub proof fn lemma_fields_read_then_written(b: Seq<u8>, pos: int)
    requires
        0 <= pos,
        fields_at(b, pos) is Ok,
    ensures
        fields_at(b, pos).unwrap().1 <= b.len(),
        forall|i: int|
            0 <= i < fields_at(b, pos).unwrap().0.len() ==> (#[trigger] fields_at(
                b,
                pos,
            ).unwrap().0[i]).storable(),
        emit_fields(fields_at(b, pos).unwrap().0) + seq![END] == b.subrange(
            pos,
            fields_at(b, pos).unwrap().1,
        ),
    decreases b.len() - pos,
{
    let (fields, end) = fields_at(b, pos).unwrap();
    if b[pos] == END {
        assert(emit_fields(fields) + seq![END] =~= b.subrange(pos, end));
    } else {
        let (f, next) = field_at(b, pos).unwrap();
        lemma_field_at_bounds(b, pos);
        lemma_field_read_then_written(b, pos);
        lemma_fields_read_then_written(b, next);
        lemma_fields_at_bounds(b, next);
        let (rest, end2) = fields_at(b, next).unwrap();
        assert(fields == seq![f] + rest);
        assert(end == end2);
        lemma_emit_fields_concat(seq![f], rest);
        lemma_emit_fields_one(f);
        assert(emit_fields(fields) + seq![END] =~= b.subrange(pos, next) + b.subrange(next, end));
        assert(b.subrange(pos, next) + b.subrange(next, end) =~= b.subrange(pos, end));
        assert forall|i: int| 0 <= i < fields.len() implies (#[trigger] fields[i]).storable() by {
            if i > 0 {
                assert(fields[i] == rest[i - 1]);
            }
        }
    }
}

/// The entries of a container that were read are storable, and written
/// again, with the tag that closes the container, they are the bytes they
/// were read from.
#[verifier::rlimit(50)]
pub proof fn lemma_entries_read_then_written(b: Seq<u8>, pos: int)
    requires
        0 <= pos,
        entries_at(b, pos) is Ok,
    ensures
        entries_at(b, pos).unwrap().1 <= b.len(),
        all_storable(entries_at(b, pos).unwrap().0),
        emit_entries(entries_at(b, pos).unwrap().0) + seq![END] == b.subrange(
            pos,
            entries_at(b, pos).unwrap().1,
        ),
    decreases b.len() - pos,
{
    let (entries, end) = entries_at(b, pos).unwrap();
    if b[pos] == END {
        assert(emit_entries(entries) + seq![END] =~= b.subrange(pos, end));
    } else {
        lemma_span(b, pos + 1);
        let k = pos + 1 + span(b, pos + 1);
        let index = b.subrange(pos + 1, k);
        lemma_fields_at_bounds(b, k + 1);
        lemma_fields_read_then_written(b, k + 1);
        let (fields, next) = fields_at(b, k + 1).unwrap();
        let e = EntryModel { index, fields };
        lemma_entries_at_bounds(b, next);
        lemma_entries_read_then_written(b, next);
        let (rest, end2) = entries_at(b, next).unwrap();
        assert(entries == seq![e] + rest);
        assert(end == end2);
        assert(b[k] == 0);
        assert(emit_entry(e) =~= seq![NESTED] + index + seq![0u8] + (emit_fields(fields)
            + seq![END]));
        assert(emit_entry(e) =~= b.subrange(pos, next));
        lemma_emit_entries_concat(seq![e], rest);
        lemma_emit_entries_one(e);
        assert(emit_entries(entries) + seq![END] =~= b.subrange(pos, next) + b.subrange(
            next,
            end,
        ));
        assert(b.subrange(pos, next) + b.subrange(next, end) =~= b.subrange(pos, end));
        assert forall|i: int| 0 <= i < entries.len() implies (#[trigger] entries[i]).storable() by {
            if i > 0 {
                assert(entries[i] == rest[i - 1]);
            }
        }
    }
}

/// Reading a record file and writing what was read gives the file back, byte
/// for byte; and what was read is storable.
pub proof fn lemma_decode_then_encode(b: Seq<u8>)
    requires
        decode_spec(b) is Ok,
    ensures
        all_storable(decode_spec(b).unwrap().0),
        encode_spec(decode_spec(b).unwrap().0, decode_spec(b).unwrap().1) == b,
{
    let (entries, trailer) = decode_spec(b).unwrap();
    lemma_span(b, 1);
    let k = 1 + span(b, 1) as int;
    assert(b[k] == 0);
    assert(header() =~= b.subrange(0, k + 1));
    let start = header().len() as int;
    lemma_entries_at_bounds(b, start);
    lemma_entries_read_then_written(b, start);
    let end = entries_at(b, start).unwrap().1;
    assert(b[end] == END);
    assert(trailer == b.subrange(end + 1, b.len() as int));
    assert(encode_spec(entries, trailer) =~= b.subrange(0, start) + (emit_entries(entries)
        + seq![END]) + seq![END] + trailer);
    assert(b.subrange(0, start) + b.subrange(start, end) + seq![END] + b.subrange(
        end + 1,
        b.len() as int,
    ) =~= b);
}

/// The key of the container is nine bytes long and holds no NUL.
pub proof fn lemma_container_key()
    ensures
        container_key().len() == 9,
        no_nul(container_key()),
{
    reveal_strlit("shortcuts");
    vstd::string::is_ascii_spec_bytes("shortcuts");
    assert("shortcuts"@.len() == 9);
    assert(vstd::string::is_ascii("shortcuts"));
}

/// Where the bytes of a storable field stand in a buffer, that field is
/// read, and the reading ends where the bytes end.
#[verifier::rlimit(50)]
pub proof fn lemma_field_written_then_read(b: Seq<u8>, pos: int, f: FieldModel)
    requires
        0 <= pos,
        f.storable(),
        pos + emit_field(f).len() <= b.len(),
        b.subrange(pos, pos + emit_field(f).len()) == emit_field(f),
    ensures
        is_field_tag(b[pos]),
        field_at(b, pos) == Ok::<(FieldModel, int), MalformedInput>(
            (f, pos + emit_field(f).len()),
        ),
{
    let bytes = emit_field(f);
    let n = f.key.len() as int;
    let k = pos + 1 + n;
    assert(bytes[0] == b[pos]);
    assert(bytes[n + 1] == b[k]);
    assert(b.subrange(pos + 1, k) =~= f.key) by {
        assert forall|i: int| 0 <= i < n implies b[pos + 1 + i] == f.key[i] by {
            assert(bytes[1 + i] == b[pos + 1 + i]);
        }
    }
    lemma_span_exact(b, pos + 1, f.key.len());
    match f.value {
        ValueModel::Text(text) => {
            let m = text.len() as int;
            let v = k + 1 + m;
            assert(bytes[n + 2 + m] == b[v]);
            assert(b.subrange(k + 1, v) =~= text) by {
                assert forall|i: int| 0 <= i < m implies b[k + 1 + i] == text[i] by {
                    assert(bytes[n + 2 + i] == b[k + 1 + i]);
                }
            }
            lemma_span_exact(b, k + 1, text.len());
        },
        ValueModel::Int(number) => {
            lemma_int_of_le_of_int(number);
            assert(b.subrange(k + 1, k + 5) =~= le_of_int(number)) by {
                assert forall|i: int| 0 <= i < 4 implies b[k + 1 + i] == le_of_int(number)[i] by {
                    assert(bytes[n + 2 + i] == b[k + 1 + i]);
                }
            }
        },
        ValueModel::Nested(body) => {
            let m = body.len() as int;
            let end = k + 1 + m + 1;
            assert(b.subrange(k + 1, end) =~= body.push(END)) by {
                assert forall|i: int| 0 <= i < m + 1 implies b[k + 1 + i] == body.push(END)[i] by {
                    assert(bytes[n + 2 + i] == b[k + 1 + i]);
                }
            }
            lemma_scope_end_out_of_window(b, k + 1, end, 0, 0);
            assert(b.subrange(k + 1, end - 1) =~= body);
        },
    }
}

/// Where the bytes of storable fields stand in a buffer, with the tag that
/// closes them, those fields are read.
#[verifier::rlimit(50)]
pub proof fn lemma_fields_written_then_read(b: Seq<u8>, pos: int, fields: Seq<FieldModel>)
    requires
        0 <= pos,
        forall|i: int| 0 <= i < fields.len() ==> (#[trigger] fields[i]).storable(),
        pos + emit_fields(fields).len() + 1 <= b.len(),
        b.subrange(pos, pos + emit_fields(fields).len() + 1) == emit_fields(fields) + seq![END],
    ensures
        fields_at(b, pos) == Ok::<(Seq<FieldModel>, int), MalformedInput>(
            (fields, pos + emit_fields(fields).len() + 1),
        ),
    decreases fields.len(),
{
    let bytes = emit_fields(fields) + seq![END];
    let end = pos + emit_fields(fields).len() + 1;
    assert(bytes[0] == b[pos]);
    if fields.len() == 0 {
        assert(fields =~= Seq::<FieldModel>::empty());
    } else {
        let f = fields[0];
        let rest = fields.subrange(1, fields.len() as int);
        assert(fields =~= seq![f] + rest);
        lemma_emit_fields_concat(seq![f], rest);
        lemma_emit_fields_one(f);
        let next = pos + emit_field(f).len();
        assert(emit_fields(fields) == emit_field(f) + emit_fields(rest));
        assert(b.subrange(pos, next) =~= emit_field(f)) by {
            assert forall|i: int| 0 <= i < emit_field(f).len() implies b[pos + i] == emit_field(
                f,
            )[i] by {
                assert(bytes[i] == b[pos + i]);
            }
        }
        lemma_field_written_then_read(b, pos, f);
        assert(b.subrange(next, end) =~= emit_fields(rest) + seq![END]) by {
            assert forall|i: int| 0 <= i < end - next implies b[next + i] == (emit_fields(rest)
                + seq![END])[i] by {
                assert(bytes[emit_field(f).len() + i] == b[next + i]);
            }
        }
        assert forall|i: int| 0 <= i < rest.len() implies (#[trigger] rest[i]).storable() by {
            assert(rest[i] == fields[i + 1]);
        }
        lemma_fields_written_then_read(b, next, rest);
        assert(b[pos] != END);
    }
}

/// Where the bytes of storable entries stand in a buffer, with the tag that
/// closes the container, those entries are read.
#[verifier::rlimit(50)]
pub proof fn lemma_entries_written_then_read(b: Seq<u8>, pos: int, entries: Seq<EntryModel>)
    requires
        0 <= pos,
        all_storable(entries),
        pos + emit_entries(entries).len() + 1 <= b.len(),
        b.subrange(pos, pos + emit_entries(entries).len() + 1) == emit_entries(entries)
            + seq![END],
    ensures
        entries_at(b, pos) == Ok::<(Seq<EntryModel>, int), MalformedInput>(
            (entries, pos + emit_entries(entries).len() + 1),
        ),
    decreases entries.len(),
{
    let bytes = emit_entries(entries) + seq![END];
    let end = pos + emit_entries(entries).len() + 1;
    assert(bytes[0] == b[pos]);
    if entries.len() == 0 {
        assert(entries =~= Seq::<EntryModel>::empty());
    } else {
        let e = entries[0];
        let rest = entries.subrange(1, entries.len() as int);
        assert(entries =~= seq![e] + rest);
        lemma_emit_entries_concat(seq![e], rest);
        lemma_emit_entries_one(e);
        let one = emit_entry(e);
        let next = pos + one.len();
        assert(emit_entries(entries) == one + emit_entries(rest));
        assert(e.storable());
        let n = e.index.len() as int;
        let k = pos + 1 + n;
        assert(one[0] == NESTED);
        assert(one[n + 1] == 0);
        assert(bytes[n + 1] == b[k]);
        assert(b.subrange(pos + 1, k) =~= e.index) by {
            assert forall|i: int| 0 <= i < n implies b[pos + 1 + i] == e.index[i] by {
                assert(bytes[1 + i] == b[pos + 1 + i]);
                assert(one[1 + i] == e.index[i]);
            }
        }
        lemma_span_exact(b, pos + 1, e.index.len());
        let inner = emit_fields(e.fields) + seq![END];
        assert(b.subrange(k + 1, next) =~= inner) by {
            assert forall|i: int| 0 <= i < inner.len() implies b[k + 1 + i] == inner[i] by {
                assert(bytes[n + 2 + i] == b[k + 1 + i]);
                assert(one[n + 2 + i] == inner[i]);
            }
        }
        lemma_fields_written_then_read(b, k + 1, e.fields);
        assert(b.subrange(next, end) =~= emit_entries(rest) + seq![END]) by {
            assert forall|i: int| 0 <= i < end - next implies b[next + i] == (emit_entries(rest)
                + seq![END])[i] by {
                assert(bytes[one.len() + i] == b[next + i]);
            }
        }
        assert forall|i: int| 0 <= i < rest.len() implies (#[trigger] rest[i]).storable() by {
            assert(rest[i] == entries[i + 1]);
        }
        lemma_entries_written_then_read(b, next, rest);
    }
}

/// Writing storable entries and a trailer and reading the result gives the
/// same entries and the same trailer.
pub proof fn lemma_encode_then_decode(entries: Seq<EntryModel>, trailer: Seq<u8>)
    requires
        all_storable(entries),
    ensures
        decode_spec(encode_spec(entries, trailer)) == Ok::<
            (Seq<EntryModel>, Seq<u8>),
            MalformedInput,
        >((entries, trailer)),
{
    let b = encode_spec(entries, trailer);
    lemma_container_key();
    let start = header().len() as int;
    assert(start == 11);
    assert(b[0] == NESTED);
    assert(b[10] == 0);
    assert(b.subrange(1, 10) =~= container_key());
    lemma_span_exact(b, 1, 9);
    assert(header_flaw(b) is None);
    let end = start + emit_entries(entries).len() + 1;
    assert(b.subrange(start, end) =~= emit_entries(entries) + seq![END]);
    lemma_entries_written_then_read(b, start, entries);
    assert(b[end] == END);
    assert(b.subrange(end + 1, b.len() as int) =~= trailer);
}

} // verus!
