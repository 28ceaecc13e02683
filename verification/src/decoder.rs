//! Reading a record file.

use crate::entry::{entries_model, fields_model, Field, ShortcutEntry, Value};
use crate::laws::lemma_decode_then_encode;
use crate::scan::{copy_range, read_int, same_bytes, scan_span};
use crate::wire::{
    all_storable, decode_spec, encode_spec, entries_at, field_at, fields_at, header, is_field_tag,
    scope_end, Defect, EntryModel, FieldModel, MalformedInput, END, INT32, NESTED, STRING,
};
use vstd::prelude::*;
use vstd::slice::slice_subrange;

verus! {

/// Finds the end of the scope that opens at `start`: the offset just after
/// the tag that closes it. The scopes that open inside it are stepped over.
fn find_scope_end(b: &[u8], start: usize) -> (r: Result<usize, MalformedInput>)
    requires
        start <= b.len(),
    ensures
        match scope_end(b@, start as int, 0) {
            Ok(end) => r == Ok::<usize, MalformedInput>(end as usize) && end <= b.len(),
            Err(e) => r == Err::<usize, MalformedInput>(e),
        },
{
    let n: usize = b.len();
    let mut pos: usize = start;
    let mut depth: usize = 0;
    loop
        invariant
            n == b.len(),
            start <= pos <= n,
            depth <= pos - start,
            scope_end(b@, start as int, 0) == scope_end(b@, pos as int, depth as nat),
        decreases n - pos,
    {
        if pos >= n {
            return Err(MalformedInput { offset: n, defect: Defect::Unclosed });
        }
        let tag: u8 = b[pos];
        if tag == END {
            if depth == 0 {
                return Ok(pos + 1);
            }
            depth = depth - 1;
            pos = pos + 1;
        } else if tag != NESTED && tag != STRING && tag != INT32 {
            return Err(MalformedInput { offset: pos, defect: Defect::UnknownTag });
        } else {
            let k: usize = scan_span(b, pos + 1);
            if k >= n {
                return Err(MalformedInput { offset: n, defect: Defect::Truncated });
            }
            if tag == NESTED {
                depth = depth + 1;
                pos = k + 1;
            } else if tag == STRING {
                let v: usize = scan_span(b, k + 1);
                if v >= n {
                    return Err(MalformedInput { offset: n, defect: Defect::Truncated });
                }
                pos = v + 1;
            } else {
                if n - k <= 4 {
                    return Err(MalformedInput { offset: n, defect: Defect::Truncated });
                }
                pos = k + 5;
            }
        }
    }
}

/// Reads the field whose tag stands at `pos`.
fn read_field(b: &[u8], pos: usize) -> (r: Result<(Field, usize), MalformedInput>)
    requires
        pos < b.len(),
        is_field_tag(b@[pos as int]),
    ensures
        match field_at(b@, pos as int) {
            Ok((field, next)) => r matches Ok(got) && got.0@ == field && got.1 == next && pos
                < next <= b.len(),
            Err(e) => r matches Err(got) && got == e,
        },
{
    let n: usize = b.len();
    let tag: u8 = b[pos];
    let k: usize = scan_span(b, pos + 1);
    if k >= n {
        return Err(MalformedInput { offset: n, defect: Defect::Truncated });
    }
    let key: Vec<u8> = copy_range(b, pos + 1, k);
    if tag == NESTED {
        match find_scope_end(b, k + 1) {
            Err(e) => Err(e),
            Ok(end) => {
                proof {
                    crate::wire::lemma_scope_end_bounds(b@, k + 1, 0);
                }
                let body: Vec<u8> = copy_range(b, k + 1, end - 1);
                Ok((Field { key, value: Value::Nested(body) }, end))
            },
        }
    } else if tag == STRING {
        let v: usize = scan_span(b, k + 1);
        if v >= n {
            return Err(MalformedInput { offset: n, defect: Defect::Truncated });
        }
        let text: Vec<u8> = copy_range(b, k + 1, v);
        Ok((Field { key, value: Value::Text(text) }, v + 1))
    } else {
        if n - k <= 4 {
            return Err(MalformedInput { offset: n, defect: Defect::Truncated });
        }
        let number: i32 = read_int(b, k + 1);
        Ok((Field { key, value: Value::Int(number) }, k + 5))
    }
}

/// The result `r` of reading on, with the fields `acc` that were read before
/// put in front.
spec fn after_fields(
    acc: Seq<FieldModel>,
    r: Result<(Seq<FieldModel>, int), MalformedInput>,
) -> Result<(Seq<FieldModel>, int), MalformedInput> {
    match r {
        Ok((rest, end)) => Ok((acc + rest, end)),
        Err(e) => Err(e),
    }
}

/// The result `r` of reading on, with the entries `acc` that were read before
/// put in front.
spec fn after_entries(
    acc: Seq<EntryModel>,
    r: Result<(Seq<EntryModel>, int), MalformedInput>,
) -> Result<(Seq<EntryModel>, int), MalformedInput> {
    match r {
        Ok((rest, end)) => Ok((acc + rest, end)),
        Err(e) => Err(e),
    }
}

/// Reads the fields of the scope that opens at `start`, up to the tag that
/// closes it.
fn read_fields(b: &[u8], start: usize) -> (r: Result<(Vec<Field>, usize), MalformedInput>)
    requires
        start <= b.len(),
    ensures
        match fields_at(b@, start as int) {
            Ok((fields, end)) => r matches Ok(got) && fields_model(got.0@) == fields && got.1
                == end && start < end <= b.len(),
            Err(e) => r matches Err(got) && got == e,
        },
{
    let n: usize = b.len();
    let mut out: Vec<Field> = Vec::new();
    let mut pos: usize = start;
    proof {
        assert(fields_model(out@) =~= Seq::<FieldModel>::empty());
        match fields_at(b@, start as int) {
            Ok((rest, end)) => {
                assert(Seq::<FieldModel>::empty() + rest =~= rest);
            },
            Err(e) => {},
        }
    }
    loop
        invariant
            n == b.len(),
            start <= pos <= n,
            fields_at(b@, start as int) == after_fields(
                fields_model(out@),
                fields_at(b@, pos as int),
            ),
        decreases n - pos,
    {
        if pos >= n {
            return Err(MalformedInput { offset: n, defect: Defect::Unclosed });
        }
        let tag: u8 = b[pos];
        if tag == END {
            proof {
                assert(fields_model(out@) + Seq::<FieldModel>::empty() =~= fields_model(out@));
            }
            return Ok((out, pos + 1));
        }
        if tag != NESTED && tag != STRING && tag != INT32 {
            return Err(MalformedInput { offset: pos, defect: Defect::UnknownTag });
        }
        match read_field(b, pos) {
            Err(e) => {
                return Err(e);
            },
            Ok((field, next)) => {
                let ghost before = fields_model(out@);
                let ghost model = field@;
                out.push(field);
                proof {
                    assert(fields_model(out@) =~= before.push(model));
                    match fields_at(b@, next as int) {
                        Ok((rest, end)) => {
                            assert(before + (seq![model] + rest) =~= before.push(model) + rest);
                        },
                        Err(e) => {},
                    }
                }
                pos = next;
            },
        }
    }
}

/// Reads the entries of the container from `start`, up to the tag that
/// closes the container.
fn read_entries(b: &[u8], start: usize) -> (r: Result<(Vec<ShortcutEntry>, usize), MalformedInput>)
    requires
        start <= b.len(),
    ensures
        match entries_at(b@, start as int) {
            Ok((entries, end)) => r matches Ok(got) && entries_model(got.0@) == entries && got.1
                == end && start < end <= b.len(),
            Err(e) => r matches Err(got) && got == e,
        },
{
    let n: usize = b.len();
    let mut out: Vec<ShortcutEntry> = Vec::new();
    let mut pos: usize = start;
    proof {
        assert(entries_model(out@) =~= Seq::<EntryModel>::empty());
        match entries_at(b@, start as int) {
            Ok((rest, end)) => {
                assert(Seq::<EntryModel>::empty() + rest =~= rest);
            },
            Err(e) => {},
        }
    }
    loop
        invariant
            n == b.len(),
            start <= pos <= n,
            entries_at(b@, start as int) == after_entries(
                entries_model(out@),
                entries_at(b@, pos as int),
            ),
        decreases n - pos,
    {
        if pos >= n {
            return Err(MalformedInput { offset: n, defect: Defect::Unclosed });
        }
        let tag: u8 = b[pos];
        if tag == END {
            proof {
                assert(entries_model(out@) + Seq::<EntryModel>::empty() =~= entries_model(out@));
            }
            return Ok((out, pos + 1));
        }
        if tag != NESTED && tag != STRING && tag != INT32 {
            return Err(MalformedInput { offset: pos, defect: Defect::UnknownTag });
        }
        if tag != NESTED {
            return Err(MalformedInput { offset: pos, defect: Defect::Unexpected });
        }
        let k: usize = scan_span(b, pos + 1);
        if k >= n {
            return Err(MalformedInput { offset: n, defect: Defect::Truncated });
        }
        let index: Vec<u8> = copy_range(b, pos + 1, k);
        match read_fields(b, k + 1) {
            Err(e) => {
                return Err(e);
            },
            Ok((fields, next)) => {
                let ghost before = entries_model(out@);
                let entry = ShortcutEntry::from_parts(index, fields);
                let ghost model = entry@;
                out.push(entry);
                proof {
                    assert(entries_model(out@) =~= before.push(model));
                    match entries_at(b@, next as int) {
                        Ok((rest, end)) => {
                            assert(before + (seq![model] + rest) =~= before.push(model) + rest);
                        },
                        Err(e) => {},
                    }
                }
                pos = next;
            },
        }
    }
}

/// Decodes a record file into its entries, in file order, and the bytes that
/// follow the structure.
///
/// The buffer is read once from front to back. The first violation of the
/// grammar ends the reading and is returned with its offset.
pub fn decode(bytes: &[u8]) -> (r: Result<(Vec<ShortcutEntry>, Vec<u8>), MalformedInput>)
    ensures
        match decode_spec(bytes@) {
            Ok((entries, trailer)) => r matches Ok(got) && entries_model(got.0@) == entries
                && got.1@ == trailer,
            Err(e) => r matches Err(got) && got == e,
        },
        r matches Ok(got) ==> all_storable(entries_model(got.0@)) && encode_spec(
            entries_model(got.0@),
            got.1@,
        ) == bytes@,
{
    proof {
        if decode_spec(bytes@) is Ok {
            lemma_decode_then_encode(bytes@);
        }
    }
    let n: usize = bytes.len();
    if n == 0 {
        return Err(MalformedInput { offset: 0, defect: Defect::Unclosed });
    }
    let tag: u8 = bytes[0];
    if tag != NESTED {
        let defect = if tag == STRING || tag == INT32 || tag == END {
            Defect::Unexpected
        } else {
            Defect::UnknownTag
        };
        return Err(MalformedInput { offset: 0, defect });
    }
    let k: usize = scan_span(bytes, 1);
    if k >= n {
        return Err(MalformedInput { offset: n, defect: Defect::Truncated });
    }
    if !same_bytes(slice_subrange(bytes, 1, k), "shortcuts".as_bytes()) {
        return Err(MalformedInput { offset: 1, defect: Defect::Unexpected });
    }
    assert(header().len() == k + 1);
    match read_entries(bytes, k + 1) {
        Err(e) => Err(e),
        Ok((entries, end)) => {
            if end >= n {
                return Err(MalformedInput { offset: n, defect: Defect::Unclosed });
            }
            let last: u8 = bytes[end];
            if last == END {
                let trailer: Vec<u8> = copy_range(bytes, end + 1, n);
                Ok((entries, trailer))
            } else if last == NESTED || last == STRING || last == INT32 {
                Err(MalformedInput { offset: end, defect: Defect::Unexpected })
            } else {
                Err(MalformedInput { offset: end, defect: Defect::UnknownTag })
            }
        },
    }
}

} // verus!
