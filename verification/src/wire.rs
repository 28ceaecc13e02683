//! The grammar of the shortcuts record format, as functions on byte
//! sequences.
//!
//! A record file is a tree of fields. A field is one tag byte, a key that ends
//! with a NUL byte, and a value whose shape the tag decides. The file holds
//! one nested field, the container, whose children are the entries; every
//! entry is again a nested field, keyed by its ordinal.

use vstd::prelude::*;
use vstd::string::StringSliceAdditionalSpecFns;

verus! {

/// Tag of a field whose value is a run of fields closed by [`END`].
pub const NESTED: u8 = 0x00;

/// Tag of a field whose value is a NUL-terminated byte string.
pub const STRING: u8 = 0x01;

/// Tag of a field whose value is a 32-bit signed integer, little-endian.
pub const INT32: u8 = 0x02;

/// Tag that closes the innermost open scope. It has neither key nor value.
pub const END: u8 = 0x08;

/// What went wrong at the offset that a [`MalformedInput`] names.
#[derive(Clone, Copy, Debug, PartialEq, Eq, Structural)]
pub enum Defect {
    /// The buffer ends inside a field: in its key or in its value.
    Truncated,
    /// The buffer ends where a tag was due, so a scope is never closed.
    Unclosed,
    /// The byte where a tag was due is none of the four tags.
    UnknownTag,
    /// A tag or key of the format stands where the layout of a record file
    /// has no place for it.
    Unexpected,
}

/// A violation of the grammar, with the offset of the byte that shows it. For
/// the two defects of a buffer that ends too early this is the buffer's
/// length.
#[derive(Clone, Copy, Debug, PartialEq, Eq, Structural)]
pub struct MalformedInput {
    pub offset: usize,
    pub defect: Defect,
}

/// The value of a field.
pub enum ValueModel {
    Text(Seq<u8>),
    Int(i32),
    /// The children of a nested field in their encoded form, without the
    /// [`END`] that closes them.
    Nested(Seq<u8>),
}

/// One field: its key without the terminating NUL, and its value.
pub struct FieldModel {
    pub key: Seq<u8>,
    pub value: ValueModel,
}

/// One entry: the key it is stored under and its fields in file order.
pub struct EntryModel {
    pub index: Seq<u8>,
    pub fields: Seq<FieldModel>,
}

/// The violation `defect` at `offset`.
pub open spec fn flaw(offset: int, defect: Defect) -> MalformedInput {
    MalformedInput { offset: offset as usize, defect }
}

/// The key of the container: the bytes of the word `shortcuts`.
pub open spec fn container_key() -> Seq<u8> {
    "shortcuts".spec_bytes()
}

/// Whether `tag` opens a field, that is, whether it is a tag other than
/// [`END`].
pub open spec fn is_field_tag(tag: u8) -> bool {
    tag == NESTED || tag == STRING || tag == INT32
}

/// The number of bytes from `from` up to the next NUL byte, or up to the end
/// of the buffer where none follows.
pub open spec fn span(b: Seq<u8>, from: int) -> nat
    decreases b.len() - from,
{
    if from < 0 || from >= b.len() || b[from] == 0 {
        0
    } else {
        1 + span(b, from + 1)
    }
}

/// The integer that four little-endian bytes hold, in two's complement.
pub open spec fn int_of_le(b: Seq<u8>) -> i32
    recommends
        b.len() == 4,
{
    let u = b[0] + 0x100 * b[1] + 0x1_0000 * b[2] + 0x100_0000 * b[3];
    if u < 0x8000_0000 {
        u as i32
    } else {
        (u - 0x1_0000_0000) as i32
    }
}

/// The four little-endian bytes of an integer in two's complement.
pub open spec fn le_of_int(n: i32) -> Seq<u8> {
    let u: int = if n >= 0 {
        n as int
    } else {
        n + 0x1_0000_0000
    };
    seq![
        (u % 0x100) as u8,
        (u / 0x100 % 0x100) as u8,
        (u / 0x1_0000 % 0x100) as u8,
        (u / 0x100_0000) as u8,
    ]
}

/// Where the scope ends that is open at `pos` with `depth` more scopes open
/// inside it: the offset just after the [`END`] that closes it.
pub open spec fn scope_end(b: Seq<u8>, pos: int, depth: nat) -> Result<int, MalformedInput>
    decreases b.len() - pos,
{
    if pos < 0 || pos >= b.len() {
        Err(flaw(b.len() as int, Defect::Unclosed))
    } else if b[pos] == END {
        if depth == 0 {
            Ok(pos + 1)
        } else {
            scope_end(b, pos + 1, (depth - 1) as nat)
        }
    } else if !is_field_tag(b[pos]) {
        Err(flaw(pos, Defect::UnknownTag))
    } else {
        let k = pos + 1 + span(b, pos + 1);
        if k >= b.len() {
            Err(flaw(b.len() as int, Defect::Truncated))
        } else if b[pos] == NESTED {
            scope_end(b, k + 1, depth + 1)
        } else if b[pos] == STRING {
            let v = k + 1 + span(b, k + 1);
            if v >= b.len() {
                Err(flaw(b.len() as int, Defect::Truncated))
            } else {
                scope_end(b, v + 1, depth)
            }
        } else {
            if k + 4 >= b.len() {
                Err(flaw(b.len() as int, Defect::Truncated))
            } else {
                scope_end(b, k + 5, depth)
            }
        }
    }
}

/// The field whose tag stands at `pos`, and the offset just after it.
pub open spec fn field_at(b: Seq<u8>, pos: int) -> Result<(FieldModel, int), MalformedInput>
    recommends
        0 <= pos < b.len(),
        is_field_tag(b[pos]),
{
    let k = pos + 1 + span(b, pos + 1);
    let key = b.subrange(pos + 1, k);
    if k >= b.len() {
        Err(flaw(b.len() as int, Defect::Truncated))
    } else if b[pos] == NESTED {
        match scope_end(b, k + 1, 0) {
            Ok(end) => Ok(
                (FieldModel { key, value: ValueModel::Nested(b.subrange(k + 1, end - 1)) }, end),
            ),
            Err(e) => Err(e),
        }
    } else if b[pos] == STRING {
        let v = k + 1 + span(b, k + 1);
        if v >= b.len() {
            Err(flaw(b.len() as int, Defect::Truncated))
        } else {
            Ok((FieldModel { key, value: ValueModel::Text(b.subrange(k + 1, v)) }, v + 1))
        }
    } else {
        if k + 4 >= b.len() {
            Err(flaw(b.len() as int, Defect::Truncated))
        } else {
            Ok(
                (
                    FieldModel { key, value: ValueModel::Int(int_of_le(b.subrange(k + 1, k + 5))) },
                    k + 5,
                ),
            )
        }
    }
}

/// A scope that is closed within the buffer ends after its start.
pub proof fn lemma_scope_end_bounds(b: Seq<u8>, pos: int, depth: nat)
    requires
        0 <= pos,
        scope_end(b, pos, depth) is Ok,
    ensures
        pos + depth < scope_end(b, pos, depth).unwrap() <= b.len(),
        b[scope_end(b, pos, depth).unwrap() - 1] == END,
    decreases b.len() - pos,
{
    if b[pos] == END {
        if depth > 0 {
            lemma_scope_end_bounds(b, pos + 1, (depth - 1) as nat);
        }
    } else {
        let k = pos + 1 + span(b, pos + 1);
        if b[pos] == NESTED {
            lemma_scope_end_bounds(b, k + 1, depth + 1);
        } else if b[pos] == STRING {
            let v = k + 1 + span(b, k + 1);
            lemma_scope_end_bounds(b, v + 1, depth);
        } else {
            lemma_scope_end_bounds(b, k + 5, depth);
        }
    }
}

/// A field that parses ends after its tag and within the buffer.
pub proof fn lemma_field_at_bounds(b: Seq<u8>, pos: int)
    requires
        0 <= pos < b.len(),
        is_field_tag(b[pos]),
        field_at(b, pos) is Ok,
    ensures
        pos + 2 <= field_at(b, pos).unwrap().1 <= b.len(),
{
    let k = pos + 1 + span(b, pos + 1);
    if b[pos] == NESTED {
        lemma_scope_end_bounds(b, k + 1, 0);
    }
}

/// The fields from `pos` up to the [`END`] that closes their scope, and the
/// offset just after that [`END`].
pub open spec fn fields_at(b: Seq<u8>, pos: int) -> Result<(Seq<FieldModel>, int), MalformedInput>
    decreases b.len() - pos,
{
    if pos < 0 || pos >= b.len() {
        Err(flaw(b.len() as int, Defect::Unclosed))
    } else if b[pos] == END {
        Ok((Seq::empty(), pos + 1))
    } else if !is_field_tag(b[pos]) {
        Err(flaw(pos, Defect::UnknownTag))
    } else {
        match field_at(b, pos) {
            Err(e) => Err(e),
            Ok((field, next)) => {
                proof {
                    lemma_field_at_bounds(b, pos);
                }
                match fields_at(b, next) {
                    Err(e) => Err(e),
                    Ok((rest, end)) => Ok((seq![field] + rest, end)),
                }
            },
        }
    }
}

/// A run of fields that parses ends after its start and within the buffer.
pub proof fn lemma_fields_at_bounds(b: Seq<u8>, pos: int)
    requires
        0 <= pos,
        fields_at(b, pos) is Ok,
    ensures
        pos < fields_at(b, pos).unwrap().1 <= b.len(),
    decreases b.len() - pos,
{
    if b[pos] != END {
        lemma_field_at_bounds(b, pos);
        lemma_fields_at_bounds(b, field_at(b, pos).unwrap().1);
    }
}

/// The entries from `pos` up to the [`END`] that closes the container, and
/// the offset just after that [`END`]. Every child of the container has to be
/// a nested field.
pub open spec fn entries_at(b: Seq<u8>, pos: int) -> Result<(Seq<EntryModel>, int), MalformedInput>
    decreases b.len() - pos,
{
    if pos < 0 || pos >= b.len() {
        Err(flaw(b.len() as int, Defect::Unclosed))
    } else if b[pos] == END {
        Ok((Seq::empty(), pos + 1))
    } else if !is_field_tag(b[pos]) {
        Err(flaw(pos, Defect::UnknownTag))
    } else if b[pos] != NESTED {
        Err(flaw(pos, Defect::Unexpected))
    } else {
        let k = pos + 1 + span(b, pos + 1);
        if k >= b.len() {
            Err(flaw(b.len() as int, Defect::Truncated))
        } else {
            match fields_at(b, k + 1) {
                Err(e) => Err(e),
                Ok((fields, next)) => {
                    proof {
                        lemma_fields_at_bounds(b, k + 1);
                    }
                    match entries_at(b, next) {
                        Err(e) => Err(e),
                        Ok((rest, end)) => Ok(
                            (
                                seq![EntryModel { index: b.subrange(pos + 1, k), fields }] + rest,
                                end,
                            ),
                        ),
                    }
                },
            }
        }
    }
}

/// A run of entries that parses ends after its start and within the buffer.
pub proof fn lemma_entries_at_bounds(b: Seq<u8>, pos: int)
    requires
        0 <= pos,
        entries_at(b, pos) is Ok,
    ensures
        pos < entries_at(b, pos).unwrap().1 <= b.len(),
    decreases b.len() - pos,
{
    if b[pos] != END {
        let k = pos + 1 + span(b, pos + 1);
        lemma_fields_at_bounds(b, k + 1);
        lemma_entries_at_bounds(b, fields_at(b, k + 1).unwrap().1);
    }
}

/// The bytes that open every record file: the tag of the container, its key
/// and the NUL that ends the key.
pub open spec fn header() -> Seq<u8> {
    seq![NESTED] + container_key() + seq![0u8]
}

/// Where the header of a record file fails, if it does. The header is read as
/// any field is: its tag, then its key up to the NUL.
pub open spec fn header_flaw(b: Seq<u8>) -> Option<MalformedInput> {
    let k = 1 + span(b, 1) as int;
    if b.len() == 0 {
        Some(flaw(0, Defect::Unclosed))
    } else if b[0] != NESTED {
        Some(
            flaw(
                0,
                if is_field_tag(b[0]) || b[0] == END {
                    Defect::Unexpected
                } else {
                    Defect::UnknownTag
                },
            ),
        )
    } else if k >= b.len() {
        Some(flaw(b.len() as int, Defect::Truncated))
    } else if b.subrange(1, k) != container_key() {
        Some(flaw(1, Defect::Unexpected))
    } else {
        None
    }
}

/// What a record file holds: its entries in file order and the bytes that
/// follow the structure, or the first violation of the grammar.
///
/// The structure is the header, the entries, the [`END`] of the container and
/// one more [`END`] for the scope around it. Whatever follows is the trailer.
pub open spec fn decode_spec(b: Seq<u8>) -> Result<(Seq<EntryModel>, Seq<u8>), MalformedInput> {
    match header_flaw(b) {
        Some(e) => Err(e),
        None => match entries_at(b, header().len() as int) {
            Err(e) => Err(e),
            Ok((entries, end)) => if end >= b.len() {
                Err(flaw(b.len() as int, Defect::Unclosed))
            } else if b[end] == END {
                Ok((entries, b.subrange(end + 1, b.len() as int)))
            } else if is_field_tag(b[end]) {
                Err(flaw(end, Defect::Unexpected))
            } else {
                Err(flaw(end, Defect::UnknownTag))
            },
        },
    }
}

/// The encoded form of one field.
pub open spec fn emit_field(f: FieldModel) -> Seq<u8> {
    match f.value {
        ValueModel::Text(v) => seq![STRING] + f.key + seq![0u8] + v + seq![0u8],
        ValueModel::Int(n) => seq![INT32] + f.key + seq![0u8] + le_of_int(n),
        ValueModel::Nested(body) => seq![NESTED] + f.key + seq![0u8] + body + seq![END],
    }
}

/// The encoded forms of a run of fields, one after the other.
pub open spec fn emit_fields(fields: Seq<FieldModel>) -> Seq<u8>
    decreases fields.len(),
{
    if fields.len() == 0 {
        Seq::empty()
    } else {
        emit_fields(fields.drop_last()) + emit_field(fields.last())
    }
}

/// The encoded form of one entry: a nested field under the entry's key.
pub open spec fn emit_entry(e: EntryModel) -> Seq<u8> {
    seq![NESTED] + e.index + seq![0u8] + emit_fields(e.fields) + seq![END]
}

/// The encoded forms of a run of entries, one after the other.
pub open spec fn emit_entries(entries: Seq<EntryModel>) -> Seq<u8>
    decreases entries.len(),
{
    if entries.len() == 0 {
        Seq::empty()
    } else {
        emit_entries(entries.drop_last()) + emit_entry(entries.last())
    }
}

/// The record file that holds `entries` and ends with `trailer`.
pub open spec fn encode_spec(entries: Seq<EntryModel>, trailer: Seq<u8>) -> Seq<u8> {
    header() + emit_entries(entries) + seq![END, END] + trailer
}

/// Whether a byte string holds no NUL byte, so that it can stand before a
/// terminating NUL.
pub open spec fn no_nul(s: Seq<u8>) -> bool {
    forall|i: int| 0 <= i < s.len() ==> s[i] != 0
}

/// Whether `body` is a run of complete fields: read as a scope, `body`
/// followed by one [`END`] is closed by that very [`END`].
pub open spec fn closed_body(body: Seq<u8>) -> bool {
    scope_end(body.push(END), 0, 0) == Ok::<int, MalformedInput>(body.len() as int + 1)
}

impl FieldModel {
    /// Whether the field can be written and read back: no NUL in its key or
    /// its text, and a nested value that is a run of complete fields.
    pub open spec fn storable(self) -> bool {
        &&& no_nul(self.key)
        &&& match self.value {
            ValueModel::Text(v) => no_nul(v),
            ValueModel::Int(_) => true,
            ValueModel::Nested(body) => closed_body(body),
        }
    }
}

impl EntryModel {
    /// Whether the entry can be written and read back: no NUL in its key, and
    /// every field storable.
    pub open spec fn storable(self) -> bool {
        &&& no_nul(self.index)
        &&& forall|i: int| 0 <= i < self.fields.len() ==> (#[trigger] self.fields[i]).storable()
    }
}

/// Whether every entry of a list can be written and read back.
pub open spec fn all_storable(entries: Seq<EntryModel>) -> bool {
    forall|i: int| 0 <= i < entries.len() ==> (#[trigger] entries[i]).storable()
}

} // verus!
