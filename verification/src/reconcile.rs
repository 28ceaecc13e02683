//! The rule of reconciliation: which entries stay, and under which keys.

use crate::entry::{entries_model, ShortcutEntry};
use crate::keys::{decimal, lemma_decimal_no_nul, lemma_ordinal_of_decimal, ordinal_key};
use crate::laws::{lemma_decode_then_encode, lemma_encode_then_decode};
use crate::quote::{strip_pair, unquote, QUOTE};
use crate::wire::{
    all_storable, decode_spec, emit_entry, emit_fields, encode_spec, EntryModel, MalformedInput,
    END, NESTED,
};
use vstd::prelude::*;

verus! {

/// Whether an entry stays, given whether its target was found. A hidden entry
/// stays whatever was found.
pub open spec fn survives(e: EntryModel, present: bool) -> bool {
    e.is_hidden() || present
}

/// What was found for the entry at place `i`. A place without an answer
/// counts as a target that was not found.
pub open spec fn answer(present: Seq<bool>, i: int) -> bool {
    0 <= i < present.len() && present[i]
}

/// The entries that stay, in the order they had and as they are.
pub open spec fn kept(entries: Seq<EntryModel>, present: Seq<bool>) -> Seq<EntryModel>
    decreases entries.len(),
{
    if entries.len() == 0 {
        Seq::empty()
    } else {
        let before = kept(entries.drop_last(), present);
        if survives(entries.last(), answer(present, entries.len() - 1)) {
            before.push(entries.last())
        } else {
            before
        }
    }
}

/// The same entries, each stored under its place in the list in decimal
/// digits.
pub open spec fn rekeyed(entries: Seq<EntryModel>) -> Seq<EntryModel> {
    Seq::new(
        entries.len(),
        |i: int| EntryModel { index: decimal(i as nat), fields: entries[i].fields },
    )
}

/// The outcome of reconciliation: the entries that stay, keyed anew by their
/// place, and whether any entry was dropped.
pub open spec fn reconcile_spec(entries: Seq<EntryModel>, present: Seq<bool>) -> (
    Seq<EntryModel>,
    bool,
) {
    let stay = kept(entries, present);
    (rekeyed(stay), stay.len() != entries.len())
}

/// Whether `exists_at` may have given `found` when asked for `path`.
pub open spec fn asked<F: Fn(&[u8]) -> bool>(exists_at: F, path: Seq<u8>, found: bool) -> bool {
    exists|p: &[u8]| p@ == path && call_ensures(exists_at, (p,), found)
}

/// Whether `present` holds, for every entry that is not hidden, an answer
/// that `exists_at` may have given for the entry's target without its quotes.
pub open spec fn answers_of<F: Fn(&[u8]) -> bool>(
    exists_at: F,
    entries: Seq<EntryModel>,
    present: Seq<bool>,
) -> bool {
    &&& present.len() == entries.len()
    &&& forall|i: int|
        0 <= i < entries.len() && !(#[trigger] entries[i]).is_hidden() ==> asked(
            exists_at,
            strip_pair(entries[i].exe_path(), QUOTE),
            present[i],
        )
}

/// Reconciles a list of entries with what was found of their targets:
/// `present[i]` says whether the target of the entry at place `i` exists.
///
/// A hidden entry stays. Another entry stays if its target exists. The entries
/// that stay keep their order and their fields, and each is stored under its
/// new place. The flag says whether any entry was dropped.
pub fn reconcile_with(entries: Vec<ShortcutEntry>, present: &[bool]) -> (r: (
    Vec<ShortcutEntry>,
    bool,
))
    ensures
        entries_model(r.0@) == reconcile_spec(entries_model(entries@), present@).0,
        r.1 == reconcile_spec(entries_model(entries@), present@).1,
        r.1 == (r.0.len() != entries.len()),
        all_storable(entries_model(entries@)) ==> all_storable(entries_model(r.0@)),
{
    proof {
        if all_storable(entries_model(entries@)) {
            lemma_reconciled_round_trip(entries_model(entries@), present@, Seq::empty());
        }
    }
    let n: usize = entries.len();
    let ghost all = entries_model(entries@);
    let mut out: Vec<ShortcutEntry> = Vec::new();
    let mut i: usize = 0;
    proof {
        assert(all.take(0) =~= Seq::<EntryModel>::empty());
        assert(entries_model(out@) =~= rekeyed(kept(all.take(0), present@)));
    }
    for entry in it: entries
        invariant
            it.seq() == entries@,
            all == entries_model(entries@),
            n == entries.len(),
            i == it.index(),
            i <= n,
            out.len() <= i,
            entries_model(out@) == rekeyed(kept(all.take(i as int), present@)),
    {
        let stays: bool = entry.is_hidden() || (i < present.len() && present[i]);
        let ghost before = kept(all.take(i as int), present@);
        let ghost model = entry@;
        proof {
            let now = all.take(i + 1);
            assert(now.drop_last() =~= all.take(i as int));
            assert(now.last() == model);
            assert(stays == survives(model, answer(present@, i as int)));
        }
        if stays {
            let place: usize = out.len();
            let ghost so_far = entries_model(out@);
            assert(so_far.len() == before.len());
            let placed = entry.rekey(ordinal_key(place));
            let ghost placed_model = placed@;
            out.push(placed);
            proof {
                let now = rekeyed(before.push(model));
                assert(entries_model(out@) =~= so_far.push(placed_model));
                assert(now.len() == so_far.len() + 1);
                assert forall|j: int| 0 <= j < now.len() implies now[j] == so_far.push(
                    placed_model,
                )[j] by {
                    if j < so_far.len() {
                        assert(so_far[j] == rekeyed(before)[j]);
                        assert(before.push(model)[j] == before[j]);
                    } else {
                        assert(before.push(model)[j] == model);
                    }
                }
                assert(entries_model(out@) =~= now);
            }
        }
        i = i + 1;
    }
    proof {
        assert(all.take(n as int) =~= all);
    }
    let changed: bool = out.len() != n;
    (out, changed)
}

/// Asks `exists_at` for the target of every entry that is not hidden, with
/// the pair of quotes around the target taken off. A hidden entry is not
/// asked for and counts as found.
pub fn find_targets<F: Fn(&[u8]) -> bool>(entries: &[ShortcutEntry], exists_at: &F) -> (present:
    Vec<bool>)
    requires
        forall|path: &[u8]| call_requires(*exists_at, (path,)),
    ensures
        answers_of(*exists_at, entries_model(entries@), present@),
        forall|i: int|
            0 <= i < entries.len() && (#[trigger] entries[i])@.is_hidden() ==> present[i],
{
    let mut present: Vec<bool> = Vec::new();
    let mut i: usize = 0;
    while i < entries.len()
        invariant
            i <= entries.len(),
            present.len() == i,
            forall|path: &[u8]| call_requires(*exists_at, (path,)),
            forall|j: int|
                0 <= j < i && !(#[trigger] entries[j])@.is_hidden() ==> asked(
                    *exists_at,
                    strip_pair(entries[j]@.exe_path(), QUOTE),
                    present[j],
                ),
            forall|j: int| 0 <= j < i && (#[trigger] entries[j])@.is_hidden() ==> present[j],
        decreases entries.len() - i,
    {
        let entry = &entries[i];
        let found: bool = if entry.is_hidden() {
            true
        } else {
            let path: &[u8] = unquote(entry.exe_path());
            let found: bool = exists_at(path);
            assert(asked(*exists_at, strip_pair(entry@.exe_path(), QUOTE), found));
            found
        };
        present.push(found);
        i = i + 1;
    }
    assert forall|i: int|
        0 <= i < entries.len() && !(#[trigger] entries_model(entries@)[i]).is_hidden() implies asked(
        *exists_at,
        strip_pair(entries_model(entries@)[i].exe_path(), QUOTE),
        present@[i],
    ) by {
        assert(entries_model(entries@)[i] == entries[i]@);
    }
    present
}

/// Reconciles a list of entries with the filesystem, which `exists_at`
/// stands for: asked for a path, it says whether something exists there.
///
/// A hidden entry stays and is not asked for. Another entry stays if
/// `exists_at` finds its target, asked without the pair of double quotes
/// around it. The entries that stay keep their order and their fields, and
/// each is stored under its new place. The flag says whether any entry was
/// dropped.
pub fn reconcile<F: Fn(&[u8]) -> bool>(entries: Vec<ShortcutEntry>, exists_at: F) -> (r: (
    Vec<ShortcutEntry>,
    bool,
))
    requires
        forall|path: &[u8]| call_requires(exists_at, (path,)),
    ensures
        exists|present: Seq<bool>|
            {
                &&& answers_of(exists_at, entries_model(entries@), present)
                &&& entries_model(r.0@) == #[trigger] reconcile_spec(
                    entries_model(entries@),
                    present,
                ).0
                &&& r.1 == reconcile_spec(entries_model(entries@), present).1
            },
        r.1 == (r.0.len() != entries.len()),
        all_storable(entries_model(entries@)) ==> all_storable(entries_model(r.0@)),
{
    let present: Vec<bool> = find_targets(entries.as_slice(), &exists_at);
    let ghost answers = present@;
    let r = reconcile_with(entries, present.as_slice());
    assert(entries_model(r.0@) == reconcile_spec(entries_model(entries@), answers).0);
    r
}

/// The place that the entry at place `i` has among the entries that stay:
/// the number of entries before it that stay.
pub open spec fn place_of(entries: Seq<EntryModel>, present: Seq<bool>, i: int) -> int {
    kept(entries.take(i), present).len() as int
}

/// The entries that stay out of the first `i` are the first of the entries
/// that stay out of all.
pub proof fn lemma_kept_prefix(entries: Seq<EntryModel>, present: Seq<bool>, i: int)
    requires
        0 <= i <= entries.len(),
    ensures
        place_of(entries, present, i) <= kept(entries, present).len(),
        place_of(entries, present, i) <= i,
        kept(entries.take(i), present) == kept(entries, present).take(
            place_of(entries, present, i),
        ),
    decreases entries.len(),
{
    if i == entries.len() {
        assert(entries.take(i) =~= entries);
        lemma_kept_length(entries, present);
        assert(kept(entries, present).take(kept(entries, present).len() as int) =~= kept(
            entries,
            present,
        ));
    } else {
        let shorter = entries.drop_last();
        lemma_kept_prefix(shorter, present, i);
        assert(shorter.take(i) =~= entries.take(i));
        let before = kept(shorter, present);
        let at = place_of(entries, present, i);
        assert(before.push(entries.last()).take(at) =~= before.take(at));
    }
}

/// No more entries stay than there are, and all stay only if each of them
/// survives.
pub proof fn lemma_kept_length(entries: Seq<EntryModel>, present: Seq<bool>)
    ensures
        kept(entries, present).len() <= entries.len(),
        kept(entries, present).len() == entries.len() <==> forall|i: int|
            0 <= i < entries.len() ==> survives(#[trigger] entries[i], answer(present, i)),
        kept(entries, present).len() == entries.len() ==> kept(entries, present) == entries,
    decreases entries.len(),
{
    if entries.len() > 0 {
        let shorter = entries.drop_last();
        lemma_kept_length(shorter, present);
        let last = entries.len() - 1;
        if kept(entries, present).len() == entries.len() {
            assert(survives(entries[last], answer(present, last)));
            assert(kept(shorter, present) == shorter);
            assert forall|i: int| 0 <= i < entries.len() implies survives(
                #[trigger] entries[i],
                answer(present, i),
            ) by {
                if i < last {
                    assert(shorter[i] == entries[i]);
                }
            }
            assert(kept(entries, present) =~= entries);
        }
        if forall|i: int|
            0 <= i < entries.len() ==> survives(#[trigger] entries[i], answer(present, i)) {
            assert forall|i: int| 0 <= i < shorter.len() implies survives(
                #[trigger] shorter[i],
                answer(present, i),
            ) by {
                assert(shorter[i] == entries[i]);
            }
            assert(survives(entries[last], answer(present, last)));
        }
    } else {
        assert(kept(entries, present) =~= entries);
    }
}

/// An entry that survives is found again after reconciliation: at the place
/// given by the number of surviving entries before it, with its fields as
/// they were, and stored under that place in decimal digits.
pub proof fn lemma_survivor_placed(entries: Seq<EntryModel>, present: Seq<bool>, i: int)
    requires
        0 <= i < entries.len(),
        survives(entries[i], answer(present, i)),
    ensures
        0 <= place_of(entries, present, i) < reconcile_spec(entries, present).0.len(),
        place_of(entries, present, i) <= i,
        kept(entries, present)[place_of(entries, present, i)] == entries[i],
        reconcile_spec(entries, present).0[place_of(entries, present, i)] == (EntryModel {
            index: decimal(place_of(entries, present, i) as nat),
            fields: entries[i].fields,
        }),
        reconcile_spec(entries, present).0[place_of(entries, present, i)].ordinal() == Some(
            place_of(entries, present, i) as nat,
        ),
{
    lemma_ordinal_of_decimal(place_of(entries, present, i) as nat);
    lemma_kept_prefix(entries, present, i);
    lemma_kept_prefix(entries, present, i + 1);
    let upto = entries.take(i + 1);
    assert(upto.drop_last() =~= entries.take(i));
    assert(upto.last() == entries[i]);
    let at = place_of(entries, present, i);
    assert(kept(upto, present) == kept(entries.take(i), present).push(entries[i]));
    assert(kept(upto, present)[at] == entries[i]);
    assert(kept(entries, present).take(place_of(entries, present, i + 1))[at] == entries[i]);
}

/// A hidden entry stays, whatever was found of its target.
pub proof fn lemma_hidden_stays(entries: Seq<EntryModel>, present: Seq<bool>, i: int)
    requires
        0 <= i < entries.len(),
        entries[i].is_hidden(),
    ensures
        0 <= place_of(entries, present, i) < reconcile_spec(entries, present).0.len(),
        reconcile_spec(entries, present).0[place_of(entries, present, i)].fields
            == entries[i].fields,
{
    lemma_survivor_placed(entries, present, i);
}

/// The entries that stay keep their order: of two that survive, the earlier
/// one gets the smaller place.
pub proof fn lemma_order_kept(entries: Seq<EntryModel>, present: Seq<bool>, i: int, j: int)
    requires
        0 <= i < j < entries.len(),
        survives(entries[i], answer(present, i)),
    ensures
        place_of(entries, present, i) < place_of(entries, present, j),
{
    lemma_kept_prefix(entries.take(j), present, i + 1);
    assert(entries.take(j).take(i + 1) =~= entries.take(i + 1));
    let upto = entries.take(i + 1);
    assert(upto.drop_last() =~= entries.take(i));
    assert(upto.last() == entries[i]);
}

/// Keying anew changes nothing in a list that is keyed by place already.
pub proof fn lemma_rekeyed_again(entries: Seq<EntryModel>)
    ensures
        rekeyed(rekeyed(entries)) == rekeyed(entries),
{
    assert(rekeyed(rekeyed(entries)) =~= rekeyed(entries));
}

/// Where every entry survives, nothing is dropped; and a list that is keyed
/// by place already comes back as it is, so that its encoded form is the
/// same as before.
pub proof fn lemma_settled(entries: Seq<EntryModel>, present: Seq<bool>, trailer: Seq<u8>)
    requires
        forall|i: int|
            0 <= i < entries.len() ==> survives(#[trigger] entries[i], answer(present, i)),
    ensures
        !reconcile_spec(entries, present).1,
        kept(entries, present) == entries,
        rekeyed(entries) == entries ==> reconcile_spec(entries, present).0 == entries,
        rekeyed(entries) == entries ==> encode_spec(reconcile_spec(entries, present).0, trailer)
            == encode_spec(entries, trailer),
{
    lemma_kept_length(entries, present);
}

/// Reconciling what was reconciled changes nothing, as long as every target
/// is still found.
pub proof fn lemma_reconcile_again(
    entries: Seq<EntryModel>,
    present: Seq<bool>,
    again: Seq<bool>,
)
    requires
        forall|i: int|
            0 <= i < reconcile_spec(entries, present).0.len() ==> survives(
                #[trigger] reconcile_spec(entries, present).0[i],
                answer(again, i),
            ),
    ensures
        reconcile_spec(reconcile_spec(entries, present).0, again) == (
            reconcile_spec(entries, present).0,
            false,
        ),
{
    let once = reconcile_spec(entries, present).0;
    lemma_kept_length(once, again);
    lemma_rekeyed_again(kept(entries, present));
}

/// The entries that stay out of storable entries are storable.
pub proof fn lemma_kept_storable(entries: Seq<EntryModel>, present: Seq<bool>)
    requires
        all_storable(entries),
    ensures
        all_storable(kept(entries, present)),
    decreases entries.len(),
{
    if entries.len() > 0 {
        let shorter = entries.drop_last();
        assert forall|i: int| 0 <= i < shorter.len() implies (#[trigger] shorter[i]).storable() by {
            assert(shorter[i] == entries[i]);
        }
        lemma_kept_storable(shorter, present);
        assert(entries.last().storable());
    }
}

/// What reconciliation leaves of storable entries can be written and read
/// back: the reading gives the same entries and the same trailer.
pub proof fn lemma_reconciled_round_trip(
    entries: Seq<EntryModel>,
    present: Seq<bool>,
    trailer: Seq<u8>,
)
    requires
        all_storable(entries),
    ensures
        all_storable(reconcile_spec(entries, present).0),
        decode_spec(encode_spec(reconcile_spec(entries, present).0, trailer)) == Ok::<
            (Seq<EntryModel>, Seq<u8>),
            MalformedInput,
        >((reconcile_spec(entries, present).0, trailer)),
{
    lemma_kept_storable(entries, present);
    let stay = kept(entries, present);
    let out = rekeyed(stay);
    assert forall|i: int| 0 <= i < out.len() implies (#[trigger] out[i]).storable() by {
        lemma_decimal_no_nul(i as nat);
        assert(stay[i].storable());
    }
    lemma_encode_then_decode(out, trailer);
}

/// Dropping an entry changes nothing in the bytes of an entry that stays but
/// its key: the fields are written as they were, known or not, and the key
/// is the new place in decimal digits. An entry that was stored under that
/// key before is written byte for byte as before.
pub proof fn lemma_survivor_bytes(entries: Seq<EntryModel>, present: Seq<bool>, i: int)
    requires
        0 <= i < entries.len(),
        survives(entries[i], answer(present, i)),
    ensures
        emit_entry(reconcile_spec(entries, present).0[place_of(entries, present, i)]) == seq![
            NESTED,
        ] + decimal(place_of(entries, present, i) as nat) + seq![0u8] + emit_fields(
            entries[i].fields,
        ) + seq![END],
        reconcile_spec(entries, present).0[place_of(entries, present, i)].exe_path()
            == entries[i].exe_path(),
        entries[i].index == decimal(place_of(entries, present, i) as nat) ==> emit_entry(
            reconcile_spec(entries, present).0[place_of(entries, present, i)],
        ) == emit_entry(entries[i]),
{
    lemma_survivor_placed(entries, present, i);
}

/// A record file whose entries are keyed by their places and all survive is,
/// reconciled and encoded, the same file byte for byte.
pub proof fn lemma_settled_file(bytes: Seq<u8>, present: Seq<bool>)
    requires
        decode_spec(bytes) is Ok,
        rekeyed(decode_spec(bytes).unwrap().0) == decode_spec(bytes).unwrap().0,
        forall|i: int|
            0 <= i < decode_spec(bytes).unwrap().0.len() ==> survives(
                #[trigger] decode_spec(bytes).unwrap().0[i],
                answer(present, i),
            ),
    ensures
        !reconcile_spec(decode_spec(bytes).unwrap().0, present).1,
        encode_spec(
            reconcile_spec(decode_spec(bytes).unwrap().0, present).0,
            decode_spec(bytes).unwrap().1,
        ) == bytes,
{
    let (entries, trailer) = decode_spec(bytes).unwrap();
    lemma_settled(entries, present, trailer);
    lemma_decode_then_encode(bytes);
}

} // verus!
