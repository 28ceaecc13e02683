//! The in-memory form of one shortcut record.
//!
//! An entry keeps every field that the file holds for it, in file order and
//! with the key as the file spells it. The fields that a reader cares about
//! are found among them by name, without regard to ASCII case; the others are
//! carried along untouched. Nothing is lost between reading a file and writing
//! it back.

use crate::keys::{
    body_of, key_is, number_of, ordinal_of, parse_ordinal, position, tag_of, text_of, texts_at,
};
use crate::scan::{copy_range, scan_span};
use crate::wire::{EntryModel, FieldModel, ValueModel, INT32, NESTED, STRING};
use vstd::prelude::*;

verus! {

/// The value of a field.
#[derive(Clone, Debug, PartialEq, Eq)]
pub enum Value {
    Text(Vec<u8>),
    Int(i32),
    /// The children of a nested field in their encoded form, without the tag
    /// that closes them.
    Nested(Vec<u8>),
}

impl View for Value {
    type V = ValueModel;

    open spec fn view(&self) -> ValueModel {
        match self {
            Value::Text(v) => ValueModel::Text(v@),
            Value::Int(n) => ValueModel::Int(*n),
            Value::Nested(body) => ValueModel::Nested(body@),
        }
    }
}

/// One field of an entry: its key without the terminating NUL, and its
/// value.
#[derive(Clone, Debug, PartialEq, Eq)]
pub struct Field {
    pub key: Vec<u8>,
    pub value: Value,
}

impl View for Field {
    type V = FieldModel;

    open spec fn view(&self) -> FieldModel {
        FieldModel { key: self.key@, value: self.value@ }
    }
}

/// The models of a run of fields.
pub open spec fn fields_model(fields: Seq<Field>) -> Seq<FieldModel> {
    fields.map_values(|f: Field| f@)
}

/// One shortcut record.
#[derive(Clone, Debug, PartialEq, Eq)]
pub struct ShortcutEntry {
    index: Vec<u8>,
    fields: Vec<Field>,
}

impl View for ShortcutEntry {
    type V = EntryModel;

    closed spec fn view(&self) -> EntryModel {
        EntryModel { index: self.index@, fields: fields_model(self.fields@) }
    }
}

/// The models of a list of byte strings.
pub open spec fn texts_model(texts: Seq<Vec<u8>>) -> Seq<Seq<u8>> {
    texts.map_values(|t: Vec<u8>| t@)
}

/// The models of a list of entries.
pub open spec fn entries_model(entries: Seq<ShortcutEntry>) -> Seq<EntryModel> {
    entries.map_values(|e: ShortcutEntry| e@)
}

impl ShortcutEntry {
    /// The entry stored under the key `index` with the given fields.
    pub(crate) fn from_parts(index: Vec<u8>, fields: Vec<Field>) -> (e: ShortcutEntry)
        ensures
            e@ == (EntryModel { index: index@, fields: fields_model(fields@) }),
    {
        ShortcutEntry { index, fields }
    }

    /// The same entry, stored under the key `index`.
    pub(crate) fn rekey(self, index: Vec<u8>) -> (e: ShortcutEntry)
        ensures
            e@ == (EntryModel { index: index@, fields: self@.fields }),
    {
        ShortcutEntry { index, fields: self.fields }
    }

    /// The fields of the entry in file order.
    pub(crate) fn fields(&self) -> (f: &Vec<Field>)
        ensures
            fields_model(f@) == self@.fields,
    {
        &self.fields
    }
}

/// What an entry says of the shortcut. Each value is that of the first field
/// with the fitting tag whose key spells the name, in any case; a field that
/// is absent reads as the empty string, as zero or as no tags. The target and
/// the icon are stored under the keys `Exe` and `icon`, and are found under
/// `ExePath` and `IconPath` as well.
impl EntryModel {
    /// The place in the list that the key of the entry spells, if it spells
    /// one.
    pub open spec fn ordinal(self) -> Option<nat> {
        ordinal_of(self.index)
    }

    pub open spec fn app_name(self) -> Seq<u8> {
        text_of(self.fields, "AppName", "AppName")
    }

    /// The target executable, as stored: a pair of double quotes around it
    /// is part of the value.
    pub open spec fn exe_path(self) -> Seq<u8> {
        text_of(self.fields, "Exe", "ExePath")
    }

    pub open spec fn start_dir(self) -> Seq<u8> {
        text_of(self.fields, "StartDir", "StartDir")
    }

    pub open spec fn icon_path(self) -> Seq<u8> {
        text_of(self.fields, "icon", "IconPath")
    }

    pub open spec fn shortcut_path(self) -> Seq<u8> {
        text_of(self.fields, "ShortcutPath", "ShortcutPath")
    }

    pub open spec fn launch_options(self) -> Seq<u8> {
        text_of(self.fields, "LaunchOptions", "LaunchOptions")
    }

    pub open spec fn is_hidden(self) -> bool {
        number_of(self.fields, "IsHidden", "IsHidden") != 0
    }

    pub open spec fn allow_desktop_config(self) -> bool {
        number_of(self.fields, "AllowDesktopConfig", "AllowDesktopConfig") != 0
    }

    pub open spec fn allow_overlay(self) -> bool {
        number_of(self.fields, "AllowOverlay", "AllowOverlay") != 0
    }

    pub open spec fn open_vr(self) -> bool {
        number_of(self.fields, "OpenVR", "OpenVR") != 0
    }

    pub open spec fn devkit(self) -> bool {
        number_of(self.fields, "Devkit", "Devkit") != 0
    }

    pub open spec fn devkit_game_id(self) -> Seq<u8> {
        text_of(self.fields, "DevkitGameID", "DevkitGameID")
    }

    pub open spec fn devkit_override_app_id(self) -> i32 {
        number_of(self.fields, "DevkitOverrideAppID", "DevkitOverrideAppID")
    }

    pub open spec fn last_play_time(self) -> i32 {
        number_of(self.fields, "LastPlayTime", "LastPlayTime")
    }

    pub open spec fn flatpak_app_id(self) -> Seq<u8> {
        text_of(self.fields, "FlatpakAppID", "FlatpakAppID")
    }

    /// The tags in file order: the texts of the string fields at the front
    /// of the nested field `tags`.
    pub open spec fn tags(self) -> Seq<Seq<u8>> {
        texts_at(body_of(self.fields, "tags", "tags"), 0)
    }
}

/// The empty byte string.
fn no_bytes() -> (r: &'static [u8])
    ensures
        r@ == Seq::<u8>::empty(),
{
    let r: &'static [u8] = &[];
    assert(r@ =~= Seq::<u8>::empty());
    r
}

/// The tag under which a value is written.
fn tag_for(value: &Value) -> (tag: u8)
    ensures
        tag == tag_of(value@),
{
    match value {
        Value::Text(_) => STRING,
        Value::Int(_) => INT32,
        Value::Nested(_) => NESTED,
    }
}

/// The place of the first field that is written under `tag` and whose key
/// spells `name` or `alias`; the number of fields where there is none.
fn find(fields: &Vec<Field>, tag: u8, name: &str, alias: &str) -> (i: usize)
    ensures
        i == position(fields_model(fields@), tag, name, alias, 0),
        i <= fields.len(),
        i < fields.len() ==> tag_of(fields@[i as int]@.value) == tag,
{
    let mut i: usize = 0;
    while i < fields.len()
        invariant
            i <= fields.len(),
            position(fields_model(fields@), tag, name, alias, 0) == position(
                fields_model(fields@),
                tag,
                name,
                alias,
                i as int,
            ),
        decreases fields.len() - i,
    {
        let f = &fields[i];
        assert(fields_model(fields@)[i as int] == f@);
        if tag_for(&f.value) == tag && (key_is(f.key.as_slice(), name) || key_is(
            f.key.as_slice(),
            alias,
        )) {
            return i;
        }
        i = i + 1;
    }
    i
}

/// The texts of the string fields at the front of `body`.
fn read_texts(body: &[u8]) -> (out: Vec<Vec<u8>>)
    ensures
        texts_model(out@) == texts_at(body@, 0),
{
    let n: usize = body.len();
    let mut out: Vec<Vec<u8>> = Vec::new();
    let mut pos: usize = 0;
    proof {
        assert(texts_model(out@) =~= Seq::<Seq<u8>>::empty());
        assert(Seq::<Seq<u8>>::empty() + texts_at(body@, 0) =~= texts_at(body@, 0));
    }
    loop
        invariant
            n == body.len(),
            pos <= n,
            texts_at(body@, 0) == texts_model(out@) + texts_at(body@, pos as int),
        decreases n - pos,
    {
        if pos >= n || body[pos] != STRING {
            assert(texts_model(out@) + Seq::<Seq<u8>>::empty() =~= texts_model(out@));
            return out;
        }
        let k: usize = scan_span(body, pos + 1);
        if k >= n {
            assert(texts_model(out@) + Seq::<Seq<u8>>::empty() =~= texts_model(out@));
            return out;
        }
        let v: usize = scan_span(body, k + 1);
        if v >= n {
            assert(texts_model(out@) + Seq::<Seq<u8>>::empty() =~= texts_model(out@));
            return out;
        }
        let text: Vec<u8> = copy_range(body, k + 1, v);
        let ghost before = texts_model(out@);
        out.push(text);
        proof {
            let one = body@.subrange(k + 1, v as int);
            assert(texts_model(out@) =~= before.push(one));
            assert(before + (seq![one] + texts_at(body@, v + 1)) =~= before.push(one) + texts_at(
                body@,
                v + 1,
            ));
        }
        pos = v + 1;
    }
}

impl ShortcutEntry {
    /// The text of the first string field named `name` or `alias`.
    fn text(&self, name: &str, alias: &str) -> (r: &[u8])
        ensures
            r@ == text_of(self@.fields, name, alias),
    {
        let i: usize = find(&self.fields, STRING, name, alias);
        if i < self.fields.len() {
            assert(fields_model(self.fields@)[i as int] == self.fields@[i as int]@);
            match &self.fields[i].value {
                Value::Text(v) => v.as_slice(),
                _ => no_bytes(),
            }
        } else {
            no_bytes()
        }
    }

    /// The number of the first integer field named `name` or `alias`.
    fn number(&self, name: &str, alias: &str) -> (r: i32)
        ensures
            r == number_of(self@.fields, name, alias),
    {
        let i: usize = find(&self.fields, INT32, name, alias);
        if i < self.fields.len() {
            assert(fields_model(self.fields@)[i as int] == self.fields@[i as int]@);
            match &self.fields[i].value {
                Value::Int(n) => *n,
                _ => 0,
            }
        } else {
            0
        }
    }

    /// The encoded children of the first nested field named `name` or
    /// `alias`.
    fn body(&self, name: &str, alias: &str) -> (r: &[u8])
        ensures
            r@ == body_of(self@.fields, name, alias),
    {
        let i: usize = find(&self.fields, NESTED, name, alias);
        if i < self.fields.len() {
            assert(fields_model(self.fields@)[i as int] == self.fields@[i as int]@);
            match &self.fields[i].value {
                Value::Nested(body) => body.as_slice(),
                _ => no_bytes(),
            }
        } else {
            no_bytes()
        }
    }

    /// The key that the entry is stored under: its place in the list, in
    /// decimal digits, once the list has been reconciled.
    pub fn index(&self) -> (r: &[u8])
        ensures
            r@ == self@.index,
    {
        self.index.as_slice()
    }

    /// The place in the list that the key spells, if it is the decimal form
    /// of a number that fits the machine's word.
    pub fn ordinal(&self) -> (r: Option<usize>)
        ensures
            r == match self@.ordinal() {
                Some(n) => if n <= usize::MAX {
                    Some(n as usize)
                } else {
                    None
                },
                None => None,
            },
    {
        parse_ordinal(self.index.as_slice())
    }

    /// The display name.
    pub fn app_name(&self) -> (r: &[u8])
        ensures
            r@ == self@.app_name(),
    {
        self.text("AppName", "AppName")
    }

    /// The target executable as stored, with the double quotes around it if
    /// the file has them.
    pub fn exe_path(&self) -> (r: &[u8])
        ensures
            r@ == self@.exe_path(),
    {
        self.text("Exe", "ExePath")
    }

    /// The working directory.
    pub fn start_dir(&self) -> (r: &[u8])
        ensures
            r@ == self@.start_dir(),
    {
        self.text("StartDir", "StartDir")
    }

    /// The path of the icon.
    pub fn icon_path(&self) -> (r: &[u8])
        ensures
            r@ == self@.icon_path(),
    {
        self.text("icon", "IconPath")
    }

    /// The path of the shortcut itself.
    pub fn shortcut_path(&self) -> (r: &[u8])
        ensures
            r@ == self@.shortcut_path(),
    {
        self.text("ShortcutPath", "ShortcutPath")
    }

    /// The options passed to the executable.
    pub fn launch_options(&self) -> (r: &[u8])
        ensures
            r@ == self@.launch_options(),
    {
        self.text("LaunchOptions", "LaunchOptions")
    }

    /// Whether the shortcut is hidden. A hidden shortcut is never dropped.
    pub fn is_hidden(&self) -> (r: bool)
        ensures
            r == self@.is_hidden(),
    {
        self.number("IsHidden", "IsHidden") != 0
    }

    pub fn allow_desktop_config(&self) -> (r: bool)
        ensures
            r == self@.allow_desktop_config(),
    {
        self.number("AllowDesktopConfig", "AllowDesktopConfig") != 0
    }

    pub fn allow_overlay(&self) -> (r: bool)
        ensures
            r == self@.allow_overlay(),
    {
        self.number("AllowOverlay", "AllowOverlay") != 0
    }

    pub fn open_vr(&self) -> (r: bool)
        ensures
            r == self@.open_vr(),
    {
        self.number("OpenVR", "OpenVR") != 0
    }

    pub fn devkit(&self) -> (r: bool)
        ensures
            r == self@.devkit(),
    {
        self.number("Devkit", "Devkit") != 0
    }

    pub fn devkit_game_id(&self) -> (r: &[u8])
        ensures
            r@ == self@.devkit_game_id(),
    {
        self.text("DevkitGameID", "DevkitGameID")
    }

    pub fn devkit_override_app_id(&self) -> (r: i32)
        ensures
            r == self@.devkit_override_app_id(),
    {
        self.number("DevkitOverrideAppID", "DevkitOverrideAppID")
    }

    /// The time of the last launch, as the file holds it.
    pub fn last_play_time(&self) -> (r: i32)
        ensures
            r == self@.last_play_time(),
    {
        self.number("LastPlayTime", "LastPlayTime")
    }

    pub fn flatpak_app_id(&self) -> (r: &[u8])
        ensures
            r@ == self@.flatpak_app_id(),
    {
        self.text("FlatpakAppID", "FlatpakAppID")
    }

    /// The tags in file order.
    pub fn tags(&self) -> (r: Vec<Vec<u8>>)
        ensures
            texts_model(r@) == self@.tags(),
    {
        read_texts(self.body("tags", "tags"))
    }
}

} // verus!
