//! Entries made from values: the layout that a new entry is given.

use crate::entry::{fields_model, texts_model, Field, ShortcutEntry, Value};
use crate::keys::{
    decimal, lemma_decimal_no_nul, named, ordinal_key, position, push_decimal, tag_of, texts_at,
};
use crate::laws::lemma_span_exact;
use crate::wire::{
    closed_body, no_nul, scope_end, EntryModel, FieldModel, MalformedInput, ValueModel, END,
    INT32, NESTED, STRING,
};
use vstd::prelude::*;
use vstd::string::StringSliceAdditionalSpecFns;

verus! {

/// A string field under the key `name`.
pub open spec fn text_field(name: &str, value: Seq<u8>) -> FieldModel {
    FieldModel { key: name.spec_bytes(), value: ValueModel::Text(value) }
}

/// An integer field under the key `name`.
pub open spec fn int_field(name: &str, value: i32) -> FieldModel {
    FieldModel { key: name.spec_bytes(), value: ValueModel::Int(value) }
}

/// A flag under the key `name`: the integer one if it is set, zero if not.
pub open spec fn flag_field(name: &str, value: bool) -> FieldModel {
    int_field(
        name,
        if value {
            1i32
        } else {
            0i32
        },
    )
}

/// The encoded form of the tags from place `from` on: each a string field
/// keyed by its place in decimal digits.
pub open spec fn tag_run(tags: Seq<Seq<u8>>, from: int) -> Seq<u8>
    decreases tags.len() - from,
{
    if from < 0 || from >= tags.len() {
        Seq::empty()
    } else {
        seq![STRING] + decimal(from as nat) + seq![0u8] + tags[from] + seq![0u8] + tag_run(
            tags,
            from + 1,
        )
    }
}

/// The fields of an entry made from values, in the order and under the keys
/// in which the format's own writer puts them.
pub open spec fn canonical_fields(
    app_name: Seq<u8>,
    exe_path: Seq<u8>,
    start_dir: Seq<u8>,
    icon_path: Seq<u8>,
    shortcut_path: Seq<u8>,
    launch_options: Seq<u8>,
    is_hidden: bool,
    allow_desktop_config: bool,
    allow_overlay: bool,
    open_vr: bool,
    devkit: bool,
    devkit_game_id: Seq<u8>,
    devkit_override_app_id: i32,
    last_play_time: i32,
    flatpak_app_id: Seq<u8>,
    tags: Seq<Seq<u8>>,
) -> Seq<FieldModel> {
    seq![
        text_field("AppName", app_name),
        text_field("Exe", exe_path),
        text_field("StartDir", start_dir),
        text_field("icon", icon_path),
        text_field("ShortcutPath", shortcut_path),
        text_field("LaunchOptions", launch_options),
        flag_field("IsHidden", is_hidden),
        flag_field("AllowDesktopConfig", allow_desktop_config),
        flag_field("AllowOverlay", allow_overlay),
        flag_field("OpenVR", open_vr),
        flag_field("Devkit", devkit),
        text_field("DevkitGameID", devkit_game_id),
        int_field("DevkitOverrideAppID", devkit_override_app_id),
        int_field("LastPlayTime", last_play_time),
        text_field("FlatpakAppID", flatpak_app_id),
        FieldModel { key: "tags".spec_bytes(), value: ValueModel::Nested(tag_run(tags, 0)) },
    ]
}

fn make_text(name: &str, value: &[u8]) -> (f: Field)
    ensures
        f@ == text_field(name, value@),
{
    Field { key: name.as_bytes_vec(), value: Value::Text(vstd::slice::slice_to_vec(value)) }
}

fn make_int(name: &str, value: i32) -> (f: Field)
    ensures
        f@ == int_field(name, value),
{
    Field { key: name.as_bytes_vec(), value: Value::Int(value) }
}

fn make_flag(name: &str, value: bool) -> (f: Field)
    ensures
        f@ == flag_field(name, value),
{
    make_int(
        name,
        if value {
            1
        } else {
            0
        },
    )
}

/// The tags as a nested field.
fn make_tags(tags: &[Vec<u8>]) -> (f: Field)
    ensures
        f@ == (FieldModel {
            key: "tags".spec_bytes(),
            value: ValueModel::Nested(tag_run(texts_model(tags@), 0)),
        }),
{
    let ghost all = texts_model(tags@);
    let mut body: Vec<u8> = Vec::new();
    let mut i: usize = 0;
    assert(body@ + tag_run(all, 0) =~= tag_run(all, 0));
    while i < tags.len()
        invariant
            i <= tags.len(),
            all == texts_model(tags@),
            body@ + tag_run(all, i as int) == tag_run(all, 0),
        decreases tags.len() - i,
    {
        let ghost before = body@;
        body.push(STRING);
        push_decimal(&mut body, i);
        body.push(0);
        body.extend_from_slice(tags[i].as_slice());
        body.push(0);
        proof {
            assert(all[i as int] == tags@[i as int]@);
            assert(body@ + tag_run(all, i + 1) =~= before + tag_run(all, i as int));
        }
        i = i + 1;
    }
    assert(body@ =~= tag_run(all, 0));
    Field { key: "tags".as_bytes_vec(), value: Value::Nested(body) }
}

impl ShortcutEntry {
    /// An entry at place `index` with the given values, laid out as
    /// [`canonical_fields`] says. No value is checked.
    pub fn new(
        index: usize,
        app_name: &[u8],
        exe_path: &[u8],
        start_dir: &[u8],
        icon_path: &[u8],
        shortcut_path: &[u8],
        launch_options: &[u8],
        is_hidden: bool,
        allow_desktop_config: bool,
        allow_overlay: bool,
        open_vr: bool,
        devkit: bool,
        devkit_game_id: &[u8],
        devkit_override_app_id: i32,
        last_play_time: i32,
        flatpak_app_id: &[u8],
        tags: &[Vec<u8>],
    ) -> (e: ShortcutEntry)
        ensures
            e@ == (EntryModel {
                index: decimal(index as nat),
                fields: canonical_fields(
                    app_name@,
                    exe_path@,
                    start_dir@,
                    icon_path@,
                    shortcut_path@,
                    launch_options@,
                    is_hidden,
                    allow_desktop_config,
                    allow_overlay,
                    open_vr,
                    devkit,
                    devkit_game_id@,
                    devkit_override_app_id,
                    last_play_time,
                    flatpak_app_id@,
                    texts_model(tags@),
                ),
            }),
            e@.app_name() == app_name@,
            e@.exe_path() == exe_path@,
            e@.start_dir() == start_dir@,
            e@.icon_path() == icon_path@,
            e@.shortcut_path() == shortcut_path@,
            e@.launch_options() == launch_options@,
            e@.is_hidden() == is_hidden,
            e@.allow_desktop_config() == allow_desktop_config,
            e@.allow_overlay() == allow_overlay,
            e@.open_vr() == open_vr,
            e@.devkit() == devkit,
            e@.devkit_game_id() == devkit_game_id@,
            e@.devkit_override_app_id() == devkit_override_app_id,
            e@.last_play_time() == last_play_time,
            e@.flatpak_app_id() == flatpak_app_id@,
            (forall|i: int| 0 <= i < tags.len() ==> no_nul(#[trigger] tags[i]@)) ==> e@.tags()
                == texts_model(tags@),
            no_nul(app_name@) && no_nul(exe_path@) && no_nul(start_dir@) && no_nul(icon_path@)
                && no_nul(shortcut_path@) && no_nul(launch_options@) && no_nul(devkit_game_id@)
                && no_nul(flatpak_app_id@) && (forall|i: int|
                0 <= i < tags.len() ==> no_nul(#[trigger] tags[i]@)) ==> e@.storable(),
    {
        proof {
            if no_nul(app_name@) && no_nul(exe_path@) && no_nul(start_dir@) && no_nul(icon_path@)
                && no_nul(shortcut_path@) && no_nul(launch_options@) && no_nul(devkit_game_id@)
                && no_nul(flatpak_app_id@) && (forall|i: int|
                0 <= i < tags.len() ==> no_nul(#[trigger] tags[i]@)) {
                assert forall|i: int| 0 <= i < texts_model(tags@).len() implies no_nul(
                    #[trigger] texts_model(tags@)[i],
                ) by {
                    assert(texts_model(tags@)[i] == tags[i]@);
                }
                lemma_decimal_no_nul(index as nat);
                lemma_canonical_storable(
                    decimal(index as nat),
                    app_name@,
                    exe_path@,
                    start_dir@,
                    icon_path@,
                    shortcut_path@,
                    launch_options@,
                    is_hidden,
                    allow_desktop_config,
                    allow_overlay,
                    open_vr,
                    devkit,
                    devkit_game_id@,
                    devkit_override_app_id,
                    last_play_time,
                    flatpak_app_id@,
                    texts_model(tags@),
                );
            }
        }
        proof {
            lemma_canonical_values(
                decimal(index as nat),
                app_name@,
                exe_path@,
                start_dir@,
                icon_path@,
                shortcut_path@,
                launch_options@,
                is_hidden,
                allow_desktop_config,
                allow_overlay,
                open_vr,
                devkit,
                devkit_game_id@,
                devkit_override_app_id,
                last_play_time,
                flatpak_app_id@,
                texts_model(tags@),
            );
            if forall|i: int| 0 <= i < tags.len() ==> no_nul(#[trigger] tags[i]@) {
                assert forall|i: int| 0 <= i < texts_model(tags@).len() implies no_nul(
                    #[trigger] texts_model(tags@)[i],
                ) by {
                    assert(texts_model(tags@)[i] == tags[i]@);
                }
            }
        }
        let mut fields: Vec<Field> = Vec::new();
        fields.push(make_text("AppName", app_name));
        fields.push(make_text("Exe", exe_path));
        fields.push(make_text("StartDir", start_dir));
        fields.push(make_text("icon", icon_path));
        fields.push(make_text("ShortcutPath", shortcut_path));
        fields.push(make_text("LaunchOptions", launch_options));
        fields.push(make_flag("IsHidden", is_hidden));
        fields.push(make_flag("AllowDesktopConfig", allow_desktop_config));
        fields.push(make_flag("AllowOverlay", allow_overlay));
        fields.push(make_flag("OpenVR", open_vr));
        fields.push(make_flag("Devkit", devkit));
        fields.push(make_text("DevkitGameID", devkit_game_id));
        fields.push(make_int("DevkitOverrideAppID", devkit_override_app_id));
        fields.push(make_int("LastPlayTime", last_play_time));
        fields.push(make_text("FlatpakAppID", flatpak_app_id));
        fields.push(make_tags(tags));
        assert(fields_model(fields@) =~= canonical_fields(
            app_name@,
            exe_path@,
            start_dir@,
            icon_path@,
            shortcut_path@,
            launch_options@,
            is_hidden,
            allow_desktop_config,
            allow_overlay,
            open_vr,
            devkit,
            devkit_game_id@,
            devkit_override_app_id,
            last_play_time,
            flatpak_app_id@,
            texts_model(tags@),
        ));
        ShortcutEntry::from_parts(ordinal_key(index), fields)
    }
}

/// The field at place `j` is the one that is found if it fits and no field
/// before it does.
proof fn lemma_found_at(
    fields: Seq<FieldModel>,
    tag: u8,
    name: &str,
    alias: &str,
    j: int,
    from: int,
)
    requires
        0 <= from <= j < fields.len(),
        forall|i: int|
            0 <= i < j ==> !(tag_of((#[trigger] fields[i]).value) == tag && named(
                fields[i].key,
                name,
                alias,
            )),
        tag_of(fields[j].value) == tag,
        named(fields[j].key, name, alias),
    ensures
        position(fields, tag, name, alias, from) == j,
    decreases j - from,
{
    if from < j {
        lemma_found_at(fields, tag, name, alias, j, from + 1);
    }
}

/// The lengths and the first letters of the keys of the known fields.
#[verifier::rlimit(50)]
proof fn lemma_known_keys()
    ensures
        "AppName".spec_bytes().len() == 7 && "AppName".spec_bytes()[0] == 0x41,
        "Exe".spec_bytes().len() == 3,
        "ExePath".spec_bytes().len() == 7 && "ExePath".spec_bytes()[0] == 0x45,
        "StartDir".spec_bytes().len() == 8 && "StartDir".spec_bytes()[0] == 0x53,
        "icon".spec_bytes().len() == 4,
        "IconPath".spec_bytes().len() == 8 && "IconPath".spec_bytes()[0] == 0x49,
        "ShortcutPath".spec_bytes().len() == 12 && "ShortcutPath".spec_bytes()[0] == 0x53,
        "LaunchOptions".spec_bytes().len() == 13,
        "IsHidden".spec_bytes().len() == 8,
        "AllowDesktopConfig".spec_bytes().len() == 18,
        "AllowOverlay".spec_bytes().len() == 12 && "AllowOverlay".spec_bytes()[0] == 0x41,
        "OpenVR".spec_bytes().len() == 6 && "OpenVR".spec_bytes()[0] == 0x4f,
        "Devkit".spec_bytes().len() == 6 && "Devkit".spec_bytes()[0] == 0x44,
        "DevkitGameID".spec_bytes().len() == 12 && "DevkitGameID".spec_bytes()[0] == 0x44,
        "DevkitOverrideAppID".spec_bytes().len() == 19,
        "LastPlayTime".spec_bytes().len() == 12 && "LastPlayTime".spec_bytes()[0] == 0x4c,
        "FlatpakAppID".spec_bytes().len() == 12 && "FlatpakAppID".spec_bytes()[0] == 0x46,
        "tags".spec_bytes().len() == 4,
{
    broadcast use vstd::string::is_ascii_spec_bytes;

    reveal_strlit("AppName");
    reveal_strlit("Exe");
    reveal_strlit("ExePath");
    reveal_strlit("StartDir");
    reveal_strlit("icon");
    reveal_strlit("IconPath");
    reveal_strlit("ShortcutPath");
    reveal_strlit("LaunchOptions");
    reveal_strlit("IsHidden");
    reveal_strlit("AllowDesktopConfig");
    reveal_strlit("AllowOverlay");
    reveal_strlit("OpenVR");
    reveal_strlit("Devkit");
    reveal_strlit("DevkitGameID");
    reveal_strlit("DevkitOverrideAppID");
    reveal_strlit("LastPlayTime");
    reveal_strlit("FlatpakAppID");
    reveal_strlit("tags");
    assert(vstd::string::is_ascii("AppName"));
    assert(vstd::string::is_ascii("Exe"));
    assert(vstd::string::is_ascii("ExePath"));
    assert(vstd::string::is_ascii("StartDir"));
    assert(vstd::string::is_ascii("icon"));
    assert(vstd::string::is_ascii("IconPath"));
    assert(vstd::string::is_ascii("ShortcutPath"));
    assert(vstd::string::is_ascii("LaunchOptions"));
    assert(vstd::string::is_ascii("IsHidden"));
    assert(vstd::string::is_ascii("AllowDesktopConfig"));
    assert(vstd::string::is_ascii("AllowOverlay"));
    assert(vstd::string::is_ascii("OpenVR"));
    assert(vstd::string::is_ascii("Devkit"));
    assert(vstd::string::is_ascii("DevkitGameID"));
    assert(vstd::string::is_ascii("DevkitOverrideAppID"));
    assert(vstd::string::is_ascii("LastPlayTime"));
    assert(vstd::string::is_ascii("FlatpakAppID"));
    assert(vstd::string::is_ascii("tags"));
}

/// The key of the field at place `i` of a new entry.
spec fn canonical_key(i: int) -> Seq<u8> {
    if i == 0 {
        "AppName".spec_bytes()
    } else if i == 1 {
        "Exe".spec_bytes()
    } else if i == 2 {
        "StartDir".spec_bytes()
    } else if i == 3 {
        "icon".spec_bytes()
    } else if i == 4 {
        "ShortcutPath".spec_bytes()
    } else if i == 5 {
        "LaunchOptions".spec_bytes()
    } else if i == 6 {
        "IsHidden".spec_bytes()
    } else if i == 7 {
        "AllowDesktopConfig".spec_bytes()
    } else if i == 8 {
        "AllowOverlay".spec_bytes()
    } else if i == 9 {
        "OpenVR".spec_bytes()
    } else if i == 10 {
        "Devkit".spec_bytes()
    } else if i == 11 {
        "DevkitGameID".spec_bytes()
    } else if i == 12 {
        "DevkitOverrideAppID".spec_bytes()
    } else if i == 13 {
        "LastPlayTime".spec_bytes()
    } else if i == 14 {
        "FlatpakAppID".spec_bytes()
    } else {
        "tags".spec_bytes()
    }
}

/// The tag of the field at place `i` of a new entry.
spec fn canonical_tag(i: int) -> u8 {
    if i <= 5 || i == 11 || i == 14 {
        STRING
    } else if i == 15 {
        NESTED
    } else {
        INT32
    }
}

/// Whether a run of fields has the keys and tags of a new entry.
spec fn laid_out(fields: Seq<FieldModel>) -> bool {
    &&& fields.len() == 16
    &&& forall|i: int|
        0 <= i < 16 ==> (#[trigger] fields[i]).key == canonical_key(i) && tag_of(fields[i].value)
            == canonical_tag(i)
}

/// A key spells itself.
proof fn lemma_named_itself(name: &str, alias: &str)
    ensures
        named(name.spec_bytes(), name, alias),
{
}

/// In a run of fields, the one at place `j` is found under a name if it has
/// the tag and spells the name and none before it does.
proof fn lemma_found(fields: Seq<FieldModel>, tag: u8, name: &str, alias: &str, j: int)
    requires
        0 <= j < fields.len(),
        forall|i: int|
            0 <= i < j ==> tag_of((#[trigger] fields[i]).value) != tag || !named(
                fields[i].key,
                name,
                alias,
            ),
        tag_of(fields[j].value) == tag,
        named(fields[j].key, name, alias),
    ensures
        position(fields, tag, name, alias, 0) == j,
{
    lemma_found_at(fields, tag, name, alias, j, 0);
}

/// Where the string fields of a new entry are found.
#[verifier::rlimit(50)]
proof fn lemma_text_places(fields: Seq<FieldModel>)
    requires
        laid_out(fields),
    ensures
        position(fields, STRING, "AppName", "AppName", 0) == 0,
        position(fields, STRING, "Exe", "ExePath", 0) == 1,
        position(fields, STRING, "StartDir", "StartDir", 0) == 2,
        position(fields, STRING, "icon", "IconPath", 0) == 3,
        position(fields, STRING, "ShortcutPath", "ShortcutPath", 0) == 4,
        position(fields, STRING, "LaunchOptions", "LaunchOptions", 0) == 5,
        position(fields, STRING, "DevkitGameID", "DevkitGameID", 0) == 11,
        position(fields, STRING, "FlatpakAppID", "FlatpakAppID", 0) == 14,
{
    lemma_known_keys();
    lemma_named_itself("AppName", "AppName");
    lemma_named_itself("Exe", "ExePath");
    lemma_named_itself("StartDir", "StartDir");
    lemma_named_itself("icon", "IconPath");
    lemma_named_itself("ShortcutPath", "ShortcutPath");
    lemma_named_itself("LaunchOptions", "LaunchOptions");
    lemma_named_itself("DevkitGameID", "DevkitGameID");
    lemma_named_itself("FlatpakAppID", "FlatpakAppID");
    assert(position(fields, STRING, "AppName", "AppName", 0) == 0) by {
        lemma_found(fields, STRING, "AppName", "AppName", 0);
    }
    assert(position(fields, STRING, "Exe", "ExePath", 0) == 1) by {
        lemma_found(fields, STRING, "Exe", "ExePath", 1);
    }
    assert(position(fields, STRING, "StartDir", "StartDir", 0) == 2) by {
        lemma_found(fields, STRING, "StartDir", "StartDir", 2);
    }
    assert(position(fields, STRING, "icon", "IconPath", 0) == 3) by {
        lemma_found(fields, STRING, "icon", "IconPath", 3);
    }
    assert(position(fields, STRING, "ShortcutPath", "ShortcutPath", 0) == 4) by {
        lemma_found(fields, STRING, "ShortcutPath", "ShortcutPath", 4);
    }
    assert(position(fields, STRING, "LaunchOptions", "LaunchOptions", 0) == 5) by {
        lemma_found(fields, STRING, "LaunchOptions", "LaunchOptions", 5);
    }
    assert(position(fields, STRING, "DevkitGameID", "DevkitGameID", 0) == 11) by {
        lemma_found(fields, STRING, "DevkitGameID", "DevkitGameID", 11);
    }
    assert(position(fields, STRING, "FlatpakAppID", "FlatpakAppID", 0) == 14) by {
        lemma_found(fields, STRING, "FlatpakAppID", "FlatpakAppID", 14);
    }
}

/// Where the integer fields and the tags of a new entry are found.
#[verifier::rlimit(50)]
proof fn lemma_number_places(fields: Seq<FieldModel>)
    requires
        laid_out(fields),
    ensures
        position(fields, INT32, "IsHidden", "IsHidden", 0) == 6,
        position(fields, INT32, "AllowDesktopConfig", "AllowDesktopConfig", 0) == 7,
        position(fields, INT32, "AllowOverlay", "AllowOverlay", 0) == 8,
        position(fields, INT32, "OpenVR", "OpenVR", 0) == 9,
        position(fields, INT32, "Devkit", "Devkit", 0) == 10,
        position(fields, INT32, "DevkitOverrideAppID", "DevkitOverrideAppID", 0) == 12,
        position(fields, INT32, "LastPlayTime", "LastPlayTime", 0) == 13,
        position(fields, NESTED, "tags", "tags", 0) == 15,
{
    lemma_known_keys();
    lemma_named_itself("IsHidden", "IsHidden");
    lemma_named_itself("AllowDesktopConfig", "AllowDesktopConfig");
    lemma_named_itself("AllowOverlay", "AllowOverlay");
    lemma_named_itself("OpenVR", "OpenVR");
    lemma_named_itself("Devkit", "Devkit");
    lemma_named_itself("DevkitOverrideAppID", "DevkitOverrideAppID");
    lemma_named_itself("LastPlayTime", "LastPlayTime");
    lemma_named_itself("tags", "tags");
    assert(position(fields, INT32, "IsHidden", "IsHidden", 0) == 6) by {
        lemma_found(fields, INT32, "IsHidden", "IsHidden", 6);
    }
    assert(position(fields, INT32, "AllowDesktopConfig", "AllowDesktopConfig", 0) == 7) by {
        lemma_found(fields, INT32, "AllowDesktopConfig", "AllowDesktopConfig", 7);
    }
    assert(position(fields, INT32, "AllowOverlay", "AllowOverlay", 0) == 8) by {
        lemma_found(fields, INT32, "AllowOverlay", "AllowOverlay", 8);
    }
    assert(position(fields, INT32, "OpenVR", "OpenVR", 0) == 9) by {
        lemma_found(fields, INT32, "OpenVR", "OpenVR", 9);
    }
    assert(position(fields, INT32, "Devkit", "Devkit", 0) == 10) by {
        lemma_found(fields, INT32, "Devkit", "Devkit", 10);
    }
    assert(position(fields, INT32, "DevkitOverrideAppID", "DevkitOverrideAppID", 0) == 12) by {
        lemma_found(fields, INT32, "DevkitOverrideAppID", "DevkitOverrideAppID", 12);
    }
    assert(position(fields, INT32, "LastPlayTime", "LastPlayTime", 0) == 13) by {
        lemma_found(fields, INT32, "LastPlayTime", "LastPlayTime", 13);
    }
    assert(position(fields, NESTED, "tags", "tags", 0) == 15) by {
        lemma_found(fields, NESTED, "tags", "tags", 15);
    }
}

/// Tags without NUL that were written as a nested field are read back as
/// they are.
pub proof fn lemma_tags_read_back(tags: Seq<Seq<u8>>, from: int, body: Seq<u8>, pos: int)
    requires
        0 <= from <= tags.len(),
        0 <= pos <= body.len(),
        forall|i: int| 0 <= i < tags.len() ==> no_nul(#[trigger] tags[i]),
        body.subrange(pos, body.len() as int) == tag_run(tags, from),
    ensures
        texts_at(body, pos) == tags.subrange(from, tags.len() as int),
    decreases tags.len() - from,
{
    let run = tag_run(tags, from);
    if from == tags.len() {
        assert(run.len() == 0);
        assert(tags.subrange(from, tags.len() as int) =~= Seq::<Seq<u8>>::empty());
    } else {
        let digits = decimal(from as nat);
        let tag = tags[from];
        let rest = tag_run(tags, from + 1);
        lemma_decimal_no_nul(from as nat);
        assert(run == seq![STRING] + digits + seq![0u8] + tag + seq![0u8] + rest);
        let d = digits.len() as int;
        let t = tag.len() as int;
        let k = pos + 1 + d;
        let v = k + 1 + t;
        assert(body.len() - pos == run.len());
        assert(body[pos] == run[0]);
        assert(body[k] == run[1 + d]);
        assert(body[v] == run[2 + d + t]);
        assert(body.subrange(pos + 1, k) =~= digits) by {
            assert forall|i: int| 0 <= i < d implies body[pos + 1 + i] == digits[i] by {
                assert(body[pos + 1 + i] == run[1 + i]);
            }
        }
        assert(body.subrange(k + 1, v) =~= tag) by {
            assert forall|i: int| 0 <= i < t implies body[k + 1 + i] == tag[i] by {
                assert(body[k + 1 + i] == run[2 + d + i]);
            }
        }
        lemma_span_exact(body, pos + 1, digits.len());
        lemma_span_exact(body, k + 1, tag.len());
        assert(body.subrange(v + 1, body.len() as int) =~= rest) by {
            assert forall|i: int| 0 <= i < rest.len() implies body[v + 1 + i] == rest[i] by {
                assert(body[v + 1 + i] == run[3 + d + t + i]);
            }
        }
        lemma_tags_read_back(tags, from + 1, body, v + 1);
        assert(seq![tag] + tags.subrange(from + 1, tags.len() as int) =~= tags.subrange(
            from,
            tags.len() as int,
        ));
    }
}

/// An entry made from values says of each value what it was made from. The
/// tags are read back as they are if none of them holds a NUL.
#[verifier::rlimit(50)]
pub proof fn lemma_canonical_values(
    index: Seq<u8>,
    app_name: Seq<u8>,
    exe_path: Seq<u8>,
    start_dir: Seq<u8>,
    icon_path: Seq<u8>,
    shortcut_path: Seq<u8>,
    launch_options: Seq<u8>,
    is_hidden: bool,
    allow_desktop_config: bool,
    allow_overlay: bool,
    open_vr: bool,
    devkit: bool,
    devkit_game_id: Seq<u8>,
    devkit_override_app_id: i32,
    last_play_time: i32,
    flatpak_app_id: Seq<u8>,
    tags: Seq<Seq<u8>>,
)
    ensures
        ({
            let e = EntryModel {
                index,
                fields: canonical_fields(
                    app_name,
                    exe_path,
                    start_dir,
                    icon_path,
                    shortcut_path,
                    launch_options,
                    is_hidden,
                    allow_desktop_config,
                    allow_overlay,
                    open_vr,
                    devkit,
                    devkit_game_id,
                    devkit_override_app_id,
                    last_play_time,
                    flatpak_app_id,
                    tags,
                ),
            };
            &&& e.app_name() == app_name
            &&& e.exe_path() == exe_path
            &&& e.start_dir() == start_dir
            &&& e.icon_path() == icon_path
            &&& e.shortcut_path() == shortcut_path
            &&& e.launch_options() == launch_options
            &&& e.is_hidden() == is_hidden
            &&& e.allow_desktop_config() == allow_desktop_config
            &&& e.allow_overlay() == allow_overlay
            &&& e.open_vr() == open_vr
            &&& e.devkit() == devkit
            &&& e.devkit_game_id() == devkit_game_id
            &&& e.devkit_override_app_id() == devkit_override_app_id
            &&& e.last_play_time() == last_play_time
            &&& e.flatpak_app_id() == flatpak_app_id
            &&& (forall|i: int| 0 <= i < tags.len() ==> no_nul(#[trigger] tags[i])) ==> e.tags()
                == tags
        }),
{
    let fields = canonical_fields(
        app_name,
        exe_path,
        start_dir,
        icon_path,
        shortcut_path,
        launch_options,
        is_hidden,
        allow_desktop_config,
        allow_overlay,
        open_vr,
        devkit,
        devkit_game_id,
        devkit_override_app_id,
        last_play_time,
        flatpak_app_id,
        tags,
    );
    assert(laid_out(fields));
    lemma_text_places(fields);
    lemma_number_places(fields);
    if forall|i: int| 0 <= i < tags.len() ==> no_nul(#[trigger] tags[i]) {
        let body = tag_run(tags, 0);
        assert(body.subrange(0, body.len() as int) =~= body);
        lemma_tags_read_back(tags, 0, body, 0);
        assert(tags.subrange(0, tags.len() as int) =~= tags);
    }
}

/// The keys that a new entry is laid out with hold no NUL.
#[verifier::rlimit(50)]
proof fn lemma_canonical_keys_no_nul()
    ensures
        no_nul("AppName".spec_bytes()),
        no_nul("Exe".spec_bytes()),
        no_nul("StartDir".spec_bytes()),
        no_nul("icon".spec_bytes()),
        no_nul("ShortcutPath".spec_bytes()),
        no_nul("LaunchOptions".spec_bytes()),
        no_nul("IsHidden".spec_bytes()),
        no_nul("AllowDesktopConfig".spec_bytes()),
        no_nul("AllowOverlay".spec_bytes()),
        no_nul("OpenVR".spec_bytes()),
        no_nul("Devkit".spec_bytes()),
        no_nul("DevkitGameID".spec_bytes()),
        no_nul("DevkitOverrideAppID".spec_bytes()),
        no_nul("LastPlayTime".spec_bytes()),
        no_nul("FlatpakAppID".spec_bytes()),
        no_nul("tags".spec_bytes()),
{
    broadcast use vstd::string::is_ascii_spec_bytes;

    reveal_strlit("AppName");
    reveal_strlit("Exe");
    reveal_strlit("StartDir");
    reveal_strlit("icon");
    reveal_strlit("ShortcutPath");
    reveal_strlit("LaunchOptions");
    reveal_strlit("IsHidden");
    reveal_strlit("AllowDesktopConfig");
    reveal_strlit("AllowOverlay");
    reveal_strlit("OpenVR");
    reveal_strlit("Devkit");
    reveal_strlit("DevkitGameID");
    reveal_strlit("DevkitOverrideAppID");
    reveal_strlit("LastPlayTime");
    reveal_strlit("FlatpakAppID");
    reveal_strlit("tags");
    assert(vstd::string::is_ascii("AppName"));
    assert(vstd::string::is_ascii("Exe"));
    assert(vstd::string::is_ascii("StartDir"));
    assert(vstd::string::is_ascii("icon"));
    assert(vstd::string::is_ascii("ShortcutPath"));
    assert(vstd::string::is_ascii("LaunchOptions"));
    assert(vstd::string::is_ascii("IsHidden"));
    assert(vstd::string::is_ascii("AllowDesktopConfig"));
    assert(vstd::string::is_ascii("AllowOverlay"));
    assert(vstd::string::is_ascii("OpenVR"));
    assert(vstd::string::is_ascii("Devkit"));
    assert(vstd::string::is_ascii("DevkitGameID"));
    assert(vstd::string::is_ascii("DevkitOverrideAppID"));
    assert(vstd::string::is_ascii("LastPlayTime"));
    assert(vstd::string::is_ascii("FlatpakAppID"));
    assert(vstd::string::is_ascii("tags"));
}

/// Tags without NUL, written and followed by the closing tag, are a scope
/// that this tag closes.
proof fn lemma_tag_run_closed(tags: Seq<Seq<u8>>, from: int, body: Seq<u8>, pos: int)
    requires
        0 <= from <= tags.len(),
        0 <= pos <= body.len(),
        forall|i: int| 0 <= i < tags.len() ==> no_nul(#[trigger] tags[i]),
        body.subrange(pos, body.len() as int) == tag_run(tags, from) + seq![END],
    ensures
        scope_end(body, pos, 0) == Ok::<int, MalformedInput>(body.len() as int),
    decreases tags.len() - from,
{
    let run = tag_run(tags, from) + seq![END];
    assert(body.len() - pos == run.len());
    assert(body[pos] == run[0]);
    if from < tags.len() {
        let digits = decimal(from as nat);
        let tag = tags[from];
        let rest = tag_run(tags, from + 1) + seq![END];
        lemma_decimal_no_nul(from as nat);
        assert(run =~= seq![STRING] + digits + seq![0u8] + tag + seq![0u8] + rest);
        let d = digits.len() as int;
        let t = tag.len() as int;
        let k = pos + 1 + d;
        let v = k + 1 + t;
        assert(body[k] == run[1 + d]);
        assert(body[v] == run[2 + d + t]);
        assert(body.subrange(pos + 1, k) =~= digits) by {
            assert forall|i: int| 0 <= i < d implies body[pos + 1 + i] == digits[i] by {
                assert(body[pos + 1 + i] == run[1 + i]);
            }
        }
        assert(body.subrange(k + 1, v) =~= tag) by {
            assert forall|i: int| 0 <= i < t implies body[k + 1 + i] == tag[i] by {
                assert(body[k + 1 + i] == run[2 + d + i]);
            }
        }
        lemma_span_exact(body, pos + 1, digits.len());
        lemma_span_exact(body, k + 1, tag.len());
        assert(body.subrange(v + 1, body.len() as int) =~= rest) by {
            assert forall|i: int| 0 <= i < rest.len() implies body[v + 1 + i] == rest[i] by {
                assert(body[v + 1 + i] == run[3 + d + t + i]);
            }
        }
        lemma_tag_run_closed(tags, from + 1, body, v + 1);
    }
}

/// An entry made from values without NUL, under a key without NUL, can be
/// written and read back.
pub proof fn lemma_canonical_storable(
    index: Seq<u8>,
    app_name: Seq<u8>,
    exe_path: Seq<u8>,
    start_dir: Seq<u8>,
    icon_path: Seq<u8>,
    shortcut_path: Seq<u8>,
    launch_options: Seq<u8>,
    is_hidden: bool,
    allow_desktop_config: bool,
    allow_overlay: bool,
    open_vr: bool,
    devkit: bool,
    devkit_game_id: Seq<u8>,
    devkit_override_app_id: i32,
    last_play_time: i32,
    flatpak_app_id: Seq<u8>,
    tags: Seq<Seq<u8>>,
)
    requires
        no_nul(index),
        no_nul(app_name),
        no_nul(exe_path),
        no_nul(start_dir),
        no_nul(icon_path),
        no_nul(shortcut_path),
        no_nul(launch_options),
        no_nul(devkit_game_id),
        no_nul(flatpak_app_id),
        forall|i: int| 0 <= i < tags.len() ==> no_nul(#[trigger] tags[i]),
    ensures
        (EntryModel {
            index,
            fields: canonical_fields(
                app_name,
                exe_path,
                start_dir,
                icon_path,
                shortcut_path,
                launch_options,
                is_hidden,
                allow_desktop_config,
                allow_overlay,
                open_vr,
                devkit,
                devkit_game_id,
                devkit_override_app_id,
                last_play_time,
                flatpak_app_id,
                tags,
            ),
        }).storable(),
{
    lemma_canonical_keys_no_nul();
    let body = tag_run(tags, 0);
    let closed = body.push(END);
    assert(closed.subrange(0, closed.len() as int) =~= body + seq![END]);
    lemma_tag_run_closed(tags, 0, closed, 0);
    assert(closed_body(body));
}

} // verus!
