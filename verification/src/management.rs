//! Management commands: changing the configuration document by request.

use crate::config::ConnectorConfig;
use crate::document;
use crate::document::{json_object_to_table, merge_object_into_table};
use crate::json;
use crate::json::{Json, JsonView};
use crate::message;
use crate::message::{failed_message, Message};
use crate::text;
use crate::text::{joined, same_text, strip_prefix};
use crate::toml;
use crate::toml::TomlView;
use toml_edit::{ArrayOfTables, DocumentMut, Table};
use vstd::prelude::*;
use vstd::string::*;

verus! {

/// True for the management verbs, which work the same for every protocol.
pub open spec fn management_verb(verb: Seq<char>) -> bool {
    verb == "set-config"@ || verb == "define-device"@ || verb == "remove-device"@
}

/// True for the management verbs.
pub fn is_management_verb(verb: &str) -> (r: bool)
    ensures
        r == management_verb(verb@),
{
    same_text(verb, "set-config") || same_text(verb, "define-device") || same_text(
        verb,
        "remove-device",
    )
}

/// A document's root after a request, and why the request was refused, if it was.
pub struct Outcome {
    pub root: Map<Seq<char>, TomlView>,
    pub refused: Option<Seq<char>>,
}

/// The configured devices: the array of tables under `device`.
pub open spec fn devices_of(root: Map<Seq<char>, TomlView>) -> Option<Seq<TomlView>> {
    if toml::present(root, "device"@) {
        match root["device"@] {
            TomlView::Sections(devices) => Some(devices),
            _ => None,
        }
    } else {
        None
    }
}

/// True for a device table whose `name` is the text `name`.
pub open spec fn named(device: TomlView, name: Seq<char>) -> bool {
    match device {
        TomlView::Section(t) => toml::present(t, "name"@) && t["name"@] == TomlView::Text(name),
        _ => false,
    }
}

/// The position of the first device called `name`, or the number of devices.
pub open spec fn device_index(devices: Seq<TomlView>, name: Seq<char>) -> int
    decreases devices.len(),
{
    if devices.len() == 0 {
        0
    } else if named(devices.first(), name) {
        0
    } else {
        1 + device_index(devices.drop_first(), name)
    }
}

/// Why a request for a device that is not configured is refused.
pub open spec fn device_not_found(name: Seq<char>) -> Seq<char> {
    "device '"@ + name + "' not found"@
}

/// Why a merge was refused, if it was.
pub open spec fn merge_refused(patch: Seq<(Seq<char>, JsonView)>) -> Option<Seq<char>> {
    if document::null_within(patch) {
        Some(document::null_refused())
    } else {
        None
    }
}

/// What `set-config` does with a patch for the device `name`.
pub open spec fn device_patched(
    root: Map<Seq<char>, TomlView>,
    name: Seq<char>,
    patch: Seq<(Seq<char>, JsonView)>,
) -> Outcome {
    match devices_of(root) {
        None => Outcome { root, refused: Some("no devices are configured"@) },
        Some(devices) => {
            let i = device_index(devices, name);
            if i < devices.len() {
                let table = document::merged(devices[i]->Section_0, patch);
                Outcome {
                    root: root.insert(
                        "device"@,
                        TomlView::Sections(devices.update(i, TomlView::Section(table))),
                    ),
                    refused: merge_refused(patch),
                }
            } else {
                Outcome { root, refused: Some(device_not_found(name)) }
            }
        },
    }
}

/// The sections that `set-config` can patch, besides the devices.
pub open spec fn patchable(target: Seq<char>) -> bool {
    target == "connector"@ || target == "mqtt"@ || target == "connection"@
}

/// What `set-config` does with a patch for the section `target`.
pub open spec fn section_patched(
    root: Map<Seq<char>, TomlView>,
    target: Seq<char>,
    patch: Seq<(Seq<char>, JsonView)>,
) -> Outcome {
    let section = if root.contains_key(target) {
        root[target]
    } else {
        TomlView::Section(toml::no_keys())
    };
    match section {
        TomlView::Section(t) => Outcome {
            root: root.insert(target, TomlView::Section(document::merged(t, patch))),
            refused: merge_refused(patch),
        },
        _ => Outcome {
            root,
            refused: Some("config section '"@ + target + "' is not a table"@),
        },
    }
}

/// What `set-config` does: the member `config` is merged into the section or device that the
/// member `target` names.
pub open spec fn config_set(root: Map<Seq<char>, TomlView>, request: JsonView) -> Outcome {
    match request.get_text("target"@) {
        None => Outcome { root, refused: Some("set-config requires a 'target'"@) },
        Some(target) => match request.get("config"@) {
            Some(JsonView::Object(patch)) => if text::has_prefix(target, "device:"@) {
                device_patched(root, target.skip("device:"@.len() as int), patch)
            } else if patchable(target) {
                section_patched(root, target, patch)
            } else {
                Outcome {
                    root,
                    refused: Some(
                        "unknown set-config target '"@ + target
                            + "' (expected connector, mqtt, connection or device:<name>)"@,
                    ),
                }
            },
            _ => Outcome { root, refused: Some("set-config requires a 'config' object"@) },
        },
    }
}

/// The devices after the table of the device `name` was put in place: of the first one so
/// called, or as a new one at the end.
pub open spec fn with_device(
    devices: Seq<TomlView>,
    name: Seq<char>,
    table: TomlView,
) -> Seq<TomlView> {
    let i = device_index(devices, name);
    if i < devices.len() {
        devices.update(i, table)
    } else {
        devices.push(table)
    }
}

/// What `define-device` does: the member `device` becomes the table of the device it names.
pub open spec fn device_defined(root: Map<Seq<char>, TomlView>, request: JsonView) -> Outcome {
    match request.get("device"@) {
        Some(JsonView::Object(members)) => match JsonView::Object(members).get_text("name"@) {
            None => Outcome { root, refused: Some("device requires a 'name'"@) },
            Some(name) => if document::null_within(members) {
                Outcome { root, refused: Some(document::null_refused()) }
            } else {
                let section = if root.contains_key("device"@) {
                    root["device"@]
                } else {
                    TomlView::Sections(Seq::empty())
                };
                match section {
                    TomlView::Sections(devices) => Outcome {
                        root: root.insert(
                            "device"@,
                            TomlView::Sections(
                                with_device(
                                    devices,
                                    name,
                                    TomlView::Section(document::table_of(members)),
                                ),
                            ),
                        ),
                        refused: None,
                    },
                    _ => Outcome { root, refused: Some("'device' is not an array of tables"@) },
                }
            },
        },
        _ => Outcome { root, refused: Some("define-device requires a 'device' object"@) },
    }
}

/// What `remove-device` does: the first device called as the member `device` says is taken out.
pub open spec fn device_removed(root: Map<Seq<char>, TomlView>, request: JsonView) -> Outcome {
    match request.get_text("device"@) {
        None => Outcome { root, refused: Some("remove-device requires a 'device' name string"@) },
        Some(name) => match devices_of(root) {
            None => Outcome { root, refused: Some("no devices are configured"@) },
            Some(devices) => {
                let i = device_index(devices, name);
                if i < devices.len() {
                    Outcome {
                        root: root.insert("device"@, TomlView::Sections(devices.remove(i))),
                        refused: None,
                    }
                } else {
                    Outcome { root, refused: Some(device_not_found(name)) }
                }
            },
        },
    }
}

/// What a management verb does to a document's root.
pub open spec fn managed(
    verb: Seq<char>,
    root: Map<Seq<char>, TomlView>,
    request: JsonView,
) -> Outcome {
    if verb == "set-config"@ {
        config_set(root, request)
    } else if verb == "define-device"@ {
        device_defined(root, request)
    } else if verb == "remove-device"@ {
        device_removed(root, request)
    } else {
        Outcome { root, refused: Some("unsupported management verb '"@ + verb + "'"@) }
    }
}

/// The root table of a document whose root is one.
pub open spec fn root_of(doc: DocumentMut) -> Map<Seq<char>, TomlView> {
    toml::document_root(doc)->Section_0
}

/// The message of a result, where it is a refusal.
pub open spec fn refusal(r: Result<(), String>) -> Option<Seq<char>> {
    match r {
        Ok(_) => None,
        Err(e) => Some(e@),
    }
}

/// [`device_index`] is the first position that holds a device of that name.
pub proof fn lemma_device_index(devices: Seq<TomlView>, name: Seq<char>)
    ensures
        0 <= device_index(devices, name) <= devices.len(),
        device_index(devices, name) < devices.len() ==> named(
            devices[device_index(devices, name)],
            name,
        ),
        forall|j: int|
            0 <= j < device_index(devices, name) ==> !named(#[trigger] devices[j], name),
    decreases devices.len(),
{
    if devices.len() > 0 && !named(devices.first(), name) {
        let rest = devices.drop_first();
        lemma_device_index(rest, name);
        assert forall|j: int| 0 <= j < device_index(devices, name) implies !named(
            #[trigger] devices[j],
            name,
        ) by {
            if j > 0 {
                assert(devices[j] == rest[j - 1]);
            }
        }
    }
}

/// A position that holds a device of that name, with no earlier one, is [`device_index`].
pub proof fn lemma_device_index_unique(devices: Seq<TomlView>, name: Seq<char>, i: int)
    requires
        0 <= i <= devices.len(),
        i < devices.len() ==> named(devices[i], name),
        forall|j: int| 0 <= j < i ==> !named(#[trigger] devices[j], name),
    ensures
        device_index(devices, name) == i,
{
    lemma_device_index(devices, name);
    let k = device_index(devices, name);
    if k < i {
        assert(!named(devices[k], name));
    }
    if i < k {
        assert(!named(devices[i], name));
    }
}

/// True for a table whose `name` is the text `name`.
fn table_named(table: &Table, name: &str) -> (r: bool)
    ensures
        r == named(TomlView::Section(toml::table_contents(*table)), name@),
{
    match table.get("name") {
        Some(item) => match item.as_str() {
            Some(s) => same_text(s, name),
            None => false,
        },
        None => false,
    }
}

/// The position of the first device called `name`, or the number of devices.
fn find_device(devices: &ArrayOfTables, name: &str) -> (i: usize)
    ensures
        i == device_index(toml::tables_contents(*devices), name@),
{
    let ghost all = toml::tables_contents(*devices);
    let mut i: usize = 0;
    let n: usize = devices.len();
    while i < n
        invariant
            0 <= i <= n,
            n == all.len(),
            all == toml::tables_contents(*devices),
            forall|j: int| 0 <= j < i ==> !named(#[trigger] all[j], name@),
        decreases n - i,
    {
        if let Some(table) = devices.get(i) {
            if table_named(table, name) {
                proof {
                    lemma_device_index_unique(all, name@, i as int);
                }
                return i;
            }
        }
        i += 1;
    }
    proof {
        lemma_device_index_unique(all, name@, i as int);
    }
    i
}

/// Merges a patch into the first device called `name`.
fn patch_device(root: &mut Table, name: &str, patch: &Vec<(String, Json)>) -> (r: Result<
    (),
    String,
>)
    ensures
        ({
            let out = device_patched(
                toml::table_contents(*old(root)),
                name@,
                json::members_view(patch@),
            );
            toml::table_contents(*final(root)) == out.root && refusal(r) == out.refused
        }),
{
    let ghost before = toml::table_contents(*root);
    match root.get_mut("device") {
        Some(item) => match item.as_array_of_tables_mut() {
            Some(devices) => {
                let i = find_device(devices, name);
                proof {
                    lemma_device_index(toml::tables_contents(*devices), name@);
                }
                match devices.get_mut(i) {
                    Some(table) => merge_object_into_table(table, patch),
                    None => {
                        assert(before =~= before.insert("device"@, before["device"@]));
                        Err(joined("device '", name, "' not found"))
                    },
                }
            },
            None => {
                assert(before =~= before.insert("device"@, before["device"@]));
                Err(String::from_str("no devices are configured"))
            },
        },
        None => Err(String::from_str("no devices are configured")),
    }
}

/// Merges a patch into the section `target`.
fn patch_section(root: &mut Table, target: &str, patch: &Vec<(String, Json)>) -> (r: Result<
    (),
    String,
>)
    ensures
        ({
            let out = section_patched(
                toml::table_contents(*old(root)),
                target@,
                json::members_view(patch@),
            );
            toml::table_contents(*final(root)) == out.root && refusal(r) == out.refused
        }),
{
    let ghost before = toml::table_contents(*root);
    let item = toml::entry_or(root, target, toml::table_item(Table::new()));
    match item.as_table_mut() {
        Some(table) => merge_object_into_table(table, patch),
        None => {
            assert(before =~= before.insert(target@, before[target@]));
            Err(joined("config section '", target, "' is not a table"))
        },
    }
}

/// `set-config`: merges `config` into the section or device that `target` names.
pub fn apply_set_config(request: &Json, doc: &mut DocumentMut) -> (r: Result<(), String>)
    requires
        toml::document_root(*old(doc)) is Section,
    ensures
        toml::document_root(*final(doc)) == TomlView::Section(
            config_set(root_of(*old(doc)), request@).root,
        ),
        toml::document_trailing(*final(doc)) == toml::document_trailing(*old(doc)),
        refusal(r) == config_set(root_of(*old(doc)), request@).refused,
{
    let target = match request.get_text("target") {
        Some(t) => t,
        None => {
            return Err(String::from_str("set-config requires a 'target'"));
        },
    };
    let patch = match request.get("config") {
        Some(Json::Object(members)) => members,
        _ => {
            return Err(String::from_str("set-config requires a 'config' object"));
        },
    };
    let root = doc.as_table_mut();
    match strip_prefix(target, "device:") {
        Some(name) => patch_device(root, name, patch),
        None => if same_text(target, "connector") || same_text(target, "mqtt") || same_text(
            target,
            "connection",
        ) {
            patch_section(root, target, patch)
        } else {
            Err(
                joined(
                    "unknown set-config target '",
                    target,
                    "' (expected connector, mqtt, connection or device:<name>)",
                ),
            )
        },
    }
}

/// `define-device`: puts a device in place by name, or adds it.
pub fn apply_define_device(request: &Json, doc: &mut DocumentMut) -> (r: Result<(), String>)
    requires
        toml::document_root(*old(doc)) is Section,
    ensures
        toml::document_root(*final(doc)) == TomlView::Section(
            device_defined(root_of(*old(doc)), request@).root,
        ),
        toml::document_trailing(*final(doc)) == toml::document_trailing(*old(doc)),
        refusal(r) == device_defined(root_of(*old(doc)), request@).refused,
{
    let device = match request.get("device") {
        Some(v) => v,
        None => {
            return Err(String::from_str("define-device requires a 'device' object"));
        },
    };
    let members = match device.as_object() {
        Some(m) => m,
        None => {
            return Err(String::from_str("define-device requires a 'device' object"));
        },
    };
    let name = match device.get_text("name") {
        Some(n) => n,
        None => {
            return Err(String::from_str("device requires a 'name'"));
        },
    };
    let table = match json_object_to_table(members) {
        Ok(t) => t,
        Err(e) => {
            return Err(e);
        },
    };
    let ghost before = root_of(*doc);
    let item = toml::entry_or(
        doc.as_table_mut(),
        "device",
        toml::tables_item(ArrayOfTables::new()),
    );
    match item.as_array_of_tables_mut() {
        Some(devices) => {
            let i = find_device(devices, name);
            proof {
                lemma_device_index(toml::tables_contents(*devices), name@);
            }
            match devices.get_mut(i) {
                Some(slot) => {
                    *slot = table;
                },
                None => {
                    devices.push(table);
                },
            }
            Ok(())
        },
        None => {
            assert(before =~= before.insert("device"@, before["device"@]));
            Err(String::from_str("'device' is not an array of tables"))
        },
    }
}

/// `remove-device`: takes a device out by name.
pub fn apply_remove_device(request: &Json, doc: &mut DocumentMut) -> (r: Result<(), String>)
    requires
        toml::document_root(*old(doc)) is Section,
    ensures
        toml::document_root(*final(doc)) == TomlView::Section(
            device_removed(root_of(*old(doc)), request@).root,
        ),
        toml::document_trailing(*final(doc)) == toml::document_trailing(*old(doc)),
        refusal(r) == device_removed(root_of(*old(doc)), request@).refused,
{
    let name = match request.get_text("device") {
        Some(n) => n,
        None => {
            return Err(String::from_str("remove-device requires a 'device' name string"));
        },
    };
    let ghost before = root_of(*doc);
    match doc.as_table_mut().get_mut("device") {
        Some(item) => match item.as_array_of_tables_mut() {
            Some(devices) => {
                let i = find_device(devices, name);
                proof {
                    lemma_device_index(toml::tables_contents(*devices), name@);
                }
                if i < devices.len() {
                    devices.remove(i);
                    Ok(())
                } else {
                    assert(before =~= before.insert("device"@, before["device"@]));
                    Err(joined("device '", name, "' not found"))
                }
            },
            None => {
                assert(before =~= before.insert("device"@, before["device"@]));
                Err(String::from_str("no devices are configured"))
            },
        },
        None => Err(String::from_str("no devices are configured")),
    }
}

/// Applies a management verb to the configuration document.
pub fn apply_management(verb: &str, request: &Json, doc: &mut DocumentMut) -> (r: Result<
    (),
    String,
>)
    requires
        toml::document_root(*old(doc)) is Section,
    ensures
        toml::document_root(*final(doc)) == TomlView::Section(
            managed(verb@, root_of(*old(doc)), request@).root,
        ),
        toml::document_trailing(*final(doc)) == toml::document_trailing(*old(doc)),
        refusal(r) == managed(verb@, root_of(*old(doc)), request@).refused,
{
    if same_text(verb, "set-config") {
        apply_set_config(request, doc)
    } else if same_text(verb, "define-device") {
        apply_define_device(request, doc)
    } else if same_text(verb, "remove-device") {
        apply_remove_device(request, doc)
    } else {
        Err(joined("unsupported management verb '", verb, "'"))
    }
}

/// The management verbs are three.
proof fn lemma_verbs_differ()
    ensures
        "set-config"@ != "define-device"@,
        "set-config"@ != "remove-device"@,
        "define-device"@ != "remove-device"@,
{
    reveal_strlit("set-config");
    reveal_strlit("define-device");
    reveal_strlit("remove-device");
    assert("set-config"@[0] != "define-device"@[0]);
    assert("set-config"@[0] != "remove-device"@[0]);
    assert("define-device"@[0] != "remove-device"@[0]);
}

/// A management command touches one key of the root: `device`, or the section that a
/// `set-config` names.
pub proof fn only_the_target_changes(
    verb: Seq<char>,
    root: Map<Seq<char>, TomlView>,
    request: JsonView,
    key: Seq<char>,
)
    requires
        key != "device"@,
        verb == "set-config"@ ==> request.get_text("target"@) != Some(key),
    ensures
        document::slot(managed(verb, root, request).root, key) == document::slot(root, key),
{
}

/// A refused command leaves the document as it was, unless a null was met on the way.
pub proof fn refused_commands_change_nothing(
    verb: Seq<char>,
    root: Map<Seq<char>, TomlView>,
    request: JsonView,
)
    requires
        managed(verb, root, request).refused is Some,
        managed(verb, root, request).refused != Some(document::null_refused()),
    ensures
        managed(verb, root, request).root == root,
{
}

/// After `set-config` on a section, the section is its former self with the patch merged in.
pub proof fn a_section_is_patched(
    root: Map<Seq<char>, TomlView>,
    request: JsonView,
    target: Seq<char>,
    patch: Seq<(Seq<char>, JsonView)>,
    section: Map<Seq<char>, TomlView>,
)
    requires
        request.get_text("target"@) == Some(target),
        request.get("config"@) == Some(JsonView::Object(patch)),
        patchable(target),
        root.contains_key(target) ==> root[target] == TomlView::Section(section),
        !root.contains_key(target) ==> section == toml::no_keys(),
        !document::null_within(patch),
    ensures
        managed("set-config"@, root, request).refused is None,
        document::slot(managed("set-config"@, root, request).root, target) == Some(
            TomlView::Section(document::merged(section, patch)),
        ),
{
    reveal_strlit("device:");
    reveal_strlit("connector");
    reveal_strlit("mqtt");
    reveal_strlit("connection");
    if text::has_prefix(target, "device:"@) {
        assert(target.take(7)[0] == "device:"@[0]);
    }
}

/// After `set-config` on a device, the device is its former self with the patch merged in, and
/// no other device has changed.
pub proof fn a_device_is_patched(
    root: Map<Seq<char>, TomlView>,
    request: JsonView,
    name: Seq<char>,
    patch: Seq<(Seq<char>, JsonView)>,
    devices: Seq<TomlView>,
)
    requires
        request.get_text("target"@) == Some("device:"@ + name),
        request.get("config"@) == Some(JsonView::Object(patch)),
        devices_of(root) == Some(devices),
        device_index(devices, name) < devices.len(),
        !document::null_within(patch),
    ensures
        ({
            let out = managed("set-config"@, root, request);
            let i = device_index(devices, name);
            out.refused is None && devices_of(out.root) == Some(
                devices.update(
                    i,
                    TomlView::Section(document::merged(devices[i]->Section_0, patch)),
                ),
            )
        }),
{
    let target = "device:"@ + name;
    assert(target.take("device:"@.len() as int) =~= "device:"@);
    assert(target.skip("device:"@.len() as int) =~= name);
}

/// The table that `define-device` puts in place carries the device's name.
proof fn lemma_defined_is_named(members: Seq<(Seq<char>, JsonView)>, name: Seq<char>)
    requires
        json::distinct_keys(members),
        JsonView::Object(members).get_text("name"@) == Some(name),
    ensures
        named(TomlView::Section(document::table_of(members)), name),
{
    document::table_is_pointwise(members, "name"@);
}

proof fn lemma_with_device(devices: Seq<TomlView>, name: Seq<char>, table: TomlView)
    requires
        named(table, name),
    ensures
        device_index(with_device(devices, name, table), name) == device_index(devices, name),
        device_index(devices, name) < with_device(devices, name, table).len(),
        with_device(devices, name, table)[device_index(devices, name)] == table,
{
    lemma_device_index(devices, name);
    let i = device_index(devices, name);
    let after = with_device(devices, name, table);
    assert forall|j: int| 0 <= j < i implies !named(#[trigger] after[j], name) by {
        assert(after[j] == devices[j]);
    }
    lemma_device_index_unique(after, name, i);
}

/// After `define-device` the device is configured as the request says, once, and no other
/// device has changed.
pub proof fn a_defined_device_is_configured(
    root: Map<Seq<char>, TomlView>,
    request: JsonView,
    members: Seq<(Seq<char>, JsonView)>,
    name: Seq<char>,
)
    requires
        request.get("device"@) == Some(JsonView::Object(members)),
        json::distinct_keys(members),
        JsonView::Object(members).get_text("name"@) == Some(name),
        managed("define-device"@, root, request).refused is None,
    ensures
        devices_of(managed("define-device"@, root, request).root) is Some,
        ({
            let before = match devices_of(root) {
                Some(devices) => devices,
                None => Seq::empty(),
            };
            let after = devices_of(managed("define-device"@, root, request).root)->0;
            let i = device_index(after, name);
            &&& i == device_index(before, name)
            &&& i < after.len()
            &&& after[i] == TomlView::Section(document::table_of(members))
            &&& after.len() == before.len() + if i < before.len() {
                0int
            } else {
                1int
            }
            &&& forall|j: int| 0 <= j < before.len() && j != i ==> after[j] == before[j]
        }),
{
    lemma_verbs_differ();
    let before = match devices_of(root) {
        Some(devices) => devices,
        None => Seq::empty(),
    };
    lemma_defined_is_named(members, name);
    lemma_device_index(before, name);
    lemma_with_device(before, name, TomlView::Section(document::table_of(members)));
}

/// Defining a device a second time changes nothing.
pub proof fn defining_twice_is_defining_once(
    root: Map<Seq<char>, TomlView>,
    request: JsonView,
    members: Seq<(Seq<char>, JsonView)>,
)
    requires
        request.get("device"@) == Some(JsonView::Object(members)),
        json::distinct_keys(members),
        managed("define-device"@, root, request).refused is None,
    ensures
        ({
            let once = managed("define-device"@, root, request);
            managed("define-device"@, once.root, request) == once
        }),
{
    lemma_verbs_differ();
    let once = managed("define-device"@, root, request);
    let name = JsonView::Object(members).get_text("name"@)->0;
    a_defined_device_is_configured(root, request, members, name);
    let after = devices_of(once.root)->0;
    let i = device_index(after, name);
    lemma_device_index(after, name);
    assert(after.update(i, after[i]) =~= after);
    assert(managed("define-device"@, once.root, request).root =~= once.root);
}

/// A new device, defined and then removed, leaves the document as it was.
pub proof fn removing_undoes_defining(
    root: Map<Seq<char>, TomlView>,
    define: JsonView,
    remove: JsonView,
    members: Seq<(Seq<char>, JsonView)>,
    name: Seq<char>,
    devices: Seq<TomlView>,
)
    requires
        define.get("device"@) == Some(JsonView::Object(members)),
        json::distinct_keys(members),
        JsonView::Object(members).get_text("name"@) == Some(name),
        !document::null_within(members),
        remove.get_text("device"@) == Some(name),
        devices_of(root) == Some(devices),
        device_index(devices, name) == devices.len(),
    ensures
        ({
            let defined = managed("define-device"@, root, define);
            let removed = managed("remove-device"@, defined.root, remove);
            defined.refused is None && removed.refused is None && removed.root == root
        }),
{
    lemma_verbs_differ();
    let defined = managed("define-device"@, root, define);
    a_defined_device_is_configured(root, define, members, name);
    let after = devices_of(defined.root)->0;
    assert(after.remove(devices.len() as int) =~= devices);
    let removed = managed("remove-device"@, defined.root, remove);
    assert(removed.root =~= root);
}

/// True when no two devices are called `name`.
pub open spec fn at_most_one(devices: Seq<TomlView>, name: Seq<char>) -> bool {
    forall|i: int, j: int|
        0 <= i < devices.len() && 0 <= j < devices.len() && named(#[trigger] devices[i], name)
            && named(#[trigger] devices[j], name) ==> i == j
}

/// A device that was removed is not found any more, where its name was its own.
pub proof fn a_removed_device_is_gone(
    root: Map<Seq<char>, TomlView>,
    request: JsonView,
    name: Seq<char>,
    devices: Seq<TomlView>,
)
    requires
        request.get_text("device"@) == Some(name),
        devices_of(root) == Some(devices),
        at_most_one(devices, name),
        managed("remove-device"@, root, request).refused is None,
    ensures
        ({
            let removed = managed("remove-device"@, root, request);
            let again = managed("remove-device"@, removed.root, request);
            again.refused == Some(device_not_found(name)) && again.root == removed.root
        }),
{
    lemma_verbs_differ();
    lemma_device_index(devices, name);
    let i = device_index(devices, name);
    let after = devices.remove(i);
    assert forall|j: int| 0 <= j < after.len() implies !named(#[trigger] after[j], name) by {
        if j < i {
            assert(after[j] == devices[j]);
        } else {
            assert(after[j] == devices[j + 1]);
        }
    }
    lemma_device_index_unique(after, name, after.len() as int);
}

/// The configuration in force, and the document that it was read from.
pub struct ConfigState {
    pub doc: DocumentMut,
    pub config: ConnectorConfig,
}

/// What became of a candidate for a new configuration.
pub enum Verdict {
    /// The document is not a configuration, and why.
    Invalid(String),
    /// The protocol module does not take the configuration, and why.
    Unconfigurable(String),
    /// The protocol module runs with this configuration.
    Accepted(ConnectorConfig),
}

/// The document that a text is, and one without a key where it is none or there is no text.
pub fn load_document(text: Option<&str>) -> (r: DocumentMut)
    ensures
        toml::document_root(r) is Section,
        root_of(r) == match text {
            Some(t) => match toml::document_of_text(t@) {
                Some((root, _)) => root,
                None => toml::no_keys(),
            },
            None => toml::no_keys(),
        },
        toml::document_trailing(r) == match text {
            Some(t) => match toml::document_of_text(t@) {
                Some((_, trailing)) => trailing,
                None => Seq::empty(),
            },
            None => Seq::empty(),
        },
{
    match text {
        Some(t) => match toml::read_document(t) {
            Ok(d) => d,
            Err(_) => DocumentMut::new(),
        },
        None => DocumentMut::new(),
    }
}

/// The text of a document.
pub fn document_to_text(doc: &DocumentMut) -> (r: String)
    requires
        toml::document_root(*doc) is Section,
    ensures
        r@ == toml::document_text(*doc),
{
    toml::show_document(doc)
}

/// What the document becomes by a management command, or the answer that refuses it. The document
/// itself is left as it is, and the comments after its last item are kept.
pub fn propose(topic: &str, verb: &str, request: &Json, doc: &DocumentMut) -> (r: Result<
    DocumentMut,
    Message,
>)
    requires
        toml::document_root(*doc) is Section,
    ensures
        match r {
            Ok(candidate) => managed(verb@, root_of(*doc), request@).refused is None
                && toml::document_root(candidate) == TomlView::Section(
                managed(verb@, root_of(*doc), request@).root,
            ) && toml::document_trailing(candidate) == toml::document_trailing(*doc),
            Err(answer) => managed(verb@, root_of(*doc), request@).refused is Some && answer@
                == message::failed(
                topic@,
                managed(verb@, root_of(*doc), request@).refused->0,
            ),
        },
{
    let mut candidate = toml::copy_document(doc);
    match apply_management(verb, request, &mut candidate) {
        Ok(_) => Ok(candidate),
        Err(reason) => Err(failed_message(topic, reason.as_str())),
    }
}

/// What is to be done after a verdict.
pub struct Settled {
    /// The answer to publish now. A command that succeeds is answered once the devices are
    /// connected again.
    pub answer: Option<Message>,
    /// Whether the protocol module has to be given the configuration in force again.
    pub restore: bool,
    /// Whether the configuration changed: then it is to be stored, and the devices are to be
    /// connected anew.
    pub changed: bool,
}

/// Why a verdict refuses a candidate, if it does.
pub open spec fn verdict_refusal(verdict: Verdict) -> Option<Seq<char>> {
    match verdict {
        Verdict::Accepted(_) => None,
        Verdict::Invalid(why) => Some("resulting config is invalid: "@ + why@),
        Verdict::Unconfigurable(why) => Some("configure failed: "@ + why@),
    }
}

impl ConfigState {
    /// Takes the verdict on a candidate. Only one that was accepted is put in force; else nothing
    /// changes, and the answer tells why.
    pub fn settle(&mut self, topic: &str, candidate: DocumentMut, verdict: Verdict) -> (r: Settled)
        ensures
            match verdict {
                Verdict::Accepted(config) => *final(self) == (ConfigState {
                    doc: candidate,
                    config,
                }),
                _ => *final(self) == *old(self),
            },
            match verdict_refusal(verdict) {
                Some(reason) => r.answer is Some && r.answer->0@ == message::failed(
                    topic@,
                    reason,
                ),
                None => r.answer is None,
            },
            r.restore == (verdict is Unconfigurable),
            r.changed == (verdict is Accepted),
    {
        match verdict {
            Verdict::Accepted(config) => {
                self.doc = candidate;
                self.config = config;
                Settled { answer: None, restore: false, changed: true }
            },
            Verdict::Invalid(why) => {
                let mut reason = String::from_str("resulting config is invalid: ");
                reason.append(why.as_str());
                Settled {
                    answer: Some(failed_message(topic, reason.as_str())),
                    restore: false,
                    changed: false,
                }
            },
            Verdict::Unconfigurable(why) => {
                let mut reason = String::from_str("configure failed: ");
                reason.append(why.as_str());
                Settled {
                    answer: Some(failed_message(topic, reason.as_str())),
                    restore: true,
                    changed: false,
                }
            },
        }
    }
}

/// There are three management verbs.
pub proof fn the_management_verbs_are_three(verb: Seq<char>)
    ensures
        management_verb(verb) <==> verb == "set-config"@ || verb == "define-device"@ || verb
            == "remove-device"@,
{
}

/// A device goes by the text under its key `name`.
pub proof fn a_device_is_called_by_its_name(keys: Map<Seq<char>, TomlView>, name: Seq<char>)
    ensures
        named(TomlView::Section(keys), name) <==> keys.contains_key("name"@) && keys["name"@]
            == TomlView::Text(name),
{
}

/// The devices are the array of tables under the key `device`.
pub proof fn the_devices_stand_under_their_key(
    root: Map<Seq<char>, TomlView>,
    devices: Seq<TomlView>,
)
    ensures
        devices_of(root) == Some(devices) <==> root.contains_key("device"@) && root["device"@]
            == TomlView::Sections(devices),
{
}

proof fn lemma_targets(target: Seq<char>)
    requires
        target == "connector"@ || target == "mqtt"@ || target == "connection"@,
    ensures
        !text::has_prefix(target, "device:"@),
        patchable(target),
{
    reveal_strlit("device:");
    reveal_strlit("connector");
    reveal_strlit("mqtt");
    reveal_strlit("connection");
    if text::has_prefix(target, "device:"@) {
        assert(target.take(7)[0] == "device:"@[0]);
    }
}

/// `set-config` on a section succeeds where the section is a table or not there yet. Each key of
/// the patch then says in the section what the patch does, but for an object that meets a table,
/// which is merged into that. Every other key of the section, and every other key of the
/// document, is what it was.
pub proof fn set_config_writes_a_section(
    root: Map<Seq<char>, TomlView>,
    request: JsonView,
    target: Seq<char>,
    patch: Seq<(Seq<char>, JsonView)>,
    section: Map<Seq<char>, TomlView>,
    key: Seq<char>,
    other: Seq<char>,
)
    requires
        request.get_text("target"@) == Some(target),
        request.get("config"@) == Some(JsonView::Object(patch)),
        target == "connector"@ || target == "mqtt"@ || target == "connection"@,
        root.contains_key(target) ==> root[target] == TomlView::Section(section),
        !root.contains_key(target) ==> section =~= Map::<Seq<char>, TomlView>::empty(),
        json::distinct_keys(patch),
        !document::has_null(JsonView::Object(patch)),
        other != target,
    ensures
        ({
            let out = managed("set-config"@, root, request);
            let after = out.root[target]->Section_0;
            &&& out.refused is None
            &&& out.root.contains_key(target)
            &&& out.root[target] is Section
            &&& json::lookup(patch, key) matches Some(v) ==> {
                &&& after.contains_key(key)
                &&& !(v is Object && section.contains_key(key) && section[key] is Section)
                    ==> document::says(after[key], v)
                &&& v matches JsonView::Bool(b) ==> after[key] == TomlView::Bool(b)
                &&& v matches JsonView::Text(s) ==> after[key] == TomlView::Text(s)
            }
            &&& json::lookup(patch, key) is None ==> document::slot(after, key)
                == document::slot(section, key)
            &&& document::slot(out.root, other) == document::slot(root, other)
        }),
{
    lemma_verbs_differ();
    lemma_targets(target);
    assert(section =~= if root.contains_key(target) {
        section
    } else {
        toml::no_keys()
    });
    document::a_merged_table_says_what_the_patch_does(section, patch, key);
    assert(managed("set-config"@, root, request) == section_patched(root, target, patch));
}

/// `set-config` on a device merges the patch into the first device of that name: each key of the
/// patch then says there what the patch does. The other devices, and every other key of the
/// document, are what they were.
pub proof fn set_config_writes_a_device(
    root: Map<Seq<char>, TomlView>,
    request: JsonView,
    name: Seq<char>,
    patch: Seq<(Seq<char>, JsonView)>,
    devices: Seq<TomlView>,
    i: int,
    table: Map<Seq<char>, TomlView>,
    key: Seq<char>,
    other: Seq<char>,
)
    requires
        request.get_text("target"@) == Some("device:"@ + name),
        request.get("config"@) == Some(JsonView::Object(patch)),
        root.contains_key("device"@) && root["device"@] == TomlView::Sections(devices),
        0 <= i < devices.len(),
        devices[i] == TomlView::Section(table),
        table.contains_key("name"@) && table["name"@] == TomlView::Text(name),
        forall|j: int| 0 <= j < i ==> !named(#[trigger] devices[j], name),
        json::distinct_keys(patch),
        !document::has_null(JsonView::Object(patch)),
        other != "device"@,
    ensures
        ({
            let out = managed("set-config"@, root, request);
            let after = out.root["device"@]->Sections_0;
            let keys = after[i]->Section_0;
            &&& out.refused is None
            &&& out.root.contains_key("device"@)
            &&& out.root["device"@] is Sections
            &&& after.len() == devices.len()
            &&& after[i] is Section
            &&& forall|j: int| 0 <= j < devices.len() && j != i ==> after[j] == devices[j]
            &&& json::lookup(patch, key) matches Some(v) ==> {
                &&& keys.contains_key(key)
                &&& !(v is Object && table.contains_key(key) && table[key] is Section)
                    ==> document::says(keys[key], v)
                &&& v matches JsonView::Bool(b) ==> keys[key] == TomlView::Bool(b)
                &&& v matches JsonView::Text(s) ==> keys[key] == TomlView::Text(s)
            }
            &&& json::lookup(patch, key) is None ==> document::slot(keys, key)
                == document::slot(table, key)
            &&& document::slot(out.root, other) == document::slot(root, other)
        }),
{
    lemma_verbs_differ();
    let target = "device:"@ + name;
    text::a_prefix_and_the_rest_make_the_text(target, "device:"@, name);
    lemma_device_index_unique(devices, name, i);
    document::a_merged_table_says_what_the_patch_does(table, patch, key);
    assert(managed("set-config"@, root, request) == device_patched(root, name, patch));
}

/// `define-device` succeeds for a device with a name and without a null, where the devices are an
/// array of tables or not there yet. The device's table then says what the request does: it takes
/// the place of the first device of that name, or stands at the end. The other devices, and
/// every other key of the document, are what they were.
pub proof fn define_device_writes_the_device(
    root: Map<Seq<char>, TomlView>,
    request: JsonView,
    members: Seq<(Seq<char>, JsonView)>,
    name: Seq<char>,
    devices: Seq<TomlView>,
    i: int,
    other: Seq<char>,
)
    requires
        request.get("device"@) == Some(JsonView::Object(members)),
        JsonView::Object(members).get("name"@) == Some(JsonView::Text(name)),
        !document::has_null(JsonView::Object(members)),
        root.contains_key("device"@) ==> root["device"@] == TomlView::Sections(devices),
        !root.contains_key("device"@) ==> devices =~= Seq::<TomlView>::empty(),
        0 <= i <= devices.len(),
        i < devices.len() ==> named(devices[i], name),
        forall|j: int| 0 <= j < i ==> !named(#[trigger] devices[j], name),
        other != "device"@,
    ensures
        ({
            let out = managed("define-device"@, root, request);
            let after = out.root["device"@]->Sections_0;
            &&& out.refused is None
            &&& out.root.contains_key("device"@)
            &&& out.root["device"@] is Sections
            &&& after.len() == if i < devices.len() {
                devices.len()
            } else {
                devices.len() + 1
            }
            &&& after[i] is Section
            &&& document::says(after[i], JsonView::Object(members))
            &&& forall|j: int| 0 <= j < devices.len() && j != i ==> after[j] == devices[j]
            &&& document::slot(out.root, other) == document::slot(root, other)
        }),
{
    lemma_verbs_differ();
    lemma_device_index_unique(devices, name, i);
    document::a_converted_value_says_the_same(JsonView::Object(members));
    assert(devices =~= if root.contains_key("device"@) {
        devices
    } else {
        Seq::empty()
    });
    assert(managed("define-device"@, root, request) == device_defined(root, request));
}

/// `remove-device` takes out the first device of that name. The other devices keep their order,
/// and every other key of the document is what it was.
pub proof fn remove_device_takes_one_device_out(
    root: Map<Seq<char>, TomlView>,
    request: JsonView,
    name: Seq<char>,
    devices: Seq<TomlView>,
    i: int,
    other: Seq<char>,
)
    requires
        request.get("device"@) == Some(JsonView::Text(name)),
        root.contains_key("device"@) && root["device"@] == TomlView::Sections(devices),
        0 <= i < devices.len(),
        named(devices[i], name),
        forall|j: int| 0 <= j < i ==> !named(#[trigger] devices[j], name),
        other != "device"@,
    ensures
        ({
            let out = managed("remove-device"@, root, request);
            let after = out.root["device"@]->Sections_0;
            &&& out.refused is None
            &&& out.root.contains_key("device"@)
            &&& out.root["device"@] is Sections
            &&& after.len() == devices.len() - 1
            &&& forall|j: int| 0 <= j < i ==> after[j] == devices[j]
            &&& forall|j: int| i <= j < after.len() ==> after[j] == devices[j + 1]
            &&& document::slot(out.root, other) == document::slot(root, other)
        }),
{
    lemma_verbs_differ();
    lemma_device_index_unique(devices, name, i);
}

/// What `set-config` is refused for, in this order: that it names no target, has no object to
/// merge, or names a target that is neither a section nor a device.
pub proof fn when_set_config_is_refused(
    root: Map<Seq<char>, TomlView>,
    request: JsonView,
    target: Seq<char>,
)
    ensures
        request.get_text("target"@) is None ==> managed("set-config"@, root, request).refused
            == Some("set-config requires a 'target'"@),
        request.get_text("target"@) is Some && !(request.get("config"@) is Some && request.get(
            "config"@,
        )->0 is Object) ==> managed("set-config"@, root, request).refused == Some(
            "set-config requires a 'config' object"@,
        ),
        request.get_text("target"@) == Some(target) && request.get("config"@) is Some
            && request.get("config"@)->0 is Object && target != "connector"@ && target != "mqtt"@
            && target != "connection"@ && !text::has_prefix(target, "device:"@) ==> managed(
            "set-config"@,
            root,
            request,
        ).refused == Some(
            "unknown set-config target '"@ + target
                + "' (expected connector, mqtt, connection or device:<name>)"@,
        ),
{
    lemma_verbs_differ();
}

/// What a request for a device is refused for where there is none of that name, and where there
/// are no devices at all.
pub proof fn when_a_device_is_not_found(
    root: Map<Seq<char>, TomlView>,
    set: JsonView,
    remove: JsonView,
    name: Seq<char>,
    devices: Seq<TomlView>,
)
    requires
        set.get_text("target"@) == Some("device:"@ + name),
        set.get("config"@) is Some && set.get("config"@)->0 is Object,
        remove.get("device"@) == Some(JsonView::Text(name)),
        forall|j: int| 0 <= j < devices.len() ==> !named(#[trigger] devices[j], name),
    ensures
        root.contains_key("device"@) && root["device"@] == TomlView::Sections(devices) ==> {
            &&& managed("set-config"@, root, set).refused == Some(
                "device '"@ + name + "' not found"@,
            )
            &&& managed("remove-device"@, root, remove).refused == Some(
                "device '"@ + name + "' not found"@,
            )
        },
        !root.contains_key("device"@) || !(root["device"@] is Sections) ==> {
            &&& managed("set-config"@, root, set).refused == Some("no devices are configured"@)
            &&& managed("remove-device"@, root, remove).refused == Some(
                "no devices are configured"@,
            )
        },
{
    lemma_verbs_differ();
    text::a_prefix_and_the_rest_make_the_text("device:"@ + name, "device:"@, name);
    lemma_device_index_unique(devices, name, devices.len() as int);
}

/// What `define-device` and `remove-device` are refused for where the request is not complete,
/// and that no other verb is understood.
pub proof fn when_a_request_is_not_complete(
    root: Map<Seq<char>, TomlView>,
    request: JsonView,
    verb: Seq<char>,
)
    requires
        verb != "set-config"@ && verb != "define-device"@ && verb != "remove-device"@,
    ensures
        !(request.get("device"@) is Some && request.get("device"@)->0 is Object) ==> managed(
            "define-device"@,
            root,
            request,
        ).refused == Some("define-device requires a 'device' object"@),
        request.get("device"@) is Some && request.get("device"@)->0 is Object && request.get(
            "device"@,
        )->0.get_text("name"@) is None ==> managed("define-device"@, root, request).refused
            == Some("device requires a 'name'"@),
        request.get("device"@) is Some && request.get("device"@)->0 is Object && request.get(
            "device"@,
        )->0.get_text("name"@) is Some && document::has_null(request.get("device"@)->0)
            ==> managed("define-device"@, root, request).refused == Some(
            "null values are not allowed in config"@,
        ),
        request.get_text("device"@) is None ==> managed("remove-device"@, root, request).refused
            == Some("remove-device requires a 'device' name string"@),
        managed(verb, root, request).refused == Some(
            "unsupported management verb '"@ + verb + "'"@,
        ),
        managed(verb, root, request).root == root,
{
    lemma_verbs_differ();
}

/// Why a candidate was refused is told by who refused it.
pub proof fn a_verdict_tells_who_refused(why: String, config: ConnectorConfig)
    ensures
        verdict_refusal(Verdict::Invalid(why)) == Some("resulting config is invalid: "@ + why@),
        verdict_refusal(Verdict::Unconfigurable(why)) == Some("configure failed: "@ + why@),
        verdict_refusal(Verdict::Accepted(config)) is None,
{
}

/// A device that a request defines stands in the proposed document as the request says, at every
/// depth, under a root that has an array of tables for its devices.
pub proof fn propose_keeps_a_defined_device(
    topic: &str,
    verb: &str,
    request: &Json,
    doc: &DocumentMut,
    r: Result<DocumentMut, Message>,
    members: Seq<(Seq<char>, JsonView)>,
    name: Seq<char>,
    devices: Seq<TomlView>,
    i: int,
)
    requires
        toml::document_root(*doc) is Section,
        call_ensures(propose, (topic, verb, request, doc), r),
        verb@ == "define-device"@,
        request@.get("device"@) == Some(JsonView::Object(members)),
        JsonView::Object(members).get("name"@) == Some(JsonView::Text(name)),
        !document::has_null(JsonView::Object(members)),
        root_of(*doc).contains_key("device"@) ==> root_of(*doc)["device"@] == TomlView::Sections(
            devices,
        ),
        !root_of(*doc).contains_key("device"@) ==> devices =~= Seq::<TomlView>::empty(),
        0 <= i <= devices.len(),
        i < devices.len() ==> named(devices[i], name),
        forall|j: int| 0 <= j < i ==> !named(#[trigger] devices[j], name),
    ensures
        r matches Ok(candidate) && (toml::document_root(candidate) matches TomlView::Section(
            root,
        ) && root.contains_key("device"@) && (root["device"@] matches TomlView::Sections(after)
            && i < after.len() && document::says(after[i], JsonView::Object(members)))),
{
    reveal_strlit("device");
    reveal_strlit("mqtt");
    assert("device"@.len() != "mqtt"@.len());
    define_device_writes_the_device(
        root_of(*doc),
        request@,
        members,
        name,
        devices,
        i,
        "mqtt"@,
    );
}

/// What a request sets in a section stands in the proposed document: under each key of the patch
/// what the patch says, but for an object that meets a table.
pub proof fn propose_keeps_a_patch(
    topic: &str,
    verb: &str,
    request: &Json,
    doc: &DocumentMut,
    r: Result<DocumentMut, Message>,
    target: Seq<char>,
    patch: Seq<(Seq<char>, JsonView)>,
    section: Map<Seq<char>, TomlView>,
    key: Seq<char>,
    v: JsonView,
)
    requires
        toml::document_root(*doc) is Section,
        call_ensures(propose, (topic, verb, request, doc), r),
        verb@ == "set-config"@,
        request@.get_text("target"@) == Some(target),
        request@.get("config"@) == Some(JsonView::Object(patch)),
        target == "connector"@ || target == "mqtt"@ || target == "connection"@,
        root_of(*doc).contains_key(target) ==> root_of(*doc)[target] == TomlView::Section(section),
        !root_of(*doc).contains_key(target) ==> section =~= Map::<
            Seq<char>,
            TomlView,
        >::empty(),
        json::distinct_keys(patch),
        !document::has_null(JsonView::Object(patch)),
        json::lookup(patch, key) == Some(v),
        !(v is Object),
    ensures
        r matches Ok(candidate) && (toml::document_root(candidate) matches TomlView::Section(
            root,
        ) && root.contains_key(target) && (root[target] matches TomlView::Section(after)
            && after.contains_key(key) && document::says(after[key], v))),
{
    set_config_writes_a_section(
        root_of(*doc),
        request@,
        target,
        patch,
        section,
        key,
        target.push('x'),
    );
}

} // verus!
