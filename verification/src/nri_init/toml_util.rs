//! Edits of containerd's configuration.

use toml_edit::{DocumentMut, Item, Table, Value};

use vstd::prelude::*;

use crate::text::str_eq;

verus! {

// ---------------------------------------------------------------------------
// Documents of the toml_edit crate
// ---------------------------------------------------------------------------

/// What stands at a key of a table.
#[derive(Debug)]
pub enum TomlItem {
    Table,
    /// An array of tables, by its text as an array of inline tables.
    ArrayOfTables(String),
    Bool(bool),
    Str(String),
    Int(i64),
    /// A value of another type (a float, a date, an array or an inline table), by its text.
    OtherValue(String),
}

/// What stands at a key of a table, as a value.
pub ghost enum Node {
    Table,
    ArrayOfTables(Seq<char>),
    Bool(bool),
    Str(Seq<char>),
    Int(i64),
    OtherValue(Seq<char>),
}

impl View for TomlItem {
    type V = Node;

    open spec fn view(&self) -> Node {
        match *self {
            TomlItem::Table => Node::Table,
            TomlItem::ArrayOfTables(s) => Node::ArrayOfTables(s@),
            TomlItem::Bool(b) => Node::Bool(b),
            TomlItem::Str(s) => Node::Str(s@),
            TomlItem::Int(i) => Node::Int(i),
            TomlItem::OtherValue(s) => Node::OtherValue(s@),
        }
    }
}

/// An item to be put into a table.
#[derive(Debug)]
pub enum NewItem {
    /// An empty table.
    Table,
    Bool(bool),
    Str(String),
    Int(i64),
}

impl View for NewItem {
    type V = Node;

    open spec fn view(&self) -> Node {
        match *self {
            NewItem::Table => Node::Table,
            NewItem::Bool(b) => Node::Bool(b),
            NewItem::Str(s) => Node::Str(s@),
            NewItem::Int(i) => Node::Int(i),
        }
    }
}

/// The items of a table and of the tables below it, each by the keys that lead to it. What is
/// inside arrays, inline tables and arrays of tables is told by their text alone.
pub type Items = Map<Seq<Seq<char>>, Node>;

/// The items below a key.
pub open spec fn below(m: Items, key: Seq<char>) -> Items {
    Map::new(
        |p: Seq<Seq<char>>| p.len() > 0 && m.dom().contains(seq![key] + p),
        |p: Seq<Seq<char>>| m[seq![key] + p],
    )
}

/// The items once those below a key are others.
pub open spec fn with_below(m: Items, key: Seq<char>, sub: Items) -> Items {
    Map::new(
        |p: Seq<Seq<char>>|
            if p.len() > 1 && p[0] == key {
                sub.dom().contains(p.drop_first())
            } else {
                m.dom().contains(p)
            },
        |p: Seq<Seq<char>>|
            if p.len() > 1 && p[0] == key {
                sub[p.drop_first()]
            } else {
                m[p]
            },
    )
}

/// The items once a key has a new item, without anything below it.
pub open spec fn with_item(m: Items, key: Seq<char>, node: Node) -> Items {
    Map::new(
        |p: Seq<Seq<char>>|
            if p.len() > 0 && p[0] == key {
                p.len() == 1
            } else {
                m.dom().contains(p)
            },
        |p: Seq<Seq<char>>|
            if p.len() > 0 && p[0] == key {
                node
            } else {
                m[p]
            },
    )
}

/// What stands at a key.
pub open spec fn item_of(m: Items, key: Seq<char>) -> Option<Node> {
    if m.dom().contains(seq![key]) {
        Some(m[seq![key]])
    } else {
        None
    }
}

#[verifier::external_type_specification]
#[verifier::external_body]
pub struct ExDocumentMut(DocumentMut);

#[verifier::external_type_specification]
#[verifier::external_body]
pub struct ExTable(Table);

/// The items of a `toml_edit::Table`.
pub uninterp spec fn table_items(table: Table) -> Map<Seq<Seq<char>>, Node>;

/// The items of a `toml_edit::DocumentMut` whose root is a table.
pub uninterp spec fn document_items(doc: DocumentMut) -> Option<Map<Seq<Seq<char>>, Node>>;

/// The text of a `toml_edit::DocumentMut`.
pub uninterp spec fn document_text(doc: DocumentMut) -> Seq<char>;

/// The items of the document that a text is, or what is wrong with it.
pub uninterp spec fn parsed_document(text: Seq<char>) -> Result<
    Map<Seq<Seq<char>>, Node>,
    Seq<char>,
>;

/// Reads a document: `DocumentMut::from_str`. The document has the items that the text gives, and
/// its root is a table; an error is told by its text.
#[verifier::external_body]
pub(crate) fn parse_document(text: &str) -> (r: Result<DocumentMut, String>)
    ensures
        match r {
            Ok(doc) => document_items(doc) is Some && parsed_document(text@) == Ok::<
                Map<Seq<Seq<char>>, Node>,
                Seq<char>,
            >(document_items(doc).unwrap()),
            Err(e) => parsed_document(text@) == Err::<Map<Seq<Seq<char>>, Node>, Seq<char>>(e@),
        },
{
    text.parse::<DocumentMut>().map_err(|e| e.to_string())
}

/// The text of a document: its `Display`, which needs a root that is a table. That the text reads back as the same items is not
/// stated.
#[verifier::external_body]
pub(crate) fn render_document(doc: &DocumentMut) -> (r: String)
    requires
        document_items(*doc) is Some,
    ensures
        r@ == document_text(*doc),
{
    doc.to_string()
}

/// The root table: `DocumentMut::as_table`, which needs a root that is a table.
#[verifier::external_body]
pub(crate) fn root_table(doc: &DocumentMut) -> (r: &Table)
    requires
        document_items(*doc) is Some,
    ensures
        document_items(*doc) == Some(table_items(*r)),
{
    doc.as_table()
}

/// The root table to be changed: `DocumentMut::as_table_mut`, which needs a root that is a table.
/// The document has then the items of the changed table; where the table is left as it was, so is
/// the document.
#[verifier::external_body]
pub(crate) fn root_table_mut(doc: &mut DocumentMut) -> (r: &mut Table)
    requires
        document_items(*old(doc)) is Some,
    ensures
        document_items(*old(doc)) == Some(table_items(*r)),
        document_items(*final(doc)) == Some(table_items(*final(r))),
        *final(r) == *r ==> *final(doc) == *old(doc),
{
    doc.as_table_mut()
}

/// Puts an item at a key of the root: `IndexMut` of `DocumentMut`, and an assignment. What stood
/// at the key, and below it, is gone, and all else stays.
#[verifier::external_body]
pub(crate) fn set_root_item(doc: &mut DocumentMut, key: &str, item: NewItem)
    requires
        document_items(*old(doc)) is Some,
    ensures
        document_items(*final(doc)) == Some(
            with_item(document_items(*old(doc)).unwrap(), key@, item@),
        ),
{
    doc[key] = match item {
        NewItem::Table => Item::Table(Table::new()),
        NewItem::Bool(b) => toml_edit::value(b),
        NewItem::Str(s) => toml_edit::value(s),
        NewItem::Int(i) => toml_edit::value(i),
    };
}

/// What stands at a key: `Table::get`. A value that is no truth value, string or integer, and an
/// array of tables, are told by their `Display`.
#[verifier::external_body]
pub(crate) fn get_item(table: &Table, key: &str) -> (r: Option<TomlItem>)
    ensures
        match r {
            Some(item) => item_of(table_items(*table), key@) == Some(item@),
            None => item_of(table_items(*table), key@) is None,
        },
{
    table.get(key).map(|item| match item {
        Item::Table(_) => TomlItem::Table,
        Item::ArrayOfTables(a) => TomlItem::ArrayOfTables(a.to_string()),
        Item::Value(Value::Boolean(b)) => TomlItem::Bool(*b.value()),
        Item::Value(Value::String(s)) => TomlItem::Str(s.value().clone()),
        Item::Value(Value::Integer(i)) => TomlItem::Int(*i.value()),
        Item::Value(v) => TomlItem::OtherValue(v.to_string()),
        Item::None => TomlItem::OtherValue(String::new()),
    })
}

/// The table at a key, to be changed: `Table::get_mut` and `Item::as_table_mut`. The table above
/// has then the items of the changed one below the key, and all else stays; where the one is left
/// as it was, so is the other.
#[verifier::external_body]
pub(crate) fn sub_table_mut<'a>(table: &'a mut Table, key: &str) -> (r: &'a mut Table)
    requires
        item_of(table_items(*old(table)), key@) == Some(Node::Table),
    ensures
        table_items(*r) == below(table_items(*old(table)), key@),
        table_items(*final(table)) == with_below(
            table_items(*old(table)),
            key@,
            table_items(*final(r)),
        ),
        *final(r) == *r ==> *final(table) == *old(table),
{
    table.get_mut(key).and_then(|item| item.as_table_mut()).unwrap()
}

/// Puts an item at a key: `Table::insert`. What stood at the key, and below it, is gone, and all
/// else stays.
#[verifier::external_body]
pub(crate) fn insert_item(table: &mut Table, key: &str, item: NewItem)
    ensures
        table_items(*final(table)) == with_item(table_items(*old(table)), key@, item@),
{
    let item = match item {
        NewItem::Table => Item::Table(Table::new()),
        NewItem::Bool(b) => toml_edit::value(b),
        NewItem::Str(s) => toml_edit::value(s),
        NewItem::Int(i) => toml_edit::value(i),
    };
    table.insert(key, item);
}

// ---------------------------------------------------------------------------
// The configuration
// ---------------------------------------------------------------------------

/// The key of the plugin interface's section below `plugins`.
pub const NRI_KEY: &'static str = "io.containerd.nri.v1.nri";

/// The configuration with a version: the second where it gives none.
pub open spec fn with_version(m: Items) -> Items {
    if item_of(m, "version"@) is Some {
        m
    } else {
        with_item(m, "version"@, Node::Int(2))
    }
}

/// The items with one at a key where there was none.
pub open spec fn with_default(m: Items, key: Seq<char>, node: Node) -> Items {
    if item_of(m, key) is Some {
        m
    } else {
        with_item(m, key, node)
    }
}

/// Whether an item leaves the plugin interface enabled: a value that is not `true`.
pub open spec fn leaves_enabled(item: Option<Node>) -> bool {
    match item {
        None => false,
        Some(Node::Table) => false,
        Some(Node::ArrayOfTables(_)) => false,
        Some(Node::Bool(b)) => !b,
        Some(_) => true,
    }
}

/// A section that enables the plugin interface at a socket. Settings other than these two stay as
/// they are where they are given.
pub open spec fn enabled_section(t: Items, socket_path: Seq<char>) -> Items {
    let t1 = if leaves_enabled(item_of(t, "disable"@)) {
        t
    } else {
        with_item(t, "disable"@, Node::Bool(false))
    };
    let t2 = with_default(t1, "disable_connections"@, Node::Bool(false));
    let t3 = with_default(t2, "plugin_config_path"@, Node::Str("/etc/nri/conf.d"@));
    let t4 = with_default(t3, "plugin_path"@, Node::Str("/opt/nri/plugins"@));
    let t5 = with_default(t4, "plugin_registration_timeout"@, Node::Str("5s"@));
    let t6 = with_default(t5, "plugin_request_timeout"@, Node::Str("2s"@));
    if item_of(t6, "socket_path"@) == Some(Node::Str(socket_path)) {
        t6
    } else {
        with_item(t6, "socket_path"@, Node::Str(socket_path))
    }
}

/// The items with a table at a key.
pub open spec fn with_table(m: Items, key: Seq<char>) -> Items {
    if item_of(m, key) == Some(Node::Table) {
        m
    } else {
        with_item(m, key, Node::Table)
    }
}

/// The configuration that enables the plugin interface at a socket.
pub open spec fn enabled(m: Items, socket_path: Seq<char>) -> Items {
    let m1 = with_table(m, "plugins"@);
    let plugins = with_table(below(m1, "plugins"@), NRI_KEY@);
    with_below(
        m1,
        "plugins"@,
        with_below(plugins, NRI_KEY@, enabled_section(below(plugins, NRI_KEY@), socket_path)),
    )
}

/// Adds a version to the configuration where it gives none, and says whether that was so.
pub fn ensure_version2(doc: &mut DocumentMut) -> (changed: bool)
    requires
        document_items(*old(doc)) is Some,
    ensures
        document_items(*final(doc)) == Some(with_version(document_items(*old(doc)).unwrap())),
        changed == (item_of(document_items(*old(doc)).unwrap(), "version"@) is None),
        !changed ==> *final(doc) == *old(doc),
{
    if get_item(root_table(doc), "version").is_none() {
        set_root_item(doc, "version", NewItem::Int(2));
        true
    } else {
        false
    }
}

/// Puts an item at a key where there is none, and says whether that was so.
fn ensure_default(t: &mut Table, key: &str, item: NewItem) -> (changed: bool)
    ensures
        table_items(*final(t)) == with_default(table_items(*old(t)), key@, item@),
        changed == (item_of(table_items(*old(t)), key@) is None),
        !changed ==> *final(t) == *old(t),
{
    if get_item(t, key).is_none() {
        insert_item(t, key, item);
        true
    } else {
        false
    }
}

/// Makes a section enable the plugin interface, and says whether it was changed.
fn ensure_section(t: &mut Table, socket_path: &str) -> (changed: bool)
    ensures
        table_items(*final(t)) == enabled_section(table_items(*old(t)), socket_path@),
        !changed ==> *final(t) == *old(t),
        changed == section_changes(table_items(*old(t)), socket_path@),
{
    let mut changed: bool = false;
    let disable_kept: bool = match get_item(t, "disable") {
        None => false,
        Some(TomlItem::Table) => false,
        Some(TomlItem::ArrayOfTables(_)) => false,
        Some(TomlItem::Bool(b)) => !b,
        Some(_) => true,
    };
    if !disable_kept {
        insert_item(t, "disable", NewItem::Bool(false));
        changed = true;
    }
    if ensure_default(t, "disable_connections", NewItem::Bool(false)) {
        changed = true;
    }
    if ensure_default(t, "plugin_config_path", NewItem::Str("/etc/nri/conf.d".to_string())) {
        changed = true;
    }
    if ensure_default(t, "plugin_path", NewItem::Str("/opt/nri/plugins".to_string())) {
        changed = true;
    }
    if ensure_default(t, "plugin_registration_timeout", NewItem::Str("5s".to_string())) {
        changed = true;
    }
    if ensure_default(t, "plugin_request_timeout", NewItem::Str("2s".to_string())) {
        changed = true;
    }
    let socket_kept: bool = match get_item(t, "socket_path") {
        Some(TomlItem::Str(s)) => str_eq(s.as_str(), socket_path),
        _ => false,
    };
    if !socket_kept {
        insert_item(t, "socket_path", NewItem::Str(socket_path.to_string()));
        changed = true;
    }
    proof {
        lemma_keys_differ();
    }
    changed
}

/// Whether a section is changed to enable the plugin interface.
pub open spec fn section_changes(t: Items, socket_path: Seq<char>) -> bool {
    ||| !leaves_enabled(item_of(t, "disable"@))
    ||| item_of(t, "disable_connections"@) is None
    ||| item_of(t, "plugin_config_path"@) is None
    ||| item_of(t, "plugin_path"@) is None
    ||| item_of(t, "plugin_registration_timeout"@) is None
    ||| item_of(t, "plugin_request_timeout"@) is None
    ||| item_of(t, "socket_path"@) != Some(Node::Str(socket_path))
}

/// Whether a configuration is changed to enable the plugin interface.
pub open spec fn enabling_changes(m: Items, socket_path: Seq<char>) -> bool {
    ||| item_of(m, "plugins"@) != Some(Node::Table)
    ||| item_of(below(m, "plugins"@), NRI_KEY@) != Some(Node::Table)
    ||| section_changes(below(below(m, "plugins"@), NRI_KEY@), socket_path)
}

/// Makes the configuration enable the plugin interface at a socket, and says whether it was
/// changed.
pub fn ensure_nri_section(doc: &mut DocumentMut, socket_path: &str) -> (changed: bool)
    requires
        document_items(*old(doc)) is Some,
    ensures
        document_items(*final(doc)) == Some(
            enabled(document_items(*old(doc)).unwrap(), socket_path@),
        ),
        !changed ==> *final(doc) == *old(doc),
        changed == enabling_changes(document_items(*old(doc)).unwrap(), socket_path@),
{
    let ghost m0 = document_items(*doc).unwrap();
    let mut changed: bool = false;
    let has_plugins: bool = match get_item(root_table(doc), "plugins") {
        Some(TomlItem::Table) => true,
        _ => false,
    };
    if !has_plugins {
        set_root_item(doc, "plugins", NewItem::Table);
        changed = true;
    }
    let root = root_table_mut(doc);
    let plugins = sub_table_mut(root, "plugins");
    let has_section: bool = match get_item(plugins, NRI_KEY) {
        Some(TomlItem::Table) => true,
        _ => false,
    };
    if !has_section {
        insert_item(plugins, NRI_KEY, NewItem::Table);
        changed = true;
    }
    let section = sub_table_mut(plugins, NRI_KEY);
    if ensure_section(section, socket_path) {
        changed = true;
    }
    proof {
        lemma_new_table_empty(m0, "plugins"@);
        lemma_new_table_empty(below(with_table(m0, "plugins"@), "plugins"@), NRI_KEY@);
    }
    changed
}

proof fn lemma_keys_differ()
    ensures
        "disable"@ != "disable_connections"@,
        "disable"@ != "plugin_config_path"@,
        "disable"@ != "plugin_path"@,
        "disable"@ != "plugin_registration_timeout"@,
        "disable"@ != "plugin_request_timeout"@,
        "disable"@ != "socket_path"@,
        "disable_connections"@ != "plugin_config_path"@,
        "disable_connections"@ != "plugin_path"@,
        "disable_connections"@ != "plugin_registration_timeout"@,
        "disable_connections"@ != "plugin_request_timeout"@,
        "disable_connections"@ != "socket_path"@,
        "plugin_config_path"@ != "plugin_path"@,
        "plugin_config_path"@ != "plugin_registration_timeout"@,
        "plugin_config_path"@ != "plugin_request_timeout"@,
        "plugin_config_path"@ != "socket_path"@,
        "plugin_path"@ != "plugin_registration_timeout"@,
        "plugin_path"@ != "plugin_request_timeout"@,
        "plugin_path"@ != "socket_path"@,
        "plugin_registration_timeout"@ != "plugin_request_timeout"@,
        "plugin_registration_timeout"@ != "socket_path"@,
        "plugin_request_timeout"@ != "socket_path"@,
{
    reveal_strlit("disable");
    reveal_strlit("disable_connections");
    reveal_strlit("plugin_config_path");
    reveal_strlit("plugin_path");
    reveal_strlit("plugin_registration_timeout");
    reveal_strlit("plugin_request_timeout");
    reveal_strlit("socket_path");
    assert("disable"@.len() == 7);
    assert("disable_connections"@.len() == 19);
    assert("plugin_config_path"@.len() == 18);
    assert("plugin_path"@.len() == 11);
    assert("plugin_registration_timeout"@.len() == 27);
    assert("plugin_request_timeout"@.len() == 22);
    assert("socket_path"@.len() == 11);
    assert("plugin_path"@[0] == 'p');
    assert("socket_path"@[0] == 's');
}

proof fn lemma_with_item(m: Items, key: Seq<char>, node: Node, other: Seq<char>)
    ensures
        item_of(with_item(m, key, node), key) == Some(node),
        other != key ==> item_of(with_item(m, key, node), other) == item_of(m, other),
{
    assert(seq![key][0] == key);
    assert(seq![other][0] == other);
}

proof fn lemma_new_table_empty(m: Items, key: Seq<char>)
    ensures
        item_of(m, key) != Some(Node::Table) ==> below(with_table(m, key), key) =~= Map::<
            Seq<Seq<char>>,
            Node,
        >::empty(),
{
}

proof fn lemma_below_of_with_below(m: Items, key: Seq<char>, sub: Items)
    requires
        forall|p: Seq<Seq<char>>| #[trigger] sub.dom().contains(p) ==> p.len() > 0,
    ensures
        below(with_below(m, key, sub), key) == sub,
        item_of(with_below(m, key, sub), key) == item_of(m, key),
{
    assert forall|p: Seq<Seq<char>>| p.len() > 0 implies (seq![key] + p).drop_first() == p by {
        assert((seq![key] + p).drop_first() =~= p);
    }
    assert(below(with_below(m, key, sub), key) =~= sub);
}

proof fn lemma_with_below_of_below(m: Items, key: Seq<char>)
    ensures
        with_below(m, key, below(m, key)) == m,
{
    assert forall|p: Seq<Seq<char>>| p.len() > 1 && p[0] == key implies seq![key]
        + p.drop_first() == p by {
        assert(seq![key] + p.drop_first() =~= p);
    }
    assert(with_below(m, key, below(m, key)) =~= m);
}

proof fn lemma_section_paths(t: Items, socket_path: Seq<char>)
    requires
        forall|p: Seq<Seq<char>>| #[trigger] t.dom().contains(p) ==> p.len() > 0,
    ensures
        forall|p: Seq<Seq<char>>| #[trigger]
            enabled_section(t, socket_path).dom().contains(p) ==> p.len() > 0,
{
}

/// A section that enables the plugin interface is not changed again, and it gives the socket and
/// does not disable.
pub proof fn law_section_is_settled(t: Items, socket_path: Seq<char>)
    ensures
        !section_changes(enabled_section(t, socket_path), socket_path),
        leaves_enabled(item_of(enabled_section(t, socket_path), "disable"@)),
        item_of(enabled_section(t, socket_path), "socket_path"@) == Some(Node::Str(socket_path)),
{
    lemma_keys_differ();
}

/// A section that is not changed stays as it is.
pub proof fn law_settled_section_stays(t: Items, socket_path: Seq<char>)
    requires
        !section_changes(t, socket_path),
    ensures
        enabled_section(t, socket_path) == t,
{
}

/// A configuration that enables the plugin interface is not changed again.
pub proof fn law_enabling_is_idempotent(m: Items, socket_path: Seq<char>)
    ensures
        !enabling_changes(enabled(m, socket_path), socket_path),
        enabled(enabled(m, socket_path), socket_path) == enabled(m, socket_path),
{
    let m1 = with_table(m, "plugins"@);
    let plugins = with_table(below(m1, "plugins"@), NRI_KEY@);
    let section = enabled_section(below(plugins, NRI_KEY@), socket_path);
    let filled = with_below(plugins, NRI_KEY@, section);
    let once = enabled(m, socket_path);
    lemma_section_paths(below(plugins, NRI_KEY@), socket_path);
    lemma_below_of_with_below(plugins, NRI_KEY@, section);
    lemma_below_of_with_below(m1, "plugins"@, filled);
    law_section_is_settled(below(plugins, NRI_KEY@), socket_path);
    lemma_with_item(m, "plugins"@, Node::Table, "plugins"@);
    lemma_with_item(below(m1, "plugins"@), NRI_KEY@, Node::Table, NRI_KEY@);
    assert(below(once, "plugins"@) == filled);
    assert(below(filled, NRI_KEY@) == section);
    law_settled_section_stays(section, socket_path);
    lemma_with_below_of_below(filled, NRI_KEY@);
    lemma_with_below_of_below(once, "plugins"@);
}

/// Nothing but the section is changed: what is not below `plugins` stays, and where `plugins` is a
/// table, so does what is below another of its keys.
pub proof fn law_enabling_keeps_the_rest(m: Items, socket_path: Seq<char>, p: Seq<Seq<char>>)
    requires
        p.len() == 0 || p[0] != "plugins"@ || (item_of(m, "plugins"@) == Some(Node::Table) && (
        p.len() == 1 || p[1] != NRI_KEY@)),
    ensures
        enabled(m, socket_path).dom().contains(p) == m.dom().contains(p),
        m.dom().contains(p) ==> enabled(m, socket_path)[p] == m[p],
{
    if p.len() > 1 && p[0] == "plugins"@ {
        assert(p.drop_first()[0] == p[1]);
        assert(seq![p[0]] + p.drop_first() =~= p);
    }
}

/// Adding a version changes nothing where one is given, and else that key alone.
pub proof fn law_version_is_idempotent(m: Items)
    ensures
        with_version(with_version(m)) == with_version(m),
        forall|p: Seq<Seq<char>>|
            #![trigger with_version(m).dom().contains(p)]
            p.len() == 0 || p[0] != "version"@ ==> with_version(m).dom().contains(p)
                == m.dom().contains(p) && (m.dom().contains(p) ==> with_version(m)[p] == m[p]),
{
    lemma_with_item(m, "version"@, Node::Int(2), "version"@);
}

}
