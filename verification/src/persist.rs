//! Edits of the configuration text that keep the user's comments and
//! formatting, done on a `toml_edit` document. Reading the file and
//! writing it back atomically is the caller's part; these functions take
//! the text and return the edited text. The contracts state which
//! entries, fields, tables and comments the edited document holds; the
//! returned text is that document's `Display`, and its whitespace and
//! layout are left to `toml_edit`.

use vstd::prelude::*;
use vstd::multiset::Multiset;

use crate::config::{Wakeword, DEFAULT_COOLDOWN_MS, DEFAULT_ENABLED};
use crate::text::str_eq;

verus! {
#[verifier::external_type_specification]
#[verifier::external_body]
pub struct ExDocumentMut(toml_edit::DocumentMut);

#[verifier::external_type_specification]
#[verifier::external_body]
pub struct ExTomlError(toml_edit::TomlError);

#[verifier::external_type_specification]
#[verifier::external_body]
pub struct ExTomlValue(toml_edit::Value);

/// A value written into a table of the document.
#[derive(Debug, Clone, PartialEq, Eq)]
pub enum FieldValue {
    Bool(bool),
    Int(i64),
    Str(String),
}

/// A value of the document, as the contracts see it: a boolean, an
/// integer, a string, or something else (a float, a date, an array...).
pub ghost enum Scalar {
    Bool(bool),
    Int(int),
    Str(Seq<char>),
    Other,
}

impl View for FieldValue {
    type V = Scalar;

    open spec fn view(&self) -> Scalar {
        match self {
            FieldValue::Bool(b) => Scalar::Bool(*b),
            FieldValue::Int(i) => Scalar::Int(*i as int),
            FieldValue::Str(s) => Scalar::Str(s@),
        }
    }
}

/// What a top-level entry of a document is.
#[derive(Debug, Clone, Copy, PartialEq, Eq, Structural)]
pub enum EntryKind {
    /// There is no entry under the key.
    Missing,
    /// The entry is a (standard) table.
    Table,
    /// The entry is something else.
    Other,
}

/// Whether `text` is a TOML document.
pub uninterp spec fn toml_parses(text: Seq<char>) -> bool;

/// The `wakeword` entry of the document `text` parses to: the `name`
/// strings of its tables (none for a table without a string `name`), no
/// tables when the entry is missing, and `None` when it is something
/// other than an array of tables.
pub uninterp spec fn text_wakewords(text: Seq<char>) -> Option<Seq<Option<Seq<char>>>>;

/// What a document's `wakeword` entry holds, in the same form.
pub uninterp spec fn doc_wakewords(doc: toml_edit::DocumentMut) -> Option<Seq<Option<Seq<char>>>>;

/// The kind of the top-level entry `key` of the document `text` parses to.
pub uninterp spec fn text_entry_kind(text: Seq<char>, key: Seq<char>) -> EntryKind;

/// The kind of the top-level entry `key` of a document.
pub uninterp spec fn doc_entry_kind(doc: toml_edit::DocumentMut, key: Seq<char>) -> EntryKind;

/// The value stored under `key` in the `index`-th table of the `wakeword`
/// array of tables of the document `text` parses to; `None` when there is
/// no such table or no such key.
pub uninterp spec fn text_wakeword_field(text: Seq<char>, index: int, key: Seq<char>) -> Option<Scalar>;

/// The same for a document.
pub uninterp spec fn doc_wakeword_field(doc: toml_edit::DocumentMut, index: int, key: Seq<char>) -> Option<Scalar>;

/// The value stored under `key` in the top-level table `table` of the
/// document `text` parses to; `None` when `table` is not a table or has
/// no such key.
pub uninterp spec fn text_table_field(text: Seq<char>, table: Seq<char>, key: Seq<char>) -> Option<Scalar>;

/// The same for a document.
pub uninterp spec fn doc_table_field(doc: toml_edit::DocumentMut, table: Seq<char>, key: Seq<char>) -> Option<Scalar>;

/// The text of a document (`Display`).
pub uninterp spec fn doc_text(doc: toml_edit::DocumentMut) -> Seq<char>;

/// What a TOML value holds, as the contracts see it.
pub uninterp spec fn value_scalar(v: toml_edit::Value) -> Scalar;

/// The comments a TOML value holds (in its decor and inside it).
pub uninterp spec fn value_comments(v: toml_edit::Value) -> Multiset<Seq<char>>;

/// The comments an optional value holds; none for `None`.
pub open spec fn opt_value_comments(v: Option<toml_edit::Value>) -> Multiset<Seq<char>> {
    match v {
        Some(x) => value_comments(x),
        None => Multiset::empty(),
    }
}

/// The comments (each from `#` to the end of its line) of the document
/// `text` parses to, wherever they stand.
pub uninterp spec fn text_comments(text: Seq<char>) -> Multiset<Seq<char>>;

/// The comments a document holds, wherever they stand (in the decor of
/// its tables, keys and values, and after its last item).
pub uninterp spec fn doc_comments(doc: toml_edit::DocumentMut) -> Multiset<Seq<char>>;

/// The comments the `index`-th table of the `wakeword` array of tables of
/// the document `text` parses to holds: in its decor (before and on its
/// header) and in its keys and values; none when there is no such table.
pub uninterp spec fn text_entry_comments(text: Seq<char>, index: int) -> Multiset<Seq<char>>;

/// The same for a document.
pub uninterp spec fn doc_entry_comments(doc: toml_edit::DocumentMut, index: int) -> Multiset<Seq<char>>;

/// The comments the item under `key` of the `index`-th `wakeword` table
/// of the document `text` parses to holds (in its decor and inside it,
/// not in the key's own decor); none when there is no such item.
pub uninterp spec fn text_field_comments(text: Seq<char>, index: int, key: Seq<char>) -> Multiset<Seq<char>>;

/// The same for a document.
pub uninterp spec fn doc_field_comments(doc: toml_edit::DocumentMut, index: int, key: Seq<char>) -> Multiset<Seq<char>>;

/// The comments the item under `key` of the top-level table `table` of
/// the document `text` parses to holds; none when there is no such item.
pub uninterp spec fn text_table_field_comments(text: Seq<char>, table: Seq<char>, key: Seq<char>) -> Multiset<Seq<char>>;

/// The same for a document.
pub uninterp spec fn doc_table_field_comments(doc: toml_edit::DocumentMut, table: Seq<char>, key: Seq<char>) -> Multiset<Seq<char>>;

/// `d` holds what `text` parses to: the same wakeword entries, the same
/// fields in them and in the top-level tables, the same kinds of
/// top-level entries.
pub open spec fn doc_of_text(d: toml_edit::DocumentMut, text: Seq<char>) -> bool {
    &&& doc_wakewords(d) == text_wakewords(text)
    &&& forall|i: int, k: Seq<char>| #[trigger] doc_wakeword_field(d, i, k) == text_wakeword_field(text, i, k)
    &&& forall|t: Seq<char>, k: Seq<char>| #[trigger] doc_table_field(d, t, k) == text_table_field(text, t, k)
    &&& forall|k: Seq<char>| #[trigger] doc_entry_kind(d, k) == text_entry_kind(text, k)
    &&& doc_comments(d) == text_comments(text)
    &&& forall|i: int| #[trigger] doc_entry_comments(d, i) == text_entry_comments(text, i)
    &&& forall|i: int, k: Seq<char>| #[trigger] doc_field_comments(d, i, k) == text_field_comments(text, i, k)
    &&& forall|t: Seq<char>, k: Seq<char>| #[trigger] doc_table_field_comments(d, t, k) == text_table_field_comments(text, t, k)
}

/// `str::parse::<toml_edit::DocumentMut>`.
#[verifier::external_body]
fn parse_doc(text: &str) -> (r: Result<toml_edit::DocumentMut, toml_edit::TomlError>)
    ensures
        r is Ok <==> toml_parses(text@),
        r matches Ok(d) ==> doc_wakewords(d) == text_wakewords(text@),
        r matches Ok(d) ==> forall|i: int, k: Seq<char>| #[trigger] doc_wakeword_field(d, i, k) == text_wakeword_field(text@, i, k),
        r matches Ok(d) ==> forall|t: Seq<char>, k: Seq<char>| #[trigger] doc_table_field(d, t, k) == text_table_field(text@, t, k),
        r matches Ok(d) ==> forall|k: Seq<char>| #[trigger] doc_entry_kind(d, k) == text_entry_kind(text@, k),
        r matches Ok(d) ==> doc_comments(d) == text_comments(text@),
        r matches Ok(d) ==> forall|i: int| #[trigger] doc_entry_comments(d, i) == text_entry_comments(text@, i),
        r matches Ok(d) ==> forall|i: int, k: Seq<char>| #[trigger] doc_field_comments(d, i, k) == text_field_comments(text@, i, k),
        r matches Ok(d) ==> forall|t: Seq<char>, k: Seq<char>|
            #[trigger] doc_table_field_comments(d, t, k) == text_table_field_comments(text@, t, k),
{
    text.parse::<toml_edit::DocumentMut>()
}

/// The `name` of each table of the document's `wakeword` array of
/// tables (via `Table::get`, `Item::as_value`, `Value::as_str`).
#[verifier::external_body]
fn wakeword_names(doc: &toml_edit::DocumentMut) -> (r: Option<Vec<Option<String>>>)
    ensures
        match r {
            Some(v) => doc_wakewords(*doc) == Some(v@.map_values(|n: Option<String>| match n {
                Some(s) => Some(s@),
                None => None,
            })),
            None => doc_wakewords(*doc) is None,
        },
{
    match doc.get("wakeword") {
        Some(toml_edit::Item::ArrayOfTables(arr)) => Some(
            arr.iter().map(|t| t.get("name").and_then(toml_edit::Item::as_value).and_then(toml_edit::Value::as_str).map(str::to_owned)).collect(),
        ),
        Some(_) => None,
        None => Some(Vec::new()),
    }
}

/// `ArrayOfTables::remove` on the document's `wakeword` array: the tables
/// after `index` move up by one, the comments the removed table held go
/// with it, nothing else changes.
#[verifier::external_body]
fn remove_wakeword_table(doc: &mut toml_edit::DocumentMut, index: usize)
    requires
        doc_wakewords(*old(doc)) is Some,
        index < doc_wakewords(*old(doc))->Some_0.len(),
    ensures
        doc_wakewords(*final(doc)) == Some(doc_wakewords(*old(doc))->Some_0.remove(index as int)),
        forall|i: int, k: Seq<char>| #[trigger] doc_wakeword_field(*final(doc), i, k)
            == doc_wakeword_field(*old(doc), if i < index { i } else { i + 1 }, k),
        forall|t: Seq<char>, k: Seq<char>| #[trigger] doc_table_field(*final(doc), t, k) == doc_table_field(*old(doc), t, k),
        forall|k: Seq<char>| #[trigger] doc_entry_kind(*final(doc), k) == doc_entry_kind(*old(doc), k),
        doc_comments(*final(doc)) == doc_comments(*old(doc)).sub(doc_entry_comments(*old(doc), index as int)),
{
    if let Some(arr) = doc.get_mut("wakeword").and_then(toml_edit::Item::as_array_of_tables_mut) {
        arr.remove(index);
    }
}

/// The text of the document (`to_string`).
#[verifier::external_body]
fn render(doc: &toml_edit::DocumentMut) -> (s: String)
    ensures
        s@ == doc_text(*doc),
{
    doc.to_string()
}

/// `table[key] = toml_edit::value(v)` on the `index`-th table of the
/// document's `wakeword` array: that field holds `v` afterwards, the
/// comments the replaced item held go with it (the new one holds none),
/// and no other field, comment, table or entry changes (the key is not
/// `name`).
#[verifier::external_body]
fn set_wakeword_field(doc: &mut toml_edit::DocumentMut, index: usize, key: &str, v: FieldValue)
    requires
        doc_wakewords(*old(doc)) is Some,
        index < doc_wakewords(*old(doc))->Some_0.len(),
        key@ != "name"@,
    ensures
        doc_wakewords(*final(doc)) == doc_wakewords(*old(doc)),
        doc_wakeword_field(*final(doc), index as int, key@) == Some(v@),
        forall|i: int, k: Seq<char>| (i != index || k != key@) ==>
            #[trigger] doc_wakeword_field(*final(doc), i, k) == doc_wakeword_field(*old(doc), i, k),
        forall|t: Seq<char>, k: Seq<char>| #[trigger] doc_table_field(*final(doc), t, k) == doc_table_field(*old(doc), t, k),
        forall|k: Seq<char>| #[trigger] doc_entry_kind(*final(doc), k) == doc_entry_kind(*old(doc), k),
        doc_comments(*final(doc)) == doc_comments(*old(doc)).sub(doc_field_comments(*old(doc), index as int, key@)),
        doc_entry_comments(*final(doc), index as int)
            == doc_entry_comments(*old(doc), index as int).sub(doc_field_comments(*old(doc), index as int, key@)),
        forall|i: int| i != index ==> #[trigger] doc_entry_comments(*final(doc), i) == doc_entry_comments(*old(doc), i),
        doc_field_comments(*final(doc), index as int, key@) =~= Multiset::<Seq<char>>::empty(),
        forall|i: int, k: Seq<char>| (i != index || k != key@) ==>
            #[trigger] doc_field_comments(*final(doc), i, k) == doc_field_comments(*old(doc), i, k),
        forall|t: Seq<char>, k: Seq<char>|
            #[trigger] doc_table_field_comments(*final(doc), t, k) == doc_table_field_comments(*old(doc), t, k),
{
    if let Some(t) = doc.get_mut("wakeword").and_then(toml_edit::Item::as_array_of_tables_mut).and_then(|a| a.get_mut(index)) {
        t[key] = match v {
            FieldValue::Bool(b) => toml_edit::value(b),
            FieldValue::Int(i) => toml_edit::value(i),
            FieldValue::Str(x) => toml_edit::value(x),
        };
    }
}

/// `table[key] = Item::Value(v)` on the `index`-th table of the
/// document's `wakeword` array: that field holds `v` afterwards (its
/// comments replacing the old item's), and no other field, table or
/// entry changes (the key is not `name`).
#[verifier::external_body]
fn set_wakeword_value(doc: &mut toml_edit::DocumentMut, index: usize, key: &str, v: toml_edit::Value)
    requires
        doc_wakewords(*old(doc)) is Some,
        index < doc_wakewords(*old(doc))->Some_0.len(),
        key@ != "name"@,
    ensures
        doc_wakewords(*final(doc)) == doc_wakewords(*old(doc)),
        doc_wakeword_field(*final(doc), index as int, key@) == Some(value_scalar(v)),
        forall|i: int, k: Seq<char>| (i != index || k != key@) ==>
            #[trigger] doc_wakeword_field(*final(doc), i, k) == doc_wakeword_field(*old(doc), i, k),
        forall|t: Seq<char>, k: Seq<char>| #[trigger] doc_table_field(*final(doc), t, k) == doc_table_field(*old(doc), t, k),
        forall|k: Seq<char>| #[trigger] doc_entry_kind(*final(doc), k) == doc_entry_kind(*old(doc), k),
        doc_comments(*final(doc))
            == doc_comments(*old(doc)).sub(doc_field_comments(*old(doc), index as int, key@)).add(value_comments(v)),
        doc_entry_comments(*final(doc), index as int) == doc_entry_comments(*old(doc), index as int).sub(
            doc_field_comments(*old(doc), index as int, key@),
        ).add(value_comments(v)),
        forall|i: int| i != index ==> #[trigger] doc_entry_comments(*final(doc), i) == doc_entry_comments(*old(doc), i),
        doc_field_comments(*final(doc), index as int, key@) == value_comments(v),
        forall|i: int, k: Seq<char>| (i != index || k != key@) ==>
            #[trigger] doc_field_comments(*final(doc), i, k) == doc_field_comments(*old(doc), i, k),
        forall|t: Seq<char>, k: Seq<char>|
            #[trigger] doc_table_field_comments(*final(doc), t, k) == doc_table_field_comments(*old(doc), t, k),
{
    if let Some(t) = doc.get_mut("wakeword").and_then(toml_edit::Item::as_array_of_tables_mut).and_then(|a| a.get_mut(index)) {
        t[key] = toml_edit::Item::Value(v);
    }
}

/// Append a table holding only `name = <name>` to the document's
/// `wakeword` array of tables (`Table::new`, `toml_edit::value`, then
/// `ArrayOfTables::push`; when `get("wakeword")` finds nothing, an empty
/// array of tables is first stored under the key). No other table or
/// field changes.
#[verifier::external_body]
fn push_named_table(doc: &mut toml_edit::DocumentMut, name: &str)
    requires
        doc_wakewords(*old(doc)) is Some,
    ensures
        doc_wakewords(*final(doc)) == Some(doc_wakewords(*old(doc))->Some_0.push(Some(name@))),
        doc_wakeword_field(*final(doc), doc_wakewords(*old(doc))->Some_0.len() as int, "name"@) == Some(Scalar::Str(name@)),
        forall|k: Seq<char>| k != "name"@ ==>
            #[trigger] doc_wakeword_field(*final(doc), doc_wakewords(*old(doc))->Some_0.len() as int, k) is None,
        forall|i: int, k: Seq<char>| i != doc_wakewords(*old(doc))->Some_0.len() ==>
            #[trigger] doc_wakeword_field(*final(doc), i, k) == doc_wakeword_field(*old(doc), i, k),
        forall|t: Seq<char>, k: Seq<char>| #[trigger] doc_table_field(*final(doc), t, k) == doc_table_field(*old(doc), t, k),
        forall|k: Seq<char>| k != "wakeword"@ ==> #[trigger] doc_entry_kind(*final(doc), k) == doc_entry_kind(*old(doc), k),
        doc_comments(*final(doc)) == doc_comments(*old(doc)),
        doc_entry_comments(*final(doc), doc_wakewords(*old(doc))->Some_0.len() as int) =~= Multiset::<Seq<char>>::empty(),
        forall|i: int| i != doc_wakewords(*old(doc))->Some_0.len() ==>
            #[trigger] doc_entry_comments(*final(doc), i) == doc_entry_comments(*old(doc), i),
        forall|k: Seq<char>| #[trigger] doc_field_comments(*final(doc), doc_wakewords(*old(doc))->Some_0.len() as int, k)
            =~= Multiset::<Seq<char>>::empty(),
        forall|i: int, k: Seq<char>| i != doc_wakewords(*old(doc))->Some_0.len() ==>
            #[trigger] doc_field_comments(*final(doc), i, k) == doc_field_comments(*old(doc), i, k),
        forall|t: Seq<char>, k: Seq<char>|
            #[trigger] doc_table_field_comments(*final(doc), t, k) == doc_table_field_comments(*old(doc), t, k),
{
    let mut t = toml_edit::Table::new();
    t["name"] = toml_edit::value(name);
    if doc.get("wakeword").is_none() {
        doc["wakeword"] = toml_edit::Item::ArrayOfTables(toml_edit::ArrayOfTables::new());
    }
    if let Some(a) = doc.get_mut("wakeword").and_then(toml_edit::Item::as_array_of_tables_mut) {
        a.push(t);
    }
}

/// The kind of the top-level entry `key` (`DocumentMut::get`, then the
/// `Item` variant); an entry that is no table has no table fields.
#[verifier::external_body]
fn entry_kind(doc: &toml_edit::DocumentMut, key: &str) -> (k: EntryKind)
    ensures
        k == doc_entry_kind(*doc, key@),
        k != EntryKind::Table ==> forall|f: Seq<char>| #[trigger] doc_table_field(*doc, key@, f) is None,
        k != EntryKind::Table ==> forall|f: Seq<char>|
            #[trigger] doc_table_field_comments(*doc, key@, f) =~= Multiset::<Seq<char>>::empty(),
{
    match doc.get(key) {
        Some(toml_edit::Item::Table(_)) => EntryKind::Table,
        Some(_) => EntryKind::Other,
        None => EntryKind::Missing,
    }
}

/// `doc[key] = Item::Table(Table::new())` for a key that is not there:
/// afterwards it is an empty table, and nothing else changes.
#[verifier::external_body]
fn insert_table(doc: &mut toml_edit::DocumentMut, key: &str)
    requires
        doc_entry_kind(*old(doc), key@) == EntryKind::Missing,
        key@ != "wakeword"@,
    ensures
        doc_entry_kind(*final(doc), key@) == EntryKind::Table,
        forall|k: Seq<char>| k != key@ ==> #[trigger] doc_entry_kind(*final(doc), k) == doc_entry_kind(*old(doc), k),
        forall|f: Seq<char>| #[trigger] doc_table_field(*final(doc), key@, f) is None,
        forall|t: Seq<char>, f: Seq<char>| t != key@ ==> #[trigger] doc_table_field(*final(doc), t, f) == doc_table_field(*old(doc), t, f),
        doc_wakewords(*final(doc)) == doc_wakewords(*old(doc)),
        forall|i: int, f: Seq<char>| #[trigger] doc_wakeword_field(*final(doc), i, f) == doc_wakeword_field(*old(doc), i, f),
        doc_comments(*final(doc)) == doc_comments(*old(doc)),
        forall|f: Seq<char>| #[trigger] doc_table_field_comments(*final(doc), key@, f) =~= Multiset::<Seq<char>>::empty(),
        forall|t: Seq<char>, f: Seq<char>| t != key@ ==>
            #[trigger] doc_table_field_comments(*final(doc), t, f) == doc_table_field_comments(*old(doc), t, f),
{
    doc[key] = toml_edit::Item::Table(toml_edit::Table::new());
}

/// `table[key] = toml_edit::value(v)` on the top-level table `table`
/// (`get_mut`, `Item::as_table_mut`): the field holds `v` afterwards, the
/// comments the replaced item held go with it, and nothing else changes.
#[verifier::external_body]
fn set_table_field(doc: &mut toml_edit::DocumentMut, table: &str, key: &str, v: FieldValue)
    requires
        doc_entry_kind(*old(doc), table@) == EntryKind::Table,
        table@ != "wakeword"@,
    ensures
        doc_table_field(*final(doc), table@, key@) == Some(v@),
        forall|t: Seq<char>, f: Seq<char>| (t != table@ || f != key@) ==>
            #[trigger] doc_table_field(*final(doc), t, f) == doc_table_field(*old(doc), t, f),
        forall|k: Seq<char>| #[trigger] doc_entry_kind(*final(doc), k) == doc_entry_kind(*old(doc), k),
        doc_wakewords(*final(doc)) == doc_wakewords(*old(doc)),
        forall|i: int, f: Seq<char>| #[trigger] doc_wakeword_field(*final(doc), i, f) == doc_wakeword_field(*old(doc), i, f),
        doc_comments(*final(doc)) == doc_comments(*old(doc)).sub(doc_table_field_comments(*old(doc), table@, key@)),
        forall|t: Seq<char>, f: Seq<char>| (t != table@ || f != key@) ==>
            #[trigger] doc_table_field_comments(*final(doc), t, f) == doc_table_field_comments(*old(doc), t, f),
{
    if let Some(t) = doc.get_mut(table).and_then(toml_edit::Item::as_table_mut) {
        t[key] = match v {
            FieldValue::Bool(b) => toml_edit::value(b),
            FieldValue::Int(i) => toml_edit::value(i),
            FieldValue::Str(x) => toml_edit::value(x),
        };
    }
}

/// Why an edit of the configuration failed.
#[derive(Debug, Clone, PartialEq, Eq)]
pub enum PersistError {
    /// The text is not TOML.
    Parse,
    /// `wakeword` is not an array of tables.
    NotArray,
    /// No wakeword of that name.
    NotFound(String),
    /// There is no `[engine]` table.
    NoEngineTable,
    /// `wyoming` is there but is not a table.
    WyomingNotTable,
    /// A wakeword of that name is already configured.
    AlreadyExists(String),
}

pub ghost enum PersistFault {
    Parse,
    NotArray,
    NotFound(Seq<char>),
    NoEngineTable,
    WyomingNotTable,
    AlreadyExists(Seq<char>),
}

impl View for PersistError {
    type V = PersistFault;

    open spec fn view(&self) -> PersistFault {
        match self {
            PersistError::Parse => PersistFault::Parse,
            PersistError::NotArray => PersistFault::NotArray,
            PersistError::NotFound(n) => PersistFault::NotFound(n@),
            PersistError::NoEngineTable => PersistFault::NoEngineTable,
            PersistError::WyomingNotTable => PersistFault::WyomingNotTable,
            PersistError::AlreadyExists(n) => PersistFault::AlreadyExists(n@),
        }
    }
}

/// Index of the first entry named `name`, `-1` if none.
pub open spec fn first_entry(names: Seq<Option<Seq<char>>>, name: Seq<char>) -> int
    decreases names.len(),
{
    if names.len() == 0 {
        -1
    } else if names[0] == Some(name) {
        0
    } else {
        let r = first_entry(names.drop_first(), name);
        if r < 0 { -1 } else { r + 1 }
    }
}

proof fn lemma_first_entry(names: Seq<Option<Seq<char>>>, name: Seq<char>)
    ensures
        -1 <= first_entry(names, name) < names.len(),
        first_entry(names, name) >= 0 ==> names[first_entry(names, name)] == Some(name),
        forall|i: int| 0 <= i < names.len() && (first_entry(names, name) < 0 || i < first_entry(names, name))
            ==> #[trigger] names[i] != Some(name),
    decreases names.len(),
{
    if names.len() > 0 && names[0] != Some(name) {
        lemma_first_entry(names.drop_first(), name);
        assert forall|i: int| 0 <= i < names.len() && (first_entry(names, name) < 0 || i < first_entry(names, name))
            implies #[trigger] names[i] != Some(name) by {
            if i > 0 {
                assert(names[i] == names.drop_first()[i - 1]);
            }
        }
    }
}

pub open spec fn entry_view(n: Option<String>) -> Option<Seq<char>> {
    match n {
        Some(s) => Some(s@),
        None => None,
    }
}

fn find_entry(names: &Vec<Option<String>>, name: &str) -> (r: Option<usize>)
    ensures
        match r {
            Some(k) => first_entry(names@.map_values(|n: Option<String>| entry_view(n)), name@) == k,
            None => first_entry(names@.map_values(|n: Option<String>| entry_view(n)), name@) == -1,
        },
{
    let ghost v = names@.map_values(|n: Option<String>| entry_view(n));
    proof {
        lemma_first_entry(v, name@);
    }
    let mut i: usize = 0;
    while i < names.len()
        invariant
            v == names@.map_values(|n: Option<String>| entry_view(n)),
            i <= names@.len(),
            -1 <= first_entry(v, name@) < v.len(),
            first_entry(v, name@) >= 0 ==> v[first_entry(v, name@)] == Some(name@),
            forall|k: int| 0 <= k < i ==> #[trigger] v[k] != Some(name@),
        decreases names@.len() - i,
    {
        let hit = match &names[i] {
            Some(s) => str_eq(s.as_str(), name),
            None => false,
        };
        assert(v[i as int] == entry_view(names@[i as int]));
        if hit {
            proof {
                lemma_first_entry(v, name@);
            }
            return Some(i);
        }
        i += 1;
    }
    None
}

/// Every wakeword entry and field of `d` is what `text` parses to.
pub open spec fn wakewords_kept(d: toml_edit::DocumentMut, text: Seq<char>) -> bool {
    &&& doc_wakewords(d) == text_wakewords(text)
    &&& forall|i: int, f: Seq<char>| #[trigger] doc_wakeword_field(d, i, f) == text_wakeword_field(text, i, f)
}

/// Every wakeword field of `d` but field `key` of entry `k` is what
/// `text` parses to.
pub open spec fn entry_fields_kept_but(d: toml_edit::DocumentMut, text: Seq<char>, k: int, key: Seq<char>) -> bool {
    forall|i: int, f: Seq<char>| (i != k || f != key) ==>
        #[trigger] doc_wakeword_field(d, i, f) == text_wakeword_field(text, i, f)
}

/// Every field of every top-level table of `d` is what `text` parses to.
pub open spec fn tables_kept(d: toml_edit::DocumentMut, text: Seq<char>) -> bool {
    forall|t: Seq<char>, f: Seq<char>| #[trigger] doc_table_field(d, t, f) == text_table_field(text, t, f)
}

/// The same, but for field `key` of table `table`.
pub open spec fn tables_kept_but(d: toml_edit::DocumentMut, text: Seq<char>, table: Seq<char>, key: Seq<char>) -> bool {
    forall|t: Seq<char>, f: Seq<char>| (t != table || f != key) ==>
        #[trigger] doc_table_field(d, t, f) == text_table_field(text, t, f)
}

/// Every top-level entry of `d` is of the kind `text` parses to.
pub open spec fn kinds_kept(d: toml_edit::DocumentMut, text: Seq<char>) -> bool {
    forall|f: Seq<char>| #[trigger] doc_entry_kind(d, f) == text_entry_kind(text, f)
}

/// The same, but for the entry `key`.
pub open spec fn kinds_kept_but(d: toml_edit::DocumentMut, text: Seq<char>, key: Seq<char>) -> bool {
    forall|f: Seq<char>| f != key ==> #[trigger] doc_entry_kind(d, f) == text_entry_kind(text, f)
}

/// Whether the wakeword entry `name` can be edited in `text`: success
/// gives its index (the first entry of that name) and the entry names.
pub open spec fn update_verdict(text: Seq<char>, name: Seq<char>) -> Result<(int, Seq<Option<Seq<char>>>), PersistFault> {
    if !toml_parses(text) {
        Err(PersistFault::Parse)
    } else {
        match text_wakewords(text) {
            None => Err(PersistFault::NotArray),
            Some(ns) => {
                let k = first_entry(ns, name);
                if k < 0 {
                    Err(PersistFault::NotFound(name))
                } else {
                    Ok((k, ns))
                }
            },
        }
    }
}

/// Parse `text` and find the first wakeword entry named `name`.
fn open_entry(text: &str, name: &str) -> (r: Result<(toml_edit::DocumentMut, usize), PersistError>)
    ensures
        match r {
            Ok((d, k)) => {
                &&& update_verdict(text@, name@) is Ok
                &&& update_verdict(text@, name@)->Ok_0.0 == k
                &&& update_verdict(text@, name@)->Ok_0.1 == text_wakewords(text@)->Some_0
                &&& text_wakewords(text@) is Some
                &&& k < text_wakewords(text@)->Some_0.len()
                &&& doc_of_text(d, text@)
            },
            Err(e) => update_verdict(text@, name@) == Err::<(int, Seq<Option<Seq<char>>>), PersistFault>(e@),
        },
{
    let doc = match parse_doc(text) {
        Ok(d) => d,
        Err(_) => {
            return Err(PersistError::Parse);
        },
    };
    let names = match wakeword_names(&doc) {
        Some(v) => v,
        None => {
            return Err(PersistError::NotArray);
        },
    };
    assert(names@.map_values(|n: Option<String>| entry_view(n)) =~= names@.map_values(|n: Option<String>| match n {
        Some(s) => Some(s@),
        None => None,
    }));
    let idx = match find_entry(&names, name) {
        Some(k) => k,
        None => {
            return Err(PersistError::NotFound(name.to_owned()));
        },
    };
    proof {
        lemma_first_entry(names@.map_values(|n: Option<String>| entry_view(n)), name@);
    }
    Ok((doc, idx))
}

/// Remove the first wakeword entry named `name` from the configuration
/// `text`; returns the new text. The entries after it move up by one;
/// every other entry, field, table and comment stays as it was (the
/// comments the removed entry held, such as one just above its header,
/// go with it).
pub fn remove_wakeword(text: &str, name: &str) -> (r: Result<String, PersistError>)
    ensures
        match r {
            Ok(out) => update_verdict(text@, name@) is Ok && exists|d: toml_edit::DocumentMut| {
                let (k, ns) = update_verdict(text@, name@)->Ok_0;
                &&& out@ == #[trigger] doc_text(d)
                &&& doc_wakewords(d) == Some(ns.remove(k))
                &&& forall|i: int, f: Seq<char>| #[trigger] doc_wakeword_field(d, i, f)
                    == text_wakeword_field(text@, if i < k { i } else { i + 1 }, f)
                &&& tables_kept(d, text@)
                &&& kinds_kept(d, text@)
                &&& doc_comments(d) == text_comments(text@).sub(text_entry_comments(text@, k))
            },
            Err(e) => update_verdict(text@, name@) == Err::<(int, Seq<Option<Seq<char>>>), PersistFault>(e@),
        },
{
    let (mut doc, idx) = match open_entry(text, name) {
        Ok(p) => p,
        Err(e) => {
            return Err(e);
        },
    };
    remove_wakeword_table(&mut doc, idx);
    let out = render(&doc);
    Ok(out)
}

/// Field `key` of the first wakeword entry named `name` set to `v`.
fn update_wakeword(text: &str, name: &str, key: &str, v: FieldValue) -> (r: Result<String, PersistError>)
    requires
        key@ != "name"@,
    ensures
        match r {
            Ok(out) => update_verdict(text@, name@) is Ok && exists|d: toml_edit::DocumentMut| {
                let (k, ns) = update_verdict(text@, name@)->Ok_0;
                &&& out@ == #[trigger] doc_text(d)
                &&& doc_wakewords(d) == Some(ns)
                &&& doc_wakeword_field(d, k, key@) == Some(v@)
                &&& entry_fields_kept_but(d, text@, k, key@)
                &&& tables_kept(d, text@)
                &&& kinds_kept(d, text@)
                &&& doc_comments(d) == text_comments(text@).sub(text_field_comments(text@, k, key@))
            },
            Err(e) => update_verdict(text@, name@) == Err::<(int, Seq<Option<Seq<char>>>), PersistFault>(e@),
        },
{
    let (mut doc, idx) = match open_entry(text, name) {
        Ok(p) => p,
        Err(e) => {
            return Err(e);
        },
    };
    set_wakeword_field(&mut doc, idx, key, v);
    let out = render(&doc);
    Ok(out)
}

/// Set `enabled` of the wakeword named `name` in the configuration
/// `text`; every other field, entry, table and comment stays as it was
/// (a comment on the replaced value goes with it).
pub fn set_enabled(text: &str, name: &str, enabled: bool) -> (r: Result<String, PersistError>)
    ensures
        match r {
            Ok(out) => update_verdict(text@, name@) is Ok && exists|d: toml_edit::DocumentMut| {
                let (k, ns) = update_verdict(text@, name@)->Ok_0;
                &&& out@ == #[trigger] doc_text(d)
                &&& doc_wakewords(d) == Some(ns)
                &&& doc_wakeword_field(d, k, "enabled"@) == Some(Scalar::Bool(enabled))
                &&& entry_fields_kept_but(d, text@, k, "enabled"@)
                &&& tables_kept(d, text@)
                &&& kinds_kept(d, text@)
                &&& doc_comments(d) == text_comments(text@).sub(text_field_comments(text@, k, "enabled"@))
            },
            Err(e) => update_verdict(text@, name@) == Err::<(int, Seq<Option<Seq<char>>>), PersistFault>(e@),
        },
{
    proof {
        reveal_strlit("enabled");
        reveal_strlit("name");
        assert("enabled"@.len() != "name"@.len());
    }
    update_wakeword(text, name, "enabled", FieldValue::Bool(enabled))
}

/// Set `cooldown_ms` of the wakeword named `name` in the configuration
/// `text`; every other field, entry, table and comment stays as it was
/// (a comment on the replaced value goes with it).
pub fn set_cooldown_ms(text: &str, name: &str, ms: u32) -> (r: Result<String, PersistError>)
    ensures
        match r {
            Ok(out) => update_verdict(text@, name@) is Ok && exists|d: toml_edit::DocumentMut| {
                let (k, ns) = update_verdict(text@, name@)->Ok_0;
                &&& out@ == #[trigger] doc_text(d)
                &&& doc_wakewords(d) == Some(ns)
                &&& doc_wakeword_field(d, k, "cooldown_ms"@) == Some(Scalar::Int(ms as int))
                &&& entry_fields_kept_but(d, text@, k, "cooldown_ms"@)
                &&& tables_kept(d, text@)
                &&& kinds_kept(d, text@)
                &&& doc_comments(d) == text_comments(text@).sub(text_field_comments(text@, k, "cooldown_ms"@))
            },
            Err(e) => update_verdict(text@, name@) == Err::<(int, Seq<Option<Seq<char>>>), PersistFault>(e@),
        },
{
    proof {
        reveal_strlit("cooldown_ms");
        reveal_strlit("name");
        assert("cooldown_ms"@.len() != "name"@.len());
    }
    update_wakeword(text, name, "cooldown_ms", FieldValue::Int(ms as i64))
}

/// Set `threshold` of the wakeword named `name` in the configuration
/// `text` to the TOML value `threshold`; every other field, entry, table
/// and comment stays as it was (a comment on the replaced value goes with
/// it).
pub fn set_threshold(text: &str, name: &str, threshold: toml_edit::Value) -> (r: Result<String, PersistError>)
    ensures
        match r {
            Ok(out) => update_verdict(text@, name@) is Ok && exists|d: toml_edit::DocumentMut| {
                let (k, ns) = update_verdict(text@, name@)->Ok_0;
                &&& out@ == #[trigger] doc_text(d)
                &&& doc_wakewords(d) == Some(ns)
                &&& doc_wakeword_field(d, k, "threshold"@) == Some(value_scalar(threshold))
                &&& entry_fields_kept_but(d, text@, k, "threshold"@)
                &&& tables_kept(d, text@)
                &&& kinds_kept(d, text@)
                &&& doc_comments(d)
                    == text_comments(text@).sub(text_field_comments(text@, k, "threshold"@)).add(value_comments(threshold))
            },
            Err(e) => update_verdict(text@, name@) == Err::<(int, Seq<Option<Seq<char>>>), PersistFault>(e@),
        },
{
    proof {
        reveal_strlit("threshold");
        reveal_strlit("name");
        assert("threshold"@.len() != "name"@.len());
    }
    let (mut doc, idx) = match open_entry(text, name) {
        Ok(p) => p,
        Err(e) => {
            return Err(e);
        },
    };
    set_wakeword_value(&mut doc, idx, "threshold", threshold);
    let out = render(&doc);
    Ok(out)
}

/// The outcome [`set_engine_device`] owes: it needs an `[engine]` table.
pub open spec fn engine_verdict(text: Seq<char>) -> Result<(), PersistFault> {
    if !toml_parses(text) {
        Err(PersistFault::Parse)
    } else if text_entry_kind(text, "engine"@) != EntryKind::Table {
        Err(PersistFault::NoEngineTable)
    } else {
        Ok(())
    }
}

/// Set `[engine].device` in the configuration `text`; returns the new
/// text, in which nothing else changed (a comment on the replaced value
/// goes with it; every other comment stays).
pub fn set_engine_device(text: &str, device: &str) -> (r: Result<String, PersistError>)
    ensures
        match r {
            Ok(out) => engine_verdict(text@) is Ok && exists|d: toml_edit::DocumentMut| {
                &&& out@ == #[trigger] doc_text(d)
                &&& doc_table_field(d, "engine"@, "device"@) == Some(Scalar::Str(device@))
                &&& tables_kept_but(d, text@, "engine"@, "device"@)
                &&& kinds_kept(d, text@)
                &&& wakewords_kept(d, text@)
                &&& doc_comments(d) == text_comments(text@).sub(text_table_field_comments(text@, "engine"@, "device"@))
            },
            Err(e) => engine_verdict(text@) == Err::<(), PersistFault>(e@),
        },
{
    proof {
        reveal_strlit("engine");
        reveal_strlit("wakeword");
        assert("engine"@.len() != "wakeword"@.len());
    }
    let mut doc = match parse_doc(text) {
        Ok(d) => d,
        Err(_) => {
            return Err(PersistError::Parse);
        },
    };
    if entry_kind(&doc, "engine") != EntryKind::Table {
        return Err(PersistError::NoEngineTable);
    }
    set_table_field(&mut doc, "engine", "device", FieldValue::Str(device.to_owned()));
    let out = render(&doc);
    Ok(out)
}

/// The outcome [`set_wyoming_enabled`] owes: a missing `[wyoming]` table
/// is created, one that is not a table is refused.
pub open spec fn wyoming_verdict(text: Seq<char>) -> Result<(), PersistFault> {
    if !toml_parses(text) {
        Err(PersistFault::Parse)
    } else if text_entry_kind(text, "wyoming"@) == EntryKind::Other {
        Err(PersistFault::WyomingNotTable)
    } else {
        Ok(())
    }
}

/// Set `[wyoming].enabled` in the configuration `text`, creating the
/// table when it is missing; returns the new text, in which nothing else
/// changed (a comment on the replaced value goes with it; every other
/// comment stays).
pub fn set_wyoming_enabled(text: &str, enabled: bool) -> (r: Result<String, PersistError>)
    ensures
        match r {
            Ok(out) => wyoming_verdict(text@) is Ok && exists|d: toml_edit::DocumentMut| {
                &&& out@ == #[trigger] doc_text(d)
                &&& doc_entry_kind(d, "wyoming"@) == EntryKind::Table
                &&& doc_table_field(d, "wyoming"@, "enabled"@) == Some(Scalar::Bool(enabled))
                &&& tables_kept_but(d, text@, "wyoming"@, "enabled"@)
                &&& kinds_kept_but(d, text@, "wyoming"@)
                &&& wakewords_kept(d, text@)
                &&& doc_comments(d) == text_comments(text@).sub(text_table_field_comments(text@, "wyoming"@, "enabled"@))
            },
            Err(e) => wyoming_verdict(text@) == Err::<(), PersistFault>(e@),
        },
{
    proof {
        reveal_strlit("wyoming");
        reveal_strlit("wakeword");
        assert("wyoming"@.len() != "wakeword"@.len());
    }
    let mut doc = match parse_doc(text) {
        Ok(d) => d,
        Err(_) => {
            return Err(PersistError::Parse);
        },
    };
    let ghost d0 = doc;
    let kind = entry_kind(&doc, "wyoming");
    if kind == EntryKind::Other {
        return Err(PersistError::WyomingNotTable);
    }
    if kind == EntryKind::Missing {
        insert_table(&mut doc, "wyoming");
    }
    let ghost d1 = doc;
    assert forall|t: Seq<char>, f: Seq<char>| #[trigger] doc_table_field(d1, t, f) == doc_table_field(d0, t, f) by {
        if t == "wyoming"@ && kind == EntryKind::Missing {
            assert(doc_table_field(d0, "wyoming"@, f) is None);
        }
    }
    assert(doc_table_field_comments(d1, "wyoming"@, "enabled"@) == doc_table_field_comments(d0, "wyoming"@, "enabled"@));
    assert(doc_comments(d1) == doc_comments(d0));
    set_table_field(&mut doc, "wyoming", "enabled", FieldValue::Bool(enabled));
    let out = render(&doc);
    Ok(out)
}

/// The outcome [`add_wakeword`] owes: success gives the entry names
/// before the new one is appended.
pub open spec fn add_verdict(text: Seq<char>, name: Seq<char>) -> Result<Seq<Option<Seq<char>>>, PersistFault> {
    if !toml_parses(text) {
        Err(PersistFault::Parse)
    } else {
        match text_wakewords(text) {
            None => Err(PersistFault::NotArray),
            Some(ns) => if first_entry(ns, name) >= 0 {
                Err(PersistFault::AlreadyExists(name))
            } else {
                Ok(ns)
            },
        }
    }
}

/// The keys an appended entry may hold.
pub open spec fn entry_key(f: Seq<char>) -> bool {
    f == "name"@ || f == "model"@ || f == "threshold"@ || f == "cooldown_ms"@ || f == "enabled"@
}

/// What the appended entry holds: its `name` and `model`, `cooldown_ms`
/// and `enabled` only where they differ from the defaults, a `threshold`
/// exactly when one is given, and nothing else.
pub open spec fn added_entry(d: toml_edit::DocumentMut, k: int, wake: Wakeword<Option<toml_edit::Value>>) -> bool {
    &&& doc_wakeword_field(d, k, "name"@) == Some(Scalar::Str(wake.name@))
    &&& doc_wakeword_field(d, k, "model"@) == Some(Scalar::Str(wake.model@))
    &&& doc_wakeword_field(d, k, "threshold"@) == match wake.threshold {
        Some(v) => Some(value_scalar(v)),
        None => None,
    }
    &&& doc_wakeword_field(d, k, "cooldown_ms"@) == if wake.cooldown_ms != DEFAULT_COOLDOWN_MS {
        Some(Scalar::Int(wake.cooldown_ms as int))
    } else {
        None
    }
    &&& doc_wakeword_field(d, k, "enabled"@) == if wake.enabled != DEFAULT_ENABLED {
        Some(Scalar::Bool(wake.enabled))
    } else {
        None
    }
    &&& forall|f: Seq<char>| !entry_key(f) ==> #[trigger] doc_wakeword_field(d, k, f) is None
}

/// Append a `[[wakeword]]` entry to the configuration `text`; returns the
/// new text, in which every other entry, field, table and comment stays
/// as it was. `wake.threshold` is the TOML value to write for the threshold,
/// `None` when it is the default and is left out.
pub fn add_wakeword(text: &str, wake: Wakeword<Option<toml_edit::Value>>) -> (r: Result<String, PersistError>)
    ensures
        match r {
            Ok(out) => add_verdict(text@, wake.name@) is Ok && exists|d: toml_edit::DocumentMut| {
                let ns = add_verdict(text@, wake.name@)->Ok_0;
                &&& out@ == #[trigger] doc_text(d)
                &&& doc_wakewords(d) == Some(ns.push(Some(wake.name@)))
                &&& added_entry(d, ns.len() as int, wake)
                &&& forall|i: int, f: Seq<char>| i != ns.len() ==>
                    #[trigger] doc_wakeword_field(d, i, f) == text_wakeword_field(text@, i, f)
                &&& tables_kept(d, text@)
                &&& kinds_kept_but(d, text@, "wakeword"@)
                &&& doc_comments(d) == text_comments(text@).add(opt_value_comments(wake.threshold))
                &&& doc_entry_comments(d, ns.len() as int) == opt_value_comments(wake.threshold)
            },
            Err(e) => add_verdict(text@, wake.name@) == Err::<Seq<Option<Seq<char>>>, PersistFault>(e@),
        },
{
    proof {
        reveal_strlit("name");
        reveal_strlit("model");
        reveal_strlit("threshold");
        reveal_strlit("cooldown_ms");
        reveal_strlit("enabled");
        assert("model"@.len() != "name"@.len());
        assert("threshold"@.len() != "name"@.len());
        assert("cooldown_ms"@.len() != "name"@.len());
        assert("enabled"@.len() != "name"@.len());
        assert("model"@ != "threshold"@ && "model"@ != "cooldown_ms"@ && "model"@ != "enabled"@);
        assert("threshold"@ != "cooldown_ms"@ && "threshold"@ != "enabled"@);
        assert("cooldown_ms"@ != "enabled"@);
    }
    let mut doc = match parse_doc(text) {
        Ok(d) => d,
        Err(_) => {
            return Err(PersistError::Parse);
        },
    };
    let names = match wakeword_names(&doc) {
        Some(v) => v,
        None => {
            return Err(PersistError::NotArray);
        },
    };
    assert(names@.map_values(|n: Option<String>| entry_view(n)) =~= names@.map_values(|n: Option<String>| match n {
        Some(s) => Some(s@),
        None => None,
    }));
    if find_entry(&names, wake.name.as_str()).is_some() {
        return Err(PersistError::AlreadyExists(wake.name));
    }
    let idx = names.len();
    push_named_table(&mut doc, wake.name.as_str());
    set_wakeword_field(&mut doc, idx, "model", FieldValue::Str(wake.model));
    match wake.threshold {
        Some(v) => set_wakeword_value(&mut doc, idx, "threshold", v),
        None => {},
    }
    if wake.cooldown_ms != DEFAULT_COOLDOWN_MS {
        set_wakeword_field(&mut doc, idx, "cooldown_ms", FieldValue::Int(wake.cooldown_ms as i64));
    }
    if wake.enabled != DEFAULT_ENABLED {
        set_wakeword_field(&mut doc, idx, "enabled", FieldValue::Bool(wake.enabled));
    }
    let out = render(&doc);
    Ok(out)
}

} // verus!
