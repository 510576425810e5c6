//! The file of the section store as a document: named tables of entries.
//!
//! Parsing and writing the file's format is the work of the `toml` crate.
//! What is done here is to read the sections out of a parsed document and to
//! write them back into it.  Values that are no texts, and items that are no
//! tables, are carried along untouched.

use vstd::prelude::*;
use crate::dict::{find_key, has_key, lemma_position, position, Dict};
use crate::store::{SectionView, Store, StoreView};
use crate::text::lowercase_of;

verus! {

/// `toml::Value`, a value of the file's format.  Nothing is known of what
/// such a value holds; it is only carried from the document that was read
/// to the document that is written.
#[verifier::external_type_specification]
#[verifier::external_body]
pub struct ExValue(toml::Value);

/// A value of a table.
pub enum Field {
    /// A text.
    Text(String),
    /// A value of another kind, which is carried along.
    Other(toml::Value),
}

/// An entry of a table.
pub struct Entry {
    pub key: String,
    pub field: Field,
}

/// What a name of the document stands for.
pub enum Item {
    /// A table of entries.
    Table(Vec<Entry>),
    /// Something else, which is carried along.
    Other(toml::Value),
}

/// A named item of the document.
pub struct Named {
    pub name: String,
    pub item: Item,
}

/// The items of the file, in the order in which the file's format keeps them.
pub struct Document {
    pub items: Vec<Named>,
}

pub enum FieldView {
    Text(Seq<char>),
    Other(toml::Value),
}

pub struct EntryView {
    pub key: Seq<char>,
    pub field: FieldView,
}

pub enum ItemView {
    Table(Seq<EntryView>),
    Other(toml::Value),
}

pub struct NamedView {
    pub name: Seq<char>,
    pub item: ItemView,
}

impl View for Field {
    type V = FieldView;

    open spec fn view(&self) -> FieldView {
        match self {
            Field::Text(text) => FieldView::Text(text@),
            Field::Other(value) => FieldView::Other(*value),
        }
    }
}

impl View for Entry {
    type V = EntryView;

    open spec fn view(&self) -> EntryView {
        EntryView { key: self.key@, field: self.field@ }
    }
}

/// The views of a run of entries.
pub open spec fn entry_views(entries: Seq<Entry>) -> Seq<EntryView> {
    Seq::new(entries.len(), |i: int| entries[i]@)
}

impl View for Item {
    type V = ItemView;

    open spec fn view(&self) -> ItemView {
        match self {
            Item::Table(entries) => ItemView::Table(entry_views(entries@)),
            Item::Other(value) => ItemView::Other(*value),
        }
    }
}

impl View for Named {
    type V = NamedView;

    open spec fn view(&self) -> NamedView {
        NamedView { name: self.name@, item: self.item@ }
    }
}

/// The views of a run of items.
pub open spec fn item_views(items: Seq<Named>) -> Seq<NamedView> {
    Seq::new(items.len(), |i: int| items[i]@)
}

impl View for Document {
    type V = Seq<NamedView>;

    open spec fn view(&self) -> Seq<NamedView> {
        item_views(self.items@)
    }
}

/// What `toml` reads out of a text; `None` for a text that is not in the
/// file's format.
pub uninterp spec fn parsed_document(content: Seq<char>) -> Option<Seq<NamedView>>;

/// What `toml` writes for a document; `None` if it cannot be written.
pub uninterp spec fn rendered_document(document: Seq<NamedView>) -> Option<Seq<char>>;

/// Calls `toml::from_str` for a `toml::Table` and hands out what it holds:
/// each table with its entries, texts as texts, every other value as it is.
/// A text that `toml` refuses gives the message of its error.  Trusted: the
/// document is the named value `parsed_document` of the text, and there is
/// an error exactly when that value is `None`; nothing is claimed of the
/// message.
#[verifier::external_body]
pub(crate) fn parse_document(content: &str) -> (r: Result<Document, String>)
    ensures
        match r {
            Ok(document) => parsed_document(content@) == Some(document@),
            Err(_) => parsed_document(content@) is None,
        },
{
    let table: toml::Table = toml::from_str(content).map_err(|e| e.to_string())?;
    let items = table.into_iter().map(|(name, value)| Named { name, item: match value {
        toml::Value::Table(t) => Item::Table(t.into_iter().map(|(key, v)| Entry { key, field: match v {
            toml::Value::String(text) => Field::Text(text),
            other => Field::Other(other),
        } }).collect()),
        other => Item::Other(other),
    } });
    Ok(Document { items: items.collect() })
}

/// Puts the items of a document into a `toml::Table`, a later item of a name
/// in place of an earlier one, and calls `toml::to_string` on it.  Trusted:
/// the result is the named value `rendered_document` of the document.
#[verifier::external_body]
pub(crate) fn render_document(document: Document) -> (r: Option<String>)
    ensures
        match r {
            Some(text) => rendered_document(document@) == Some(text@),
            None => rendered_document(document@) is None,
        },
{
    let items = document.items.into_iter().map(|named| (named.name, match named.item {
        Item::Table(entries) => toml::Value::Table(entries.into_iter().map(|e| (e.key, match e.field {
            Field::Text(text) => toml::Value::String(text),
            Field::Other(value) => value,
        })).collect()),
        Item::Other(value) => value,
    }));
    toml::to_string(&items.collect::<toml::Table>()).ok()
}

/// The texts among the first `n` entries of a table, by key.
pub open spec fn texts_upto(entries: Seq<EntryView>, n: int) -> SectionView
    decreases n,
{
    if n <= 0 {
        Map::empty()
    } else {
        let rest = texts_upto(entries, n - 1);
        match entries[n - 1].field {
            FieldView::Text(text) => rest.insert(entries[n - 1].key, text),
            FieldView::Other(_) => rest,
        }
    }
}

/// The texts of a table, by key.
pub open spec fn texts_of(entries: Seq<EntryView>) -> SectionView {
    texts_upto(entries, entries.len() as int)
}

/// The store that the first `n` items of a document make: every table is a
/// section under its name in lower case, with its texts.
pub open spec fn store_upto(items: Seq<NamedView>, n: int) -> StoreView
    decreases n,
{
    if n <= 0 {
        Map::empty()
    } else {
        let rest = store_upto(items, n - 1);
        match items[n - 1].item {
            ItemView::Table(entries) => rest.insert(lowercase_of(items[n - 1].name), texts_of(entries)),
            ItemView::Other(_) => rest,
        }
    }
}

/// The store that a document holds.
pub open spec fn store_in(items: Seq<NamedView>) -> StoreView {
    store_upto(items, items.len() as int)
}

/// A name in lower case.
pub fn lower_name(name: &str) -> (r: String)
    ensures
        r@ == lowercase_of(name@),
{
    name.to_lowercase()
}

/// The texts of a table.
pub fn section_of(entries: &Vec<Entry>) -> (d: Dict)
    ensures
        d.wf(),
        d@ == texts_of(entry_views(entries@)),
{
    let mut d = Dict::new();
    let mut i: usize = 0;
    while i < entries.len()
        invariant
            i <= entries.len(),
            d.wf(),
            d@ == texts_upto(entry_views(entries@), i as int),
        decreases entries.len() - i,
    {
        match &entries[i].field {
            Field::Text(text) => {
                d.insert(entries[i].key.as_str(), text.clone());
            },
            Field::Other(_) => {},
        }
        i += 1;
    }
    d
}

/// Reads the sections out of a document.
pub fn store_of(document: &Document) -> (s: Store)
    ensures
        s.wf(),
        s@ == store_in(document@),
{
    let mut s = Store::new();
    let mut i: usize = 0;
    while i < document.items.len()
        invariant
            i <= document.items.len(),
            s.wf(),
            s@ == store_upto(document@, i as int),
        decreases document.items.len() - i,
    {
        match &document.items[i].item {
            Item::Table(entries) => {
                let name = lower_name(document.items[i].name.as_str());
                s.insert(name.as_str(), section_of(entries));
            },
            Item::Other(_) => {},
        }
        i += 1;
    }
    s
}

/// The entries that a section of the store is written as: its texts, in the
/// order in which the section holds them.
pub open spec fn text_rows(keys: Seq<Seq<char>>, values: Seq<Seq<char>>) -> Seq<EntryView> {
    Seq::new(keys.len(), |i: int| EntryView { key: keys[i], field: FieldView::Text(values[i]) })
}

/// The entries that the section at `i` of the store is written as.
pub open spec fn section_rows(store: Store, i: int) -> Seq<EntryView> {
    text_rows(store.bodies[i].keys.deep_view(), store.bodies[i].values.deep_view())
}

/// The entries among the first `n` of a table that are no texts.
pub open spec fn foreign_upto(entries: Seq<EntryView>, n: int) -> Seq<EntryView>
    decreases n,
{
    if n <= 0 {
        Seq::empty()
    } else {
        let rest = foreign_upto(entries, n - 1);
        match entries[n - 1].field {
            FieldView::Other(_) => rest.push(entries[n - 1]),
            FieldView::Text(_) => rest,
        }
    }
}

/// What becomes of the first `n` items of a document when the store is
/// written into it: an item that is no table stays; a table whose name, in
/// lower case, is a section of the store keeps its name and its entries that
/// are no texts, and gets the texts of the section; any other table goes.
pub open spec fn kept_upto(items: Seq<NamedView>, store: Store, n: int) -> Seq<NamedView>
    decreases n,
{
    if n <= 0 {
        Seq::empty()
    } else {
        let rest = kept_upto(items, store, n - 1);
        let names = store.names.deep_view();
        match items[n - 1].item {
            ItemView::Other(_) => rest.push(items[n - 1]),
            ItemView::Table(entries) => {
                let name = lowercase_of(items[n - 1].name);
                if has_key(names, name) {
                    rest.push(
                        NamedView {
                            name: items[n - 1].name,
                            item: ItemView::Table(
                                foreign_upto(entries, entries.len() as int) + section_rows(
                                    store,
                                    position(names, name),
                                ),
                            ),
                        },
                    )
                } else {
                    rest
                }
            },
        }
    }
}

/// One of the first `n` items of the document is a table with the name
/// `name`, case apart.
pub open spec fn has_table(items: Seq<NamedView>, name: Seq<char>, n: int) -> bool
    decreases n,
{
    n > 0 && (has_table(items, name, n - 1) || (items[n - 1].item is Table && lowercase_of(
        items[n - 1].name,
    ) == name))
}

/// The tables that are added to a document for the first `n` sections of the
/// store: one for each section that the document has no table for.
pub open spec fn fresh_upto(items: Seq<NamedView>, store: Store, n: int) -> Seq<NamedView>
    decreases n,
{
    if n <= 0 {
        Seq::empty()
    } else {
        let rest = fresh_upto(items, store, n - 1);
        let name = store.names.deep_view()[n - 1];
        if has_table(items, name, items.len() as int) {
            rest
        } else {
            rest.push(NamedView { name, item: ItemView::Table(section_rows(store, n - 1)) })
        }
    }
}

/// The document after the store has been written into it.
pub open spec fn written(items: Seq<NamedView>, store: Store) -> Seq<NamedView> {
    kept_upto(items, store, items.len() as int) + fresh_upto(
        items,
        store,
        store.names.len() as int,
    )
}

/// The entries that a section is written as.
pub fn rows_of(section: &Dict) -> (rows: Vec<Entry>)
    requires
        section.wf(),
    ensures
        entry_views(rows@) == text_rows(section.keys.deep_view(), section.values.deep_view()),
{
    let mut rows: Vec<Entry> = Vec::new();
    let mut i: usize = 0;
    while i < section.keys.len()
        invariant
            i <= section.keys.len() == section.values.len(),
            rows.len() == i,
            forall|j: int|
                0 <= j < i ==> (#[trigger] rows[j])@ == (EntryView {
                    key: section.keys[j]@,
                    field: FieldView::Text(section.values[j]@),
                }),
        decreases section.keys.len() - i,
    {
        rows.push(Entry { key: section.keys[i].clone(), field: Field::Text(section.values[i].clone()) });
        i += 1;
    }
    assert(entry_views(rows@) =~= text_rows(
        section.keys.deep_view(),
        section.values.deep_view(),
    ));
    rows
}

/// Whether the document has a table of that name, case apart.
pub fn names_table(document: &Document, name: &str) -> (r: bool)
    ensures
        r == has_table(document@, name@, document@.len() as int),
{
    let mut i: usize = 0;
    while i < document.items.len()
        invariant
            i <= document.items.len(),
            !has_table(document@, name@, i as int),
        decreases document.items.len() - i,
    {
        match &document.items[i].item {
            Item::Table(_) => {
                let lower = lower_name(document.items[i].name.as_str());
                if crate::store::same_text(lower.as_str(), name) {
                    proof {
                        lemma_has_table_grows(document@, name@, i + 1, document@.len() as int);
                    }
                    return true;
                }
            },
            Item::Other(_) => {},
        }
        i += 1;
    }
    false
}

pub proof fn lemma_has_table_grows(items: Seq<NamedView>, name: Seq<char>, n: int, m: int)
    requires
        has_table(items, name, n),
        n <= m,
    ensures
        has_table(items, name, m),
    decreases m - n,
{
    if n < m {
        lemma_has_table_grows(items, name, n, m - 1);
    }
}

/// The entries of a table that are no texts.
pub fn foreign_of(entries: Vec<Entry>) -> (kept: Vec<Entry>)
    ensures
        entry_views(kept@) == foreign_upto(entry_views(entries@), entries@.len() as int),
{
    let ghost all = entry_views(entries@);
    let mut kept: Vec<Entry> = Vec::new();
    for entry in it: entries
        invariant
            all == entry_views(it.seq()),
            entry_views(kept@) == foreign_upto(all, it.index() as int),
    {
        let ghost before = entry_views(kept@);
        assert(all[it.index() as int] == entry@);
        match entry.field {
            Field::Other(value) => {
                kept.push(Entry { key: entry.key, field: Field::Other(value) });
                assert(entry_views(kept@) =~= before.push(all[it.index() as int]));
            },
            Field::Text(_) => {},
        }
    }
    kept
}

/// Writes the store into a document.
pub fn document_with(document: Document, store: &Store) -> (r: Document)
    requires
        store.wf(),
    ensures
        r@ == written(document@, *store),
{
    let ghost items = document@;
    let ghost names = store.names.deep_view();
    let mut fresh: Vec<Named> = Vec::new();
    let mut i: usize = 0;
    while i < store.names.len()
        invariant
            i <= store.names.len() == store.bodies.len(),
            store.wf(),
            items == document@,
            item_views(fresh@) == fresh_upto(items, *store, i as int),
        decreases store.names.len() - i,
    {
        assert(store.names.deep_view()[i as int] == store.names[i as int]@);
        if !names_table(&document, store.names[i].as_str()) {
            let ghost before = item_views(fresh@);
            assert(store.bodies[i as int].wf());
            let rows = rows_of(&store.bodies[i]);
            fresh.push(Named { name: store.names[i].clone(), item: Item::Table(rows) });
            assert(item_views(fresh@) =~= before.push(
                NamedView {
                    name: store.names[i as int]@,
                    item: ItemView::Table(section_rows(*store, i as int)),
                },
            ));
        }
        i += 1;
    }
    let mut out: Vec<Named> = Vec::new();
    for named in it: document.items
        invariant
            store.wf(),
            names == store.names.deep_view(),
            items == item_views(it.seq()),
            item_views(out@) == kept_upto(items, *store, it.index() as int),
    {
        let ghost before = item_views(out@);
        assert(items[it.index() as int] == named@);
        match named.item {
            Item::Other(value) => {
                out.push(Named { name: named.name, item: Item::Other(value) });
                assert(item_views(out@) =~= before.push(items[it.index() as int]));
            },
            Item::Table(entries) => {
                let lower = lower_name(named.name.as_str());
                match find_key(&store.names, lower.as_str()) {
                    Some(at) => {
                        proof {
                            lemma_position(names, at as int);
                            assert(names[at as int] == store.names[at as int]@);
                        }
                        assert(store.bodies[at as int].wf());
                        let ghost old_entries = entry_views(entries@);
                        let mut rows = foreign_of(entries);
                        let mut texts = rows_of(&store.bodies[at]);
                        let ghost kept = entry_views(rows@);
                        let ghost added = entry_views(texts@);
                        rows.append(&mut texts);
                        assert(entry_views(rows@) =~= kept + added);
                        out.push(Named { name: named.name, item: Item::Table(rows) });
                        assert(item_views(out@) =~= before.push(
                            NamedView {
                                name: named.name@,
                                item: ItemView::Table(
                                    foreign_upto(old_entries, old_entries.len() as int)
                                        + section_rows(*store, at as int),
                                ),
                            },
                        ));
                    },
                    None => {},
                }
            },
        }
    }
    out.append(&mut fresh);
    let r = Document { items: out };
    assert(r@ =~= written(items, *store));
    r
}

/// Why the file of the store could not be read or written: it is not in
/// the file's format, or the document cannot be written.
#[derive(Clone, Debug)]
pub struct FileError {
    /// What is wrong with the text, and where.
    pub message: String,
}

/// Reads the file of the store from its text: the document, and the store
/// that it holds.  Fails exactly when the text is not in the file's format.
pub fn load_store(content: &str) -> (r: Result<(Document, Store), FileError>)
    ensures
        match r {
            Ok((document, store)) => parsed_document(content@) == Some(document@) && store.wf()
                && store@ == store_in(document@),
            Err(_) => parsed_document(content@) is None,
        },
{
    match parse_document(content) {
        Ok(document) => {
            let store = store_of(&document);
            Ok((document, store))
        },
        Err(message) => Err(FileError { message }),
    }
}

/// Writes the store into the document that was read from its file and hands
/// out the new text of the file; `None` if the document cannot be written.
pub fn dump_store(document: Document, store: &Store) -> (r: Option<String>)
    requires
        store.wf(),
    ensures
        match r {
            Some(text) => rendered_document(written(document@, *store)) == Some(text@),
            None => rendered_document(written(document@, *store)) is None,
        },
{
    render_document(document_with(document, store))
}

/// The document that the store is written into: the one that the file
/// holds, or an empty one if there is no file yet.  `None` if the file is
/// there and is not in the file's format.
pub open spec fn base_document(existing: Option<&str>) -> Option<Seq<NamedView>> {
    match existing {
        Some(text) => parsed_document(text@),
        None => Some(Seq::empty()),
    }
}

/// The new text of the file of the store, given the text that the file holds
/// now, if there is a file.  Fails, so that the file can be left as it is,
/// exactly when the file is there and is not in the file's format, or when
/// the document with the store in it cannot be written.
pub fn save_text(existing: Option<&str>, store: &Store) -> (r: Result<String, FileError>)
    requires
        store.wf(),
    ensures
        match r {
            Ok(text) => base_document(existing) is Some && rendered_document(
                written(base_document(existing)->0, *store),
            ) == Some(text@),
            Err(_) => base_document(existing) is None || rendered_document(
                written(base_document(existing)->0, *store),
            ) is None,
        },
{
    let document = match existing {
        Some(text) => match parse_document(text) {
            Ok(document) => document,
            Err(message) => {
                return Err(FileError { message });
            },
        },
        None => {
            let empty = Document { items: Vec::new() };
            assert(empty@ =~= Seq::<NamedView>::empty());
            empty
        },
    };
    match dump_store(document, store) {
        Some(text) => Ok(text),
        None => Err(FileError { message: "The store cannot be written.".to_owned() }),
    }
}

} // verus!
