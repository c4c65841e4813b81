//! Reading a manifest from its text.
//!
//! A manifest is a TOML document. Its table `current-repo` names the
//! repository that the manifest is the manifest of. Its table `repo` holds one
//! table for each repository, under the repository's key: in it the table
//! `details` names the repository, and the array `dependencies`, which may be
//! left out, lists the keys of the repositories it depends on. A repository is
//! named by the strings `name` and `owner`. In the place of such a table an
//! array may stand that begins with what the table would hold: name and owner
//! for a repository, details and dependencies for an entry. Any other key of
//! a table is reported in a warning and has no effect; the warnings come in
//! the order in which the keys stand in the text.

use crate::document::{
    lookup, parse_document, parsed_document, table_get, table_items, table_keys, value_as_array,
    value_as_str, value_as_table, value_item, value_items, Item, Table,
};
use crate::error::ManifestFileError;
use crate::manifest::{Manifest, ManifestView, RepoEntry, RepoEntryView};
use crate::repo::{Repo, RepoId};
use crate::text::same;
use toml::Value;
use vstd::prelude::*;

verus! {

/// The string under `key`, where there is one.
pub open spec fn text_at(items: Seq<(Seq<char>, Item)>, key: Seq<char>) -> Option<Seq<char>> {
    match lookup(items, key) {
        Some(Item::Text(text)) => Some(text),
        _ => None,
    }
}

/// Whether `item` is a string.
pub open spec fn is_text(item: Item) -> bool {
    item is Text
}

/// The string that `item` is; the empty one where it is none.
pub open spec fn text_of(item: Item) -> Seq<char> {
    match item {
        Item::Text(text) => text,
        _ => Seq::empty(),
    }
}

/// The repository that `item` names, where it names one: as a table with
/// the strings `name` and `owner`, or as an array that begins with the two.
pub open spec fn repo_in(item: Option<Item>) -> Option<RepoId> {
    match item {
        Some(Item::Table(fields)) => match (text_at(fields, "name"@), text_at(fields, "owner"@)) {
            (Some(name), Some(owner)) => Some(RepoId { name, owner }),
            _ => None,
        },
        Some(Item::List(list)) => if list.len() >= 2 && is_text(list[0]) && is_text(list[1]) {
            Some(RepoId { name: text_of(list[0]), owner: text_of(list[1]) })
        } else {
            None
        },
        _ => None,
    }
}

/// The strings of `list`, where it holds nothing else.
pub open spec fn texts_in(list: Seq<Item>) -> Option<Seq<Seq<char>>> {
    if forall|i: int| 0 <= i < list.len() ==> is_text(#[trigger] list[i]) {
        Some(Seq::new(list.len(), |i: int| text_of(list[i])))
    } else {
        None
    }
}

/// The dependencies that `item` lists: none where nothing stands there, the
/// strings of the array where an array of strings does. It is `None` where
/// something else stands there.
pub open spec fn dependencies_in(item: Option<Item>) -> Option<Option<Seq<Seq<char>>>> {
    match item {
        None => Some(None),
        Some(Item::List(list)) => match texts_in(list) {
            Some(keys) => Some(Some(keys)),
            None => None,
        },
        Some(_) => None,
    }
}

/// The entry that `item` describes, where it describes one: as a table with
/// `details` and, if it likes, `dependencies`, or as an array that begins
/// with the two.
pub open spec fn entry_in(item: Item) -> Option<RepoEntryView> {
    match item {
        Item::Table(fields) => match (
            repo_in(lookup(fields, "details"@)),
            dependencies_in(lookup(fields, "dependencies"@)),
        ) {
            (Some(details), Some(dependencies)) => Some(RepoEntryView { details, dependencies }),
            _ => None,
        },
        Item::List(list) => if list.len() >= 2 {
            match (repo_in(Some(list[0])), dependencies_in(Some(list[1]))) {
                (Some(details), Some(dependencies)) => Some(
                    RepoEntryView { details, dependencies },
                ),
                _ => None,
            }
        } else {
            None
        },
        _ => None,
    }
}

/// Whether `item` describes an entry.
pub open spec fn is_entry(item: Item) -> bool {
    entry_in(item) is Some
}

/// Whether each of `items` describes an entry.
pub open spec fn all_entries(items: Seq<(Seq<char>, Item)>) -> bool {
    forall|i: int| 0 <= i < items.len() ==> is_entry((#[trigger] items[i]).1)
}

/// The manifest of `current_repo` with the entries that the first `n` of
/// `items` describe, each put under its key.
pub open spec fn manifest_of(current_repo: RepoId, items: Seq<(Seq<char>, Item)>, n: int) -> ManifestView
    decreases n,
{
    if n <= 0 {
        ManifestView { repo: Seq::empty(), current_repo }
    } else {
        manifest_of(current_repo, items, n - 1).with_entry(
            items[n - 1].0,
            entry_in(items[n - 1].1).unwrap(),
        )
    }
}

/// The manifest that the document describes, where it describes one.
pub open spec fn manifest_in(doc: Seq<(Seq<char>, Item)>) -> Option<ManifestView> {
    match (repo_in(lookup(doc, "current-repo"@)), lookup(doc, "repo"@)) {
        (Some(current_repo), Some(Item::Table(items))) => if all_entries(items) {
            Some(manifest_of(current_repo, items, items.len() as int))
        } else {
            None
        },
        _ => None,
    }
}

/// The place of the first of `items` that describes no entry.
pub open spec fn first_fault(items: Seq<(Seq<char>, Item)>) -> int {
    choose|i: int|
        0 <= i < items.len() && !is_entry((#[trigger] items[i]).1) && forall|j: int|
            0 <= j < i ==> is_entry((#[trigger] items[j]).1)
}

/// Where a document that describes no manifest goes wrong: at `current-repo`,
/// at `repo`, or at the first table under `repo`, in the order of the text,
/// that describes no entry.
pub open spec fn fault_in(doc: Seq<(Seq<char>, Item)>) -> Seq<char> {
    if repo_in(lookup(doc, "current-repo"@)) is None {
        "current-repo"@
    } else {
        match lookup(doc, "repo"@) {
            Some(Item::Table(items)) => "repo."@ + items[first_fault(items)].0,
            _ => "repo"@,
        }
    }
}

/// The warning about the key at `path`.
pub open spec fn warning(path: Seq<char>) -> Seq<char> {
    "  WARNING! unused manifest key: "@ + path
}

/// The warnings about the first `n` keys of a table that names a repository
/// and stands at `prefix`: one for each key other than `name` and `owner`.
pub open spec fn repo_key_warnings(fields: Seq<(Seq<char>, Item)>, n: int, prefix: Seq<char>) -> Seq<
    Seq<char>,
>
    decreases n,
{
    if n <= 0 {
        Seq::empty()
    } else if fields[n - 1].0 == "name"@ || fields[n - 1].0 == "owner"@ {
        repo_key_warnings(fields, n - 1, prefix)
    } else {
        repo_key_warnings(fields, n - 1, prefix).push(warning(prefix + fields[n - 1].0))
    }
}

/// The warnings about what names a repository and stands at `prefix`.
pub open spec fn repo_warnings(item: Item, prefix: Seq<char>) -> Seq<Seq<char>> {
    match item {
        Item::Table(fields) => repo_key_warnings(fields, fields.len() as int, prefix),
        _ => Seq::empty(),
    }
}

/// The warnings about the key `key` of a table that describes an entry and
/// stands at `prefix`: those about the repository under `details`, none
/// under `dependencies`, and one about any other key.
pub open spec fn entry_key_warnings(key: Seq<char>, item: Item, prefix: Seq<char>) -> Seq<
    Seq<char>,
> {
    if key == "details"@ {
        repo_warnings(item, prefix + "details."@)
    } else if key == "dependencies"@ {
        Seq::empty()
    } else {
        seq![warning(prefix + key)]
    }
}

/// The warnings about the first `n` keys of a table that describes an entry
/// and stands at `prefix`, key by key.
pub open spec fn entry_keys_warnings(fields: Seq<(Seq<char>, Item)>, n: int, prefix: Seq<char>) -> Seq<
    Seq<char>,
>
    decreases n,
{
    if n <= 0 {
        Seq::empty()
    } else {
        entry_keys_warnings(fields, n - 1, prefix) + entry_key_warnings(
            fields[n - 1].0,
            fields[n - 1].1,
            prefix,
        )
    }
}

/// The warnings about what describes the entry under `key`: about the keys
/// of a table, or about the repository that an array begins with.
pub open spec fn entry_warnings(key: Seq<char>, item: Item) -> Seq<Seq<char>> {
    match item {
        Item::Table(fields) => entry_keys_warnings(
            fields,
            fields.len() as int,
            "repo."@ + key + "."@,
        ),
        Item::List(list) => if list.len() >= 1 {
            repo_warnings(list[0], "repo."@ + key + ".0."@)
        } else {
            Seq::empty()
        },
        _ => Seq::empty(),
    }
}

/// The warnings about the first `n` tables under `repo`, table by table.
pub open spec fn entries_warnings(items: Seq<(Seq<char>, Item)>, n: int) -> Seq<Seq<char>>
    decreases n,
{
    if n <= 0 {
        Seq::empty()
    } else {
        entries_warnings(items, n - 1) + entry_warnings(items[n - 1].0, items[n - 1].1)
    }
}

/// The warnings about the key `key` of the top level of a document: those
/// about the repository under `current-repo`, those about the tables under
/// `repo`, and one about any other key.
pub open spec fn top_key_warnings(key: Seq<char>, item: Item) -> Seq<Seq<char>> {
    if key == "current-repo"@ {
        repo_warnings(item, "current-repo."@)
    } else if key == "repo"@ {
        match item {
            Item::Table(items) => entries_warnings(items, items.len() as int),
            _ => Seq::empty(),
        }
    } else {
        seq![warning(key)]
    }
}

/// The warnings about the first `n` keys of the top level of a document.
pub open spec fn top_warnings(doc: Seq<(Seq<char>, Item)>, n: int) -> Seq<Seq<char>>
    decreases n,
{
    if n <= 0 {
        Seq::empty()
    } else {
        top_warnings(doc, n - 1) + top_key_warnings(doc[n - 1].0, doc[n - 1].1)
    }
}

/// The warnings about a document: one for each key that a manifest does not
/// use, in the order in which the keys stand in the text, each with the path
/// that leads to it.
pub open spec fn manifest_warnings(doc: Seq<(Seq<char>, Item)>) -> Seq<Seq<char>> {
    top_warnings(doc, doc.len() as int)
}

/// What stands there, where a value does.
pub open spec fn item_of(value: Option<&Value>) -> Option<Item> {
    match value {
        Some(v) => Some(value_item(*v)),
        None => None,
    }
}

/// What a [`ManifestFile`] stands for in specifications.
pub struct ManifestFileView {
    pub warnings: Seq<Seq<char>>,
    pub manifest: ManifestView,
}

/// Generated `Manifest` and possible warnings created during the process.
#[derive(Clone, Debug, PartialEq, Eq)]
pub struct ManifestFile {
    warnings: Vec<String>,
    manifest: Manifest,
}

impl View for ManifestFile {
    type V = ManifestFileView;

    closed spec fn view(&self) -> ManifestFileView {
        ManifestFileView { warnings: self.warnings.deep_view(), manifest: self.manifest@ }
    }
}

/// The string under `key` in `table`, if a string stands there.
fn read_text(table: &Table, key: &str) -> (text: Option<String>)
    ensures
        text.deep_view() == text_at(table_items(*table), key@),
{
    match table_get(table, key) {
        Some(value) => match value_as_str(value) {
            Some(text) => Some(text.to_owned()),
            None => None,
        },
        None => None,
    }
}

/// The repository that `value` names, if it names one.
fn read_repo(value: Option<&Value>) -> (repo: Option<Repo>)
    ensures
        match repo {
            Some(r) => repo_in(item_of(value)) == Some(r@),
            None => repo_in(item_of(value)) is None,
        },
{
    match value {
        Some(v) => match value_as_table(v) {
            Some(fields) => {
                let name = read_text(fields, "name");
                let owner = read_text(fields, "owner");
                match (name, owner) {
                    (Some(name), Some(owner)) => Some(Repo::new(name, owner)),
                    _ => None,
                }
            },
            None => match value_as_array(v) {
                Some(list) => {
                    if list.len() < 2 {
                        return None;
                    }
                    match (value_as_str(&list[0]), value_as_str(&list[1])) {
                        (Some(name), Some(owner)) => Some(
                            Repo::new(name.to_owned(), owner.to_owned()),
                        ),
                        _ => None,
                    }
                },
                None => None,
            },
        },
        None => None,
    }
}

/// The strings of `list`, if it holds nothing else.
fn read_texts(list: &Vec<Value>) -> (texts: Option<Vec<String>>)
    ensures
        texts.deep_view() == texts_in(value_items(list@)),
{
    let ghost items = value_items(list@);
    let mut texts: Vec<String> = Vec::new();
    let mut i: usize = 0;
    while i < list.len()
        invariant
            i <= list.len(),
            items == value_items(list@),
            texts@.len() == i,
            forall|j: int| 0 <= j < i ==> is_text(#[trigger] items[j]),
            forall|j: int| 0 <= j < i ==> (#[trigger] texts@[j])@ == text_of(items[j]),
        decreases list.len() - i,
    {
        match value_as_str(&list[i]) {
            Some(text) => {
                texts.push(text.to_owned());
            },
            None => {
                assert(!is_text(items[i as int]));
                return None;
            },
        }
        i += 1;
    }
    assert(texts.deep_view() =~= texts_in(items).unwrap());
    Some(texts)
}

/// The dependencies that `value` lists, if strings are all it lists.
fn read_dependencies(value: Option<&Value>) -> (keys: Option<Option<Vec<String>>>)
    ensures
        keys.deep_view() == dependencies_in(item_of(value)),
{
    match value {
        None => Some(None),
        Some(listed) => match value_as_array(listed) {
            Some(list) => match read_texts(list) {
                Some(keys) => Some(Some(keys)),
                None => None,
            },
            None => None,
        },
    }
}

/// The entry that `value` describes, if it describes one.
fn read_entry(value: &Value) -> (entry: Option<RepoEntry>)
    ensures
        match entry {
            Some(e) => entry_in(value_item(*value)) == Some(e@),
            None => entry_in(value_item(*value)) is None,
        },
{
    let (details, dependencies) = match value_as_table(value) {
        Some(fields) => (
            read_repo(table_get(fields, "details")),
            read_dependencies(table_get(fields, "dependencies")),
        ),
        None => match value_as_array(value) {
            Some(list) => {
                if list.len() < 2 {
                    return None;
                }
                (read_repo(Some(&list[0])), read_dependencies(Some(&list[1])))
            },
            None => {
                return None;
            },
        },
    };
    match (details, dependencies) {
        (Some(details), Some(dependencies)) => Some(RepoEntry::new(details, dependencies)),
        _ => None,
    }
}

/// Where no key stands twice, each key leads to what stands under it.
proof fn lemma_lookup_at(items: Seq<(Seq<char>, Item)>, i: int)
    requires
        forall|a: int, b: int|
            0 <= a < b < items.len() ==> (#[trigger] items[a]).0 != (#[trigger] items[b]).0,
        0 <= i < items.len(),
    ensures
        lookup(items, items[i].0) == Some(items[i].1),
{
    let p = choose|p: int| 0 <= p < items.len() && (#[trigger] items[p]).0 == items[i].0;
    assert(items[i].0 == items[i].0);
    if p < i {
        assert(items[p].0 != items[i].0);
    } else if i < p {
        assert(items[i].0 != items[p].0);
    }
}

/// The keys of `table` in the order of the text, known to be its keys and to
/// lead each to what stands under it.
fn keys_of(table: &Table) -> (keys: Vec<String>)
    ensures
        keys@.len() == table_items(*table).len(),
        forall|i: int| 0 <= i < keys@.len() ==> (#[trigger] keys@[i])@ == table_items(*table)[i].0,
        forall|i: int|
            0 <= i < keys@.len() ==> lookup(table_items(*table), (#[trigger] keys@[i])@) == Some(
                table_items(*table)[i].1,
            ),
{
    let keys = table_keys(table);
    proof {
        let items = table_items(*table);
        assert forall|a: int, b: int| 0 <= a < b < items.len() implies (#[trigger] items[a]).0 != (
        #[trigger] items[b]).0 by {
            assert(keys@[a]@ == items[a].0 && keys@[b]@ == items[b].0);
        }
        assert forall|i: int| 0 <= i < keys@.len() implies lookup(items, (#[trigger] keys@[i])@)
            == Some(items[i].1) by {
            lemma_lookup_at(items, i);
        }
    }
    keys
}

/// Puts behind `warnings` the warnings about what names a repository and
/// stands at `prefix`.
fn note_repo(value: &Value, prefix: &str, warnings: &mut Vec<String>)
    ensures
        final(warnings).deep_view() == old(warnings).deep_view() + repo_warnings(
            value_item(*value),
            prefix@,
        ),
{
    let ghost before = warnings.deep_view();
    assert(before + Seq::<Seq<char>>::empty() =~= before);
    match value_as_table(value) {
        Some(fields) => {
            let ghost items = table_items(*fields);
            let keys = table_keys(fields);
            let mut i: usize = 0;
            while i < keys.len()
                invariant
                    i <= keys.len(),
                    items == table_items(*fields),
                    keys@.len() == items.len(),
                    forall|j: int| 0 <= j < keys@.len() ==> (#[trigger] keys@[j])@ == items[j].0,
                    warnings.deep_view() == before + repo_key_warnings(items, i as int, prefix@),
                decreases keys.len() - i,
            {
                let key = keys[i].as_str();
                if !same(key, "name") && !same(key, "owner") {
                    let ghost listed = warnings.deep_view();
                    let mut text = "  WARNING! unused manifest key: ".to_owned();
                    text.append(prefix);
                    text.append(key);
                    assert(text@ =~= warning(prefix@ + key@));
                    warnings.push(text);
                    assert(warnings.deep_view() =~= listed.push(warning(prefix@ + key@)));
                }
                i += 1;
                assert(warnings.deep_view() =~= before + repo_key_warnings(
                    items,
                    i as int,
                    prefix@,
                ));
            }
        },
        None => {},
    }
}

/// Puts behind `warnings` the warnings about what describes the entry under `key`.
fn note_entry(key: &str, value: &Value, warnings: &mut Vec<String>)
    ensures
        final(warnings).deep_view() == old(warnings).deep_view() + entry_warnings(
            key@,
            value_item(*value),
        ),
{
    let ghost before = warnings.deep_view();
    assert(before + Seq::<Seq<char>>::empty() =~= before);
    match value_as_table(value) {
        Some(fields) => {
            let ghost items = table_items(*fields);
            let mut prefix = "repo.".to_owned();
            prefix.append(key);
            prefix.append(".");
            let mut inner = prefix.clone();
            inner.append("details.");
            assert(prefix@ =~= "repo."@ + key@ + "."@);
            let keys = keys_of(fields);
            let mut i: usize = 0;
            while i < keys.len()
                invariant
                    i <= keys.len(),
                    items == table_items(*fields),
                    keys@.len() == items.len(),
                    inner@ == prefix@ + "details."@,
                    forall|j: int| 0 <= j < keys@.len() ==> (#[trigger] keys@[j])@ == items[j].0,
                    forall|j: int|
                        0 <= j < keys@.len() ==> lookup(items, (#[trigger] keys@[j])@) == Some(
                            items[j].1,
                        ),
                    warnings.deep_view() == before + entry_keys_warnings(
                        items,
                        i as int,
                        prefix@,
                    ),
                decreases keys.len() - i,
            {
                let field = keys[i].as_str();
                let ghost listed = warnings.deep_view();
                if same(field, "details") {
                    match table_get(fields, field) {
                        Some(details) => {
                            note_repo(details, inner.as_str(), warnings);
                        },
                        None => {},
                    }
                } else if !same(field, "dependencies") {
                    let mut text = "  WARNING! unused manifest key: ".to_owned();
                    text.append(prefix.as_str());
                    text.append(field);
                    assert(text@ =~= warning(prefix@ + field@));
                    warnings.push(text);
                    assert(warnings.deep_view() =~= listed + seq![warning(prefix@ + field@)]);
                } else {
                    assert(listed + Seq::<Seq<char>>::empty() =~= listed);
                }
                assert(warnings.deep_view() =~= listed + entry_key_warnings(
                    items[i as int].0,
                    items[i as int].1,
                    prefix@,
                ));
                i += 1;
                assert(warnings.deep_view() =~= before + entry_keys_warnings(
                    items,
                    i as int,
                    prefix@,
                ));
            }
        },
        None => match value_as_array(value) {
            Some(list) => {
                if list.len() >= 1 {
                    let mut prefix = "repo.".to_owned();
                    prefix.append(key);
                    prefix.append(".0.");
                    assert(prefix@ =~= "repo."@ + key@ + ".0."@);
                    note_repo(&list[0], prefix.as_str(), warnings);
                }
            },
            None => {},
        },
    }
}

/// Puts behind `warnings` the warnings about the tables under `repo`.
fn note_entries(value: &Value, warnings: &mut Vec<String>)
    ensures
        final(warnings).deep_view() == old(warnings).deep_view() + top_key_warnings(
            "repo"@,
            value_item(*value),
        ),
{
    let ghost before = warnings.deep_view();
    proof {
        reveal_strlit("repo");
        reveal_strlit("current-repo");
        assert("repo"@ != "current-repo"@) by {
            assert("repo"@.len() != "current-repo"@.len());
        }
        assert(before + Seq::<Seq<char>>::empty() =~= before);
    }
    match value_as_table(value) {
        Some(entries) => {
            let ghost items = table_items(*entries);
            let keys = keys_of(entries);
            let mut i: usize = 0;
            while i < keys.len()
                invariant
                    i <= keys.len(),
                    items == table_items(*entries),
                    keys@.len() == items.len(),
                    forall|j: int| 0 <= j < keys@.len() ==> (#[trigger] keys@[j])@ == items[j].0,
                    forall|j: int|
                        0 <= j < keys@.len() ==> lookup(items, (#[trigger] keys@[j])@) == Some(
                            items[j].1,
                        ),
                    warnings.deep_view() == before + entries_warnings(items, i as int),
                decreases keys.len() - i,
            {
                let key = keys[i].as_str();
                let ghost listed = warnings.deep_view();
                match table_get(entries, key) {
                    Some(entry) => {
                        note_entry(key, entry, warnings);
                    },
                    None => {},
                }
                i += 1;
                assert(warnings.deep_view() =~= before + entries_warnings(items, i as int));
            }
        },
        None => {},
    }
}

/// The warnings about a document.
fn note_all(table: &Table) -> (warnings: Vec<String>)
    ensures
        warnings.deep_view() == manifest_warnings(table_items(*table)),
{
    let ghost doc = table_items(*table);
    let mut warnings: Vec<String> = Vec::new();
    let keys = keys_of(table);
    let mut i: usize = 0;
    assert(warnings.deep_view() =~= top_warnings(doc, 0));
    while i < keys.len()
        invariant
            i <= keys.len(),
            doc == table_items(*table),
            keys@.len() == doc.len(),
            forall|j: int| 0 <= j < keys@.len() ==> (#[trigger] keys@[j])@ == doc[j].0,
            forall|j: int|
                0 <= j < keys@.len() ==> lookup(doc, (#[trigger] keys@[j])@) == Some(doc[j].1),
            warnings.deep_view() == top_warnings(doc, i as int),
        decreases keys.len() - i,
    {
        let key = keys[i].as_str();
        let ghost listed = warnings.deep_view();
        if same(key, "current-repo") {
            match table_get(table, key) {
                Some(current) => {
                    note_repo(current, "current-repo.", &mut warnings);
                },
                None => {},
            }
        } else if same(key, "repo") {
            match table_get(table, key) {
                Some(entries) => {
                    note_entries(entries, &mut warnings);
                },
                None => {},
            }
        } else {
            let mut text = "  WARNING! unused manifest key: ".to_owned();
            text.append(key);
            assert(text@ =~= warning(key@));
            warnings.push(text);
            assert(warnings.deep_view() =~= listed + seq![warning(key@)]);
        }
        assert(warnings.deep_view() =~= listed + top_key_warnings(doc[i as int].0, doc[i as int].1));
        i += 1;
    }
    warnings
}

impl ManifestFile {
    /// Whether the manifest is well formed: see [`ManifestView::wf`].
    pub open spec fn wf(&self) -> bool {
        self@.manifest.wf()
    }

    /// Returns the warnings produced while generating the `Manifest`: one for
    /// each key of the text that the manifest does not use, in the order of
    /// the text.
    pub fn warnings(&self) -> (warnings: &Vec<String>)
        ensures
            warnings.deep_view() == self@.warnings,
    {
        &self.warnings
    }

    /// Takes ownership of this struct and returns underlying `Manifest`.
    pub fn manifest(self) -> (manifest: Manifest)
        ensures
            manifest@ == self@.manifest,
            self.wf() ==> manifest.wf(),
    {
        self.manifest
    }

    /// Reads the manifest that a parsed document describes.
    pub fn from_table(table: &Table) -> (result: Result<Self, ManifestFileError>)
        ensures
            match result {
                Ok(file) => {
                    &&& file.wf()
                    &&& manifest_in(table_items(*table)) == Some(file@.manifest)
                    &&& file@.warnings == manifest_warnings(table_items(*table))
                },
                Err(e) => {
                    &&& manifest_in(table_items(*table)) is None
                    &&& e matches ManifestFileError::MalformedManifest(path)
                    &&& path@ == fault_in(table_items(*table))
                },
            },
    {
        let ghost doc = table_items(*table);
        let current_repo = match read_repo(table_get(table, "current-repo")) {
            Some(repo) => repo,
            None => {
                return Err(ManifestFileError::MalformedManifest("current-repo".to_owned()));
            },
        };
        let entries = match table_get(table, "repo") {
            Some(value) => match value_as_table(value) {
                Some(entries) => entries,
                None => {
                    return Err(ManifestFileError::MalformedManifest("repo".to_owned()));
                },
            },
            None => {
                return Err(ManifestFileError::MalformedManifest("repo".to_owned()));
            },
        };
        let ghost items = table_items(*entries);
        let ghost current = current_repo@;
        let keys = keys_of(entries);
        let mut manifest = Manifest::new(current_repo);
        let mut i: usize = 0;
        assert(manifest@.repo =~= manifest_of(current, items, 0).repo);
        while i < keys.len()
            invariant
                i <= keys.len(),
                doc == table_items(*table),
                items == table_items(*entries),
                repo_in(lookup(doc, "current-repo"@)) == Some(current),
                lookup(doc, "repo"@) == Some(Item::Table(items)),
                keys@.len() == items.len(),
                forall|j: int| 0 <= j < keys@.len() ==> (#[trigger] keys@[j])@ == items[j].0,
                forall|j: int|
                    0 <= j < keys@.len() ==> lookup(items, (#[trigger] keys@[j])@) == Some(
                        items[j].1,
                    ),
                manifest.wf(),
                forall|j: int| 0 <= j < i ==> is_entry((#[trigger] items[j]).1),
                manifest@ == manifest_of(current, items, i as int),
            decreases keys.len() - i,
        {
            let key = keys[i].as_str();
            let entry = match table_get(entries, key) {
                Some(value) => read_entry(value),
                None => None,
            };
            match entry {
                Some(entry) => {
                    manifest.insert(key.to_owned(), entry);
                },
                None => {
                    let mut path = "repo.".to_owned();
                    path.append(key);
                    proof {
                        assert(!is_entry(items[i as int].1));
                        let found = first_fault(items);
                        if found < i {
                            assert(is_entry(items[found].1));
                        } else if found > i {
                            assert(is_entry(items[i as int].1));
                        }
                        assert(path@ =~= "repo."@ + items[found].0);
                    }
                    return Err(ManifestFileError::MalformedManifest(path));
                },
            }
            i += 1;
        }
        let warnings = note_all(table);
        Ok(ManifestFile { warnings, manifest })
    }

    /// Reads a manifest from its text.
    pub fn try_from(value: String) -> (result: Result<Self, ManifestFileError>)
        ensures
            match result {
                Ok(file) => {
                    &&& file.wf()
                    &&& parsed_document(value@) matches Some(doc)
                    &&& manifest_in(doc) == Some(file@.manifest)
                    &&& file@.warnings == manifest_warnings(doc)
                },
                Err(e) => match parsed_document(value@) {
                    None => e is FailedToParseManifest,
                    Some(doc) => {
                        &&& manifest_in(doc) is None
                        &&& e matches ManifestFileError::MalformedManifest(path)
                        &&& path@ == fault_in(doc)
                    },
                },
            },
    {
        match parse_document(value.as_str()) {
            Ok(table) => Self::from_table(&table),
            Err(e) => Err(ManifestFileError::FailedToParseManifest(e)),
        }
    }
}

} // verus!
