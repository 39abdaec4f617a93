//! Reading the two manifests: the project's own and that of a dependency.
//!
//! The text is parsed by the `toml` crate. What that crate hands back is
//! opaque to the verifier, so the contracts speak of a document as a tree of
//! plain values, `Node`: three named functions say which tree a text, a
//! table and a value of the crate stand for, and the wrappers around the
//! crate's accessors are believed to agree with them. Everything else—which
//! fields a manifest must hold, where its paths lead, which platform is
//! picked, that there is one target—is stated over those trees and proved.

use crate::paths::{join, join_of, text_eq};
use crate::types::{
    BuildDirs, BuildPlatform, BuildShared, BuildTarget, ConfigError, DirsView, PlatformView,
    SharedView, TargetView,
};
use vstd::prelude::*;

verus! {

/// `toml::map::Map`, the table of a TOML document.
#[verifier::external_type_specification]
#[verifier::external_body]
#[verifier::reject_recursive_types(K)]
#[verifier::reject_recursive_types(V)]
pub struct ExMap<K, V>(toml::map::Map<K, V>);

/// `toml::Value`, one value of a TOML document.
#[verifier::external_type_specification]
#[verifier::external_body]
pub struct ExValue(toml::Value);

/// `toml::de::Error`, the reason why a text is not a TOML document.
#[verifier::external_type_specification]
#[verifier::external_body]
pub struct ExParseError(toml::de::Error);

/// A value of a document, as far as a manifest is read: a string, an array,
/// a table with its entries in their order, or anything else.
pub enum Node {
    Text(Seq<char>),
    List(Seq<Node>),
    Table(Seq<(Seq<char>, Node)>),
    Other,
}

/// The entries of the document that `text` is, in the order of the table
/// that parsing gives; nothing where `text` is not TOML.
pub uninterp spec fn parsed_document(text: Seq<char>) -> Option<Seq<(Seq<char>, Node)>>;

/// The keys of `table` with what they hold, in the order in which the table
/// hands them out.
pub uninterp spec fn table_entries(table: toml::Table) -> Seq<(Seq<char>, Node)>;

/// What `value` holds.
pub uninterp spec fn node_of(value: toml::Value) -> Node;

/// What each of `values` holds.
pub open spec fn nodes_of(values: Seq<toml::Value>) -> Seq<Node> {
    Seq::new(values.len(), |i: int| node_of(values[i]))
}

/// Calls `str::parse::<toml::Table>`, that is `toml::Table::from_str`.
/// Whether the text is taken, and which entries the table then has, depends
/// on the text alone.
#[verifier::external_body]
fn parse_document(text: &str) -> (outcome: Result<toml::Table, toml::de::Error>)
    ensures
        match outcome {
            Ok(table) => parsed_document(text@) == Some(table_entries(table)),
            Err(_) => parsed_document(text@) is None,
        },
{
    text.parse::<toml::Table>()
}

/// Calls `toml::map::Map::get`. A table holds a key once, so the value that
/// comes back is that of the first entry under `key`, and none comes back
/// where no entry has that key.
#[verifier::external_body]
fn table_get<'a>(table: &'a toml::Table, key: &str) -> (found: Option<&'a toml::Value>)
    ensures
        match found {
            Some(value) => lookup(table_entries(*table), key@) == Some(node_of(*value)),
            None => lookup(table_entries(*table), key@) is None,
        },
{
    table.get(key)
}

/// Calls `toml::map::Map::iter` and collects what it yields: every entry of
/// the table, in the table's order.
#[verifier::external_body]
fn table_items<'a>(table: &'a toml::Table) -> (items: Vec<(&'a String, &'a toml::Value)>)
    ensures
        items@.len() == table_entries(*table).len(),
        forall|i: int|
            0 <= i < items@.len() ==> (#[trigger] items@[i]).0@ == table_entries(*table)[i].0
                && node_of(*items@[i].1) == table_entries(*table)[i].1,
{
    table.iter().collect()
}

/// Calls `toml::Value::as_str`: the string of a value that is one.
#[verifier::external_body]
fn value_as_str<'a>(value: &'a toml::Value) -> (text: Option<&'a str>)
    ensures
        match text {
            Some(t) => node_of(*value) == Node::Text(t@),
            None => !(node_of(*value) is Text),
        },
{
    value.as_str()
}

/// Calls `toml::Value::as_array`: the items of a value that is an array.
#[verifier::external_body]
fn value_as_array<'a>(value: &'a toml::Value) -> (items: Option<&'a Vec<toml::Value>>)
    ensures
        match items {
            Some(list) => node_of(*value) == Node::List(nodes_of(list@)),
            None => !(node_of(*value) is List),
        },
{
    value.as_array()
}

/// Calls `toml::Value::as_table`: the table of a value that is one.
#[verifier::external_body]
fn value_as_table<'a>(value: &'a toml::Value) -> (table: Option<&'a toml::Table>)
    ensures
        match table {
            Some(t) => node_of(*value) == Node::Table(table_entries(*t)),
            None => !(node_of(*value) is Table),
        },
{
    value.as_table()
}

/// What the first entry under `key` holds.
pub open spec fn lookup(entries: Seq<(Seq<char>, Node)>, key: Seq<char>) -> Option<Node>
    decreases entries.len(),
{
    if entries.len() == 0 {
        None
    } else if entries[0].0 == key {
        Some(entries[0].1)
    } else {
        lookup(entries.drop_first(), key)
    }
}

/// A string read as its characters, an error left as it is.
pub open spec fn text_outcome(outcome: Result<String, ConfigError>) -> Result<
    Seq<char>,
    ConfigError,
> {
    match outcome {
        Ok(text) => Ok(text@),
        Err(e) => Err(e),
    }
}

/// A list of strings read as their characters, an error left as it is.
pub open spec fn list_outcome(outcome: Result<Vec<String>, ConfigError>) -> Result<
    Seq<Seq<char>>,
    ConfigError,
> {
    match outcome {
        Ok(list) => Ok(list.deep_view()),
        Err(e) => Err(e),
    }
}

/// The strings that `nodes` are, provided that every one of them is a
/// string.
pub open spec fn texts_of(nodes: Seq<Node>) -> Result<Seq<Seq<char>>, ConfigError> {
    if forall|i: int| 0 <= i < nodes.len() ==> (#[trigger] nodes[i]) is Text {
        Ok(Seq::new(nodes.len(), |i: int| nodes[i]->Text_0))
    } else {
        Err(ConfigError::Malformed)
    }
}

/// What `entries` hold, without their keys.
pub open spec fn values_of(entries: Seq<(Seq<char>, Node)>) -> Seq<Node> {
    Seq::new(entries.len(), |i: int| entries[i].1)
}

/// A field that must be there and hold a string.
pub open spec fn text_field(entries: Seq<(Seq<char>, Node)>, key: Seq<char>) -> Result<
    Seq<char>,
    ConfigError,
> {
    match lookup(entries, key) {
        None => Err(ConfigError::MissingField),
        Some(Node::Text(text)) => Ok(text),
        Some(_) => Err(ConfigError::Malformed),
    }
}

/// A field that must be there and hold an array of strings.
pub open spec fn list_field(entries: Seq<(Seq<char>, Node)>, key: Seq<char>) -> Result<
    Seq<Seq<char>>,
    ConfigError,
> {
    match lookup(entries, key) {
        None => Err(ConfigError::MissingField),
        Some(Node::List(items)) => texts_of(items),
        Some(_) => Err(ConfigError::Malformed),
    }
}

/// A field that must be there and hold a table: the entries of the table.
pub open spec fn table_field(entries: Seq<(Seq<char>, Node)>, key: Seq<char>) -> Result<
    Seq<(Seq<char>, Node)>,
    ConfigError,
> {
    match lookup(entries, key) {
        None => Err(ConfigError::MissingField),
        Some(Node::Table(inner)) => Ok(inner),
        Some(_) => Err(ConfigError::Malformed),
    }
}

/// A field that may be missing and otherwise holds a table of named paths:
/// the paths in the table's order, none where the field is missing.
pub open spec fn path_table(entries: Seq<(Seq<char>, Node)>, key: Seq<char>) -> Result<
    Seq<Seq<char>>,
    ConfigError,
> {
    match lookup(entries, key) {
        None => Ok(Seq::empty()),
        Some(Node::Table(inner)) => texts_of(values_of(inner)),
        Some(_) => Err(ConfigError::Malformed),
    }
}

/// Reads a field that must be there and hold a string.
fn get_text(table: &toml::Table, key: &str) -> (outcome: Result<String, ConfigError>)
    ensures
        text_outcome(outcome) == text_field(table_entries(*table), key@),
{
    match table_get(table, key) {
        None => Err(ConfigError::MissingField),
        Some(value) => match value_as_str(value) {
            None => Err(ConfigError::Malformed),
            Some(text) => Ok(text.to_owned()),
        },
    }
}

/// Reads the strings of an array, all or none.
fn collect_texts(values: &Vec<toml::Value>) -> (outcome: Result<Vec<String>, ConfigError>)
    ensures
        list_outcome(outcome) == texts_of(nodes_of(values@)),
{
    let ghost nodes = nodes_of(values@);
    let mut texts: Vec<String> = Vec::new();
    let mut at: usize = 0;
    while at < values.len()
        invariant
            at <= values.len(),
            nodes == nodes_of(values@),
            texts@.len() == at,
            forall|i: int| 0 <= i < at ==> #[trigger] nodes[i] == Node::Text(texts@[i]@),
        decreases values.len() - at,
    {
        match value_as_str(&values[at]) {
            None => {
                assert(!(nodes[at as int] is Text));
                return Err(ConfigError::Malformed);
            },
            Some(text) => {
                assert(nodes[at as int] == Node::Text(text@));
                texts.push(text.to_owned());
            },
        }
        at = at + 1;
    }
    assert(texts.deep_view() =~= texts_of(nodes)->Ok_0);
    Ok(texts)
}

/// Reads the strings that the entries of a table hold, all or none.
fn collect_entry_texts(table: &toml::Table) -> (outcome: Result<Vec<String>, ConfigError>)
    ensures
        list_outcome(outcome) == texts_of(values_of(table_entries(*table))),
{
    let items = table_items(table);
    let ghost nodes = values_of(table_entries(*table));
    let mut texts: Vec<String> = Vec::new();
    let mut at: usize = 0;
    while at < items.len()
        invariant
            at <= items.len(),
            nodes == values_of(table_entries(*table)),
            items@.len() == nodes.len(),
            forall|i: int| 0 <= i < items@.len() ==> node_of(*(#[trigger] items@[i]).1) == nodes[i],
            texts@.len() == at,
            forall|i: int| 0 <= i < at ==> #[trigger] nodes[i] == Node::Text(texts@[i]@),
        decreases items.len() - at,
    {
        match value_as_str(items[at].1) {
            None => {
                assert(!(nodes[at as int] is Text));
                return Err(ConfigError::Malformed);
            },
            Some(text) => {
                assert(nodes[at as int] == Node::Text(text@));
                texts.push(text.to_owned());
            },
        }
        at = at + 1;
    }
    assert(texts.deep_view() =~= texts_of(nodes)->Ok_0);
    Ok(texts)
}

/// Reads a field that must be there and hold an array of strings.
fn get_list(table: &toml::Table, key: &str) -> (outcome: Result<Vec<String>, ConfigError>)
    ensures
        list_outcome(outcome) == list_field(table_entries(*table), key@),
{
    match table_get(table, key) {
        None => Err(ConfigError::MissingField),
        Some(value) => match value_as_array(value) {
            None => Err(ConfigError::Malformed),
            Some(items) => collect_texts(items),
        },
    }
}

/// Reads a field that must be there and hold a table.
fn get_table<'a>(table: &'a toml::Table, key: &str) -> (outcome: Result<
    &'a toml::Table,
    ConfigError,
>)
    ensures
        match outcome {
            Ok(inner) => table_field(table_entries(*table), key@) == Ok::<
                Seq<(Seq<char>, Node)>,
                ConfigError,
            >(table_entries(*inner)),
            Err(e) => table_field(table_entries(*table), key@) == Err::<
                Seq<(Seq<char>, Node)>,
                ConfigError,
            >(e),
        },
{
    match table_get(table, key) {
        None => Err(ConfigError::MissingField),
        Some(value) => match value_as_table(value) {
            None => Err(ConfigError::Malformed),
            Some(inner) => Ok(inner),
        },
    }
}

/// Reads a field that may be missing and otherwise holds a table of paths.
fn get_path_table(table: &toml::Table, key: &str) -> (outcome: Result<Vec<String>, ConfigError>)
    ensures
        list_outcome(outcome) == path_table(table_entries(*table), key@),
{
    match table_get(table, key) {
        None => {
            let none: Vec<String> = Vec::new();
            assert(none.deep_view() =~= Seq::<Seq<char>>::empty());
            Ok(none)
        },
        Some(value) => match value_as_table(value) {
            None => Err(ConfigError::Malformed),
            Some(inner) => collect_entry_texts(inner),
        },
    }
}

/// What the manifest of a dependency declares, as it is written there.
#[derive(Debug, Clone)]
pub struct DependencyManifest {
    pub build: String,
    pub clean: String,
    pub headers: String,
    pub libraries: Vec<String>,
    pub objects: Vec<String>,
}

/// What a `DependencyManifest` holds.
#[verifier::ext_equal]
pub struct ManifestView {
    pub build: Seq<char>,
    pub clean: Seq<char>,
    pub headers: Seq<char>,
    pub libraries: Seq<Seq<char>>,
    pub objects: Seq<Seq<char>>,
}

impl DeepView for DependencyManifest {
    type V = ManifestView;

    open spec fn deep_view(&self) -> ManifestView {
        ManifestView {
            build: self.build@,
            clean: self.clean@,
            headers: self.headers@,
            libraries: self.libraries.deep_view(),
            objects: self.objects.deep_view(),
        }
    }
}

impl View for DependencyManifest {
    type V = ManifestView;

    open spec fn view(&self) -> ManifestView {
        self.deep_view()
    }
}

/// One entry found in the dependencies directory: its path, and the text of
/// the manifest in it where there is one.
#[derive(Debug, Clone)]
pub struct DependencySource {
    pub path: String,
    pub manifest: Option<String>,
}

/// What a `DependencySource` holds.
#[verifier::ext_equal]
pub struct SourceView {
    pub path: Seq<char>,
    pub manifest: Option<Seq<char>>,
}

impl DeepView for DependencySource {
    type V = SourceView;

    open spec fn deep_view(&self) -> SourceView {
        SourceView { path: self.path@, manifest: self.manifest.deep_view() }
    }
}

impl View for DependencySource {
    type V = SourceView;

    open spec fn view(&self) -> SourceView {
        self.deep_view()
    }
}

/// What a document with the entries `entries` declares of a dependency.
/// The fields are read in the order libraries, objects, headers, clean,
/// build, and the first that fails decides the error.
pub open spec fn manifest_of(entries: Seq<(Seq<char>, Node)>) -> Result<
    ManifestView,
    ConfigError,
> {
    match path_table(entries, "Libraries"@) {
        Err(e) => Err(e),
        Ok(libraries) => match path_table(entries, "Objects"@) {
            Err(e) => Err(e),
            Ok(objects) => match text_field(entries, "headers"@) {
                Err(e) => Err(e),
                Ok(headers) => match text_field(entries, "clean"@) {
                    Err(e) => Err(e),
                    Ok(clean) => match text_field(entries, "build"@) {
                        Err(e) => Err(e),
                        Ok(build) => Ok(
                            ManifestView { build, clean, headers, libraries, objects },
                        ),
                    },
                },
            },
        },
    }
}

/// What the text of a dependency's manifest declares.
pub open spec fn manifest_of_text(text: Seq<char>) -> Result<ManifestView, ConfigError> {
    match parsed_document(text) {
        None => Err(ConfigError::Malformed),
        Some(entries) => manifest_of(entries),
    }
}

/// Each of `paths` taken from the directory `root`.
pub open spec fn joined_all(root: Seq<char>, paths: Seq<Seq<char>>) -> Seq<Seq<char>> {
    Seq::new(paths.len(), |i: int| join_of(root, paths[i]))
}

/// The dependency in the directory `root` whose manifest declares
/// `manifest`: the commands as they are, the paths taken from `root`.
pub open spec fn resolved(root: Seq<char>, manifest: ManifestView) -> SharedView {
    SharedView {
        root,
        clean: manifest.clean,
        build: manifest.build,
        headers: join_of(root, manifest.headers),
        objs: joined_all(root, manifest.objects),
        libs: joined_all(root, manifest.libraries),
    }
}

/// The dependency that one entry of the dependencies directory stands for.
pub open spec fn dependency_of(source: SourceView) -> Result<SharedView, ConfigError> {
    match source.manifest {
        None => Err(ConfigError::MissingManifest),
        Some(text) => match manifest_of_text(text) {
            Err(e) => Err(e),
            Ok(manifest) => Ok(resolved(source.path, manifest)),
        },
    }
}

/// The dependencies that the entries `found` under `dir` stand for: one for
/// each entry but `dir` itself, in the order of the entries. The first entry
/// that fails decides the error, and then there is no list at all.
pub open spec fn dependencies_of(dir: Seq<char>, found: Seq<SourceView>) -> Result<
    Seq<SharedView>,
    ConfigError,
>
    decreases found.len(),
{
    if found.len() == 0 {
        Ok(Seq::empty())
    } else {
        match dependencies_of(dir, found.drop_last()) {
            Err(e) => Err(e),
            Ok(before) => {
                if found.last().path == dir {
                    Ok(before)
                } else {
                    match dependency_of(found.last()) {
                        Err(e) => Err(e),
                        Ok(shared) => Ok(before.push(shared)),
                    }
                }
            },
        }
    }
}

/// Reads what a parsed document declares of a dependency.
pub fn read_dependency_manifest(doc: &toml::Table) -> (outcome: Result<
    DependencyManifest,
    ConfigError,
>)
    ensures
        match outcome {
            Ok(manifest) => manifest_of(table_entries(*doc)) == Ok::<ManifestView, ConfigError>(
                manifest@,
            ),
            Err(e) => manifest_of(table_entries(*doc)) == Err::<ManifestView, ConfigError>(e),
        },
{
    let libraries = match get_path_table(doc, "Libraries") {
        Err(e) => {
            return Err(e);
        },
        Ok(list) => list,
    };
    let objects = match get_path_table(doc, "Objects") {
        Err(e) => {
            return Err(e);
        },
        Ok(list) => list,
    };
    let headers = match get_text(doc, "headers") {
        Err(e) => {
            return Err(e);
        },
        Ok(text) => text,
    };
    let clean = match get_text(doc, "clean") {
        Err(e) => {
            return Err(e);
        },
        Ok(text) => text,
    };
    let build = match get_text(doc, "build") {
        Err(e) => {
            return Err(e);
        },
        Ok(text) => text,
    };
    Ok(DependencyManifest { build, clean, headers, libraries, objects })
}

/// Reads the manifest of a dependency.
///
/// The text must be TOML (else `Malformed`). `headers`, `clean` and `build`
/// must be there (else `MissingField`) and hold strings (else `Malformed`).
/// `Libraries` and `Objects` may be missing; where one is there it must be a
/// table of strings (else `Malformed`), and its values are taken in the
/// order of that table, which the parser keeps as the manifest has it.
pub fn parse_dependency_manifest(text: &str) -> (outcome: Result<DependencyManifest, ConfigError>)
    ensures
        match outcome {
            Ok(manifest) => manifest_of_text(text@) == Ok::<ManifestView, ConfigError>(manifest@),
            Err(e) => manifest_of_text(text@) == Err::<ManifestView, ConfigError>(e),
        },
{
    match parse_document(text) {
        Err(_) => Err(ConfigError::Malformed),
        Ok(doc) => read_dependency_manifest(&doc),
    }
}

/// Takes each of `paths` from the directory `root`.
pub fn join_all(root: &str, paths: &Vec<String>) -> (joined: Vec<String>)
    ensures
        joined.deep_view() == joined_all(root@, paths.deep_view()),
{
    let mut joined: Vec<String> = Vec::new();
    let mut at: usize = 0;
    while at < paths.len()
        invariant
            at <= paths.len(),
            joined@.len() == at,
            forall|i: int| 0 <= i < at ==> (#[trigger] joined@[i])@ == join_of(root@, paths@[i]@),
        decreases paths.len() - at,
    {
        joined.push(join(root, paths[at].as_str()));
        at = at + 1;
    }
    assert(joined.deep_view() =~= joined_all(root@, paths.deep_view()));
    joined
}

/// Places what a manifest declares in the directory `root` of its
/// dependency: the header root, the objects and the libraries are taken
/// from `root`, the two commands stay as they are.
pub fn resolve_dependency(root: &str, manifest: &DependencyManifest) -> (shared: BuildShared)
    ensures
        shared@ == resolved(root@, manifest@),
{
    BuildShared {
        root: root.to_owned(),
        clean: manifest.clean.clone(),
        build: manifest.build.clone(),
        headers: join(root, manifest.headers.as_str()),
        objs: join_all(root, &manifest.objects),
        libs: join_all(root, &manifest.libraries),
    }
}

/// Resolves one entry of the dependencies directory.
pub fn parse_dependency(source: &DependencySource) -> (outcome: Result<BuildShared, ConfigError>)
    ensures
        match outcome {
            Ok(shared) => dependency_of(source@) == Ok::<SharedView, ConfigError>(shared@),
            Err(e) => dependency_of(source@) == Err::<SharedView, ConfigError>(e),
        },
{
    match &source.manifest {
        None => Err(ConfigError::MissingManifest),
        Some(text) => match parse_dependency_manifest(text.as_str()) {
            Err(e) => Err(e),
            Ok(manifest) => Ok(resolve_dependency(source.path.as_str(), &manifest)),
        },
    }
}

/// Resolves the shared dependencies of a project.
///
/// `found` holds what a walk of the dependencies directory `dir`, one level
/// deep, came upon. The entry for `dir` itself is passed over. Every other
/// entry gives one dependency, in the order of the walk. Resolution is all or
/// nothing: the first entry that has no manifest, or whose manifest is turned
/// down, decides the error.
pub fn parse_dependencies(dir: &str, found: &Vec<DependencySource>) -> (outcome: Result<
    Vec<BuildShared>,
    ConfigError,
>)
    ensures
        match outcome {
            Ok(list) => dependencies_of(dir@, found.deep_view()) == Ok::<
                Seq<SharedView>,
                ConfigError,
            >(list.deep_view()),
            Err(e) => dependencies_of(dir@, found.deep_view()) == Err::<
                Seq<SharedView>,
                ConfigError,
            >(e),
        },
{
    let mut list: Vec<BuildShared> = Vec::new();
    let mut at: usize = 0;
    let ghost all = found.deep_view();
    assert(all.take(0) =~= Seq::<SourceView>::empty());
    assert(list.deep_view() =~= Seq::<SharedView>::empty());
    while at < found.len()
        invariant
            at <= found.len(),
            all == found.deep_view(),
            dependencies_of(dir@, all.take(at as int)) == Ok::<Seq<SharedView>, ConfigError>(
                list.deep_view(),
            ),
        decreases found.len() - at,
    {
        let ghost before = list.deep_view();
        proof {
            assert(all.take(at + 1).drop_last() =~= all.take(at as int));
            assert(all.take(at + 1).last() == found@[at as int]@);
        }
        if !text_eq(found[at].path.as_str(), dir) {
            match parse_dependency(&found[at]) {
                Err(e) => {
                    proof {
                        lemma_dependencies_fail(dir@, all, at + 1);
                    }
                    return Err(e);
                },
                Ok(shared) => {
                    list.push(shared);
                    assert(list.deep_view() =~= before.push(shared@));
                },
            }
        }
        at = at + 1;
    }
    assert(all.take(at as int) =~= all);
    Ok(list)
}

/// The entries that stand for a dependency: all but `dir` itself.
pub open spec fn children_of(dir: Seq<char>, found: Seq<SourceView>) -> Seq<SourceView> {
    found.filter(|source: SourceView| source.path != dir)
}

/// Resolution is all or nothing. It succeeds exactly when every entry but
/// `dir` resolves, and then gives the dependency of each of them, in their
/// order. It fails with the error of the first entry that does not resolve.
pub proof fn lemma_dependencies_of(dir: Seq<char>, found: Seq<SourceView>)
    ensures
        dependencies_of(dir, found) is Ok <==> forall|i: int|
            0 <= i < found.len() && found[i].path != dir ==> (#[trigger] dependency_of(
                found[i],
            )) is Ok,
        dependencies_of(dir, found) matches Ok(list) ==> list == children_of(
            dir,
            found,
        ).map_values(|source: SourceView| dependency_of(source)->Ok_0),
        dependencies_of(dir, found) matches Err(e) ==> exists|i: int|
            0 <= i < found.len() && found[i].path != dir && #[trigger] dependency_of(found[i])
                == Err::<SharedView, ConfigError>(e) && forall|j: int|
                0 <= j < i && found[j].path != dir ==> (#[trigger] dependency_of(found[j])) is Ok,
    decreases found.len(),
{
    reveal(Seq::filter);
    if found.len() > 0 {
        let front = found.drop_last();
        let last = found.last();
        lemma_dependencies_of(dir, front);
        assert forall|i: int| 0 <= i < front.len() implies front[i] == found[i] by {}
        match dependencies_of(dir, front) {
            Err(e) => {
                let i: int = choose|i: int|
                    0 <= i < front.len() && front[i].path != dir && #[trigger] dependency_of(
                        front[i],
                    ) == Err::<SharedView, ConfigError>(e) && forall|j: int|
                        0 <= j < i && front[j].path != dir ==> (#[trigger] dependency_of(
                            front[j],
                        )) is Ok;
                assert(found[i].path != dir && dependency_of(found[i]) == Err::<
                    SharedView,
                    ConfigError,
                >(e));
                assert forall|j: int| 0 <= j < i && found[j].path != dir implies (
                #[trigger] dependency_of(found[j])) is Ok by {
                    assert(front[j] == found[j]);
                }
            },
            Ok(before) => {
                assert(forall|j: int|
                    0 <= j < front.len() && found[j].path != dir ==> (#[trigger] dependency_of(
                        found[j],
                    )) is Ok) by {
                    assert forall|j: int|
                        0 <= j < front.len() && found[j].path != dir implies (
                    #[trigger] dependency_of(found[j])) is Ok by {
                        assert(front[j] == found[j]);
                    }
                }
                let kept = children_of(dir, front);
                let resolve = |source: SourceView| dependency_of(source)->Ok_0;
                if last.path == dir {
                    assert(children_of(dir, found) == kept);
                } else {
                    assert(found[found.len() - 1] == last);
                    match dependency_of(last) {
                        Err(e) => {},
                        Ok(shared) => {
                            assert(children_of(dir, found) == kept.push(last));
                            assert(kept.push(last).map_values(resolve) =~= kept.map_values(
                                resolve,
                            ).push(shared));
                        },
                    }
                }
            },
        }
    } else {
        assert(children_of(dir, found).map_values(
            |source: SourceView| dependency_of(source)->Ok_0,
        ) =~= Seq::<SharedView>::empty());
    }
}

/// Once a front part of the entries fails, the whole fails in the same way.
pub proof fn lemma_dependencies_fail(dir: Seq<char>, found: Seq<SourceView>, upto: int)
    requires
        0 <= upto <= found.len(),
        dependencies_of(dir, found.take(upto)) is Err,
    ensures
        dependencies_of(dir, found) == dependencies_of(dir, found.take(upto)),
    decreases found.len(),
{
    if upto == found.len() {
        assert(found.take(upto) =~= found);
    } else {
        assert(found.drop_last().take(upto) =~= found.take(upto));
        lemma_dependencies_fail(dir, found.drop_last(), upto);
    }
}

/// The name under which the project manifest keeps the profile of the host
/// `host`, which is named as the operating system names itself.
pub open spec fn platform_key_of(host: Seq<char>) -> Option<Seq<char>> {
    if host == "macos"@ {
        Some("osx"@)
    } else if host == "windows"@ {
        Some("win32"@)
    } else if host == "linux"@ {
        Some("linux"@)
    } else {
        None
    }
}

/// The platform profile that a table declares. The fields are read in the
/// order compiler, linker, compiler arguments, linker arguments.
pub open spec fn platform_of(entries: Seq<(Seq<char>, Node)>) -> Result<
    PlatformView,
    ConfigError,
> {
    match text_field(entries, "compiler"@) {
        Err(e) => Err(e),
        Ok(compiler) => match text_field(entries, "linker"@) {
            Err(e) => Err(e),
            Ok(linker) => match list_field(entries, "compiler_args"@) {
                Err(e) => Err(e),
                Ok(compiler_args) => match list_field(entries, "linker_args"@) {
                    Err(e) => Err(e),
                    Ok(linker_args) => Ok(
                        PlatformView { compiler, linker, compiler_args, linker_args },
                    ),
                },
            },
        },
    }
}

/// The target that the entry `name` of the target table declares. The
/// fields are read in the order entrypoint, compiler arguments, linker
/// arguments, dependencies.
pub open spec fn target_of(name: Seq<char>, node: Node) -> Result<TargetView, ConfigError> {
    match node {
        Node::Table(entries) => {
            match text_field(entries, "entrypoint"@) {
                Err(e) => Err(e),
                Ok(entrypoint) => match list_field(entries, "compiler_args"@) {
                    Err(e) => Err(e),
                    Ok(compiler_args) => match list_field(entries, "linker_args"@) {
                        Err(e) => Err(e),
                        Ok(linker_args) => match list_field(entries, "deps"@) {
                            Err(e) => Err(e),
                            Ok(dependencies) => Ok(
                                TargetView {
                                    entrypoint,
                                    name,
                                    compiler_args,
                                    linker_args,
                                    dependencies,
                                },
                            ),
                        },
                    },
                },
            }
        },
        _ => Err(ConfigError::Malformed),
    }
}

/// The targets that the entries of the target table declare, in the table's
/// order. The first entry that fails decides the error.
pub open spec fn targets_of(entries: Seq<(Seq<char>, Node)>) -> Result<
    Seq<TargetView>,
    ConfigError,
>
    decreases entries.len(),
{
    if entries.len() == 0 {
        Ok(Seq::empty())
    } else {
        match targets_of(entries.drop_last()) {
            Err(e) => Err(e),
            Ok(before) => match target_of(entries.last().0, entries.last().1) {
                Err(e) => Err(e),
                Ok(target) => Ok(before.push(target)),
            },
        }
    }
}

/// The one target among `targets`: a project has exactly one.
pub open spec fn single_target(targets: Seq<TargetView>) -> Result<TargetView, ConfigError> {
    if targets.len() == 0 {
        Err(ConfigError::NoTarget)
    } else if targets.len() > 1 {
        Err(ConfigError::MultipleTargets)
    } else {
        Ok(targets[0])
    }
}

/// What a document with the entries `entries` declares of a project, for
/// the host `host`.
///
/// Read in this order, the first failure deciding the error: the three
/// directories `output`, `dependencies` and `sources`; the table `Platform`;
/// the host's name in it; the profile under that name; the table `Target`;
/// each of its targets; and that there is one target and no more.
pub open spec fn project_of(entries: Seq<(Seq<char>, Node)>, host: Seq<char>) -> Result<
    (DirsView, PlatformView, TargetView),
    ConfigError,
> {
    match text_field(entries, "output"@) {
        Err(e) => Err(e),
        Ok(output) => match text_field(entries, "dependencies"@) {
            Err(e) => Err(e),
            Ok(dependencies) => match text_field(entries, "sources"@) {
                Err(e) => Err(e),
                Ok(sources) => match table_field(entries, "Platform"@) {
                    Err(e) => Err(e),
                    Ok(platforms) => match platform_key_of(host) {
                        None => Err(ConfigError::UnknownHost),
                        Some(key) => match table_field(platforms, key) {
                            Err(e) => Err(e),
                            Ok(profile) => match platform_of(profile) {
                                Err(e) => Err(e),
                                Ok(platform) => match table_field(entries, "Target"@) {
                                    Err(e) => Err(e),
                                    Ok(declared) => match targets_of(declared) {
                                        Err(e) => Err(e),
                                        Ok(targets) => match single_target(targets) {
                                            Err(e) => Err(e),
                                            Ok(target) => Ok(
                                                (
                                                    DirsView { dependencies, sources, output },
                                                    platform,
                                                    target,
                                                ),
                                            ),
                                        },
                                    },
                                },
                            },
                        },
                    },
                },
            },
        },
    }
}

/// What the text of a project manifest declares for the host `host`.
pub open spec fn project_of_text(text: Seq<char>, host: Seq<char>) -> Result<
    (DirsView, PlatformView, TargetView),
    ConfigError,
> {
    match parsed_document(text) {
        None => Err(ConfigError::Malformed),
        Some(entries) => project_of(entries, host),
    }
}

/// The name under which the project manifest keeps the profile of `host`:
/// `osx` for `macos`, `win32` for `windows`, `linux` for `linux`, and none
/// for any other host.
pub fn platform_key(host: &str) -> (key: Option<&'static str>)
    ensures
        match key {
            Some(k) => platform_key_of(host@) == Some(k@),
            None => platform_key_of(host@) is None,
        },
{
    if text_eq(host, "macos") {
        Some("osx")
    } else if text_eq(host, "windows") {
        Some("win32")
    } else if text_eq(host, "linux") {
        Some("linux")
    } else {
        None
    }
}

/// Picks the one target of a project: `NoTarget` where none is declared,
/// `MultipleTargets` where more than one is.
pub fn select_target(targets: Vec<BuildTarget>) -> (outcome: Result<BuildTarget, ConfigError>)
    ensures
        match outcome {
            Ok(target) => single_target(targets.deep_view()) == Ok::<TargetView, ConfigError>(
                target@,
            ),
            Err(e) => single_target(targets.deep_view()) == Err::<TargetView, ConfigError>(e),
        },
{
    let mut rest = targets;
    if rest.len() > 1 {
        return Err(ConfigError::MultipleTargets);
    }
    match rest.pop() {
        None => Err(ConfigError::NoTarget),
        Some(target) => Ok(target),
    }
}

/// Reads the platform profile that a table declares.
fn read_platform(table: &toml::Table) -> (outcome: Result<BuildPlatform, ConfigError>)
    ensures
        match outcome {
            Ok(platform) => platform_of(table_entries(*table)) == Ok::<PlatformView, ConfigError>(
                platform@,
            ),
            Err(e) => platform_of(table_entries(*table)) == Err::<PlatformView, ConfigError>(e),
        },
{
    let compiler = match get_text(table, "compiler") {
        Err(e) => {
            return Err(e);
        },
        Ok(text) => text,
    };
    let linker = match get_text(table, "linker") {
        Err(e) => {
            return Err(e);
        },
        Ok(text) => text,
    };
    let compiler_args = match get_list(table, "compiler_args") {
        Err(e) => {
            return Err(e);
        },
        Ok(list) => list,
    };
    let linker_args = match get_list(table, "linker_args") {
        Err(e) => {
            return Err(e);
        },
        Ok(list) => list,
    };
    Ok(BuildPlatform { compiler, linker, compiler_args, linker_args })
}

/// Reads the target that one entry of the target table declares.
fn read_target(name: &String, value: &toml::Value) -> (outcome: Result<BuildTarget, ConfigError>)
    ensures
        match outcome {
            Ok(target) => target_of(name@, node_of(*value)) == Ok::<TargetView, ConfigError>(
                target@,
            ),
            Err(e) => target_of(name@, node_of(*value)) == Err::<TargetView, ConfigError>(e),
        },
{
    let table = match value_as_table(value) {
        None => {
            return Err(ConfigError::Malformed);
        },
        Some(table) => table,
    };
    let entrypoint = match get_text(table, "entrypoint") {
        Err(e) => {
            return Err(e);
        },
        Ok(text) => text,
    };
    let compiler_args = match get_list(table, "compiler_args") {
        Err(e) => {
            return Err(e);
        },
        Ok(list) => list,
    };
    let linker_args = match get_list(table, "linker_args") {
        Err(e) => {
            return Err(e);
        },
        Ok(list) => list,
    };
    let dependencies = match get_list(table, "deps") {
        Err(e) => {
            return Err(e);
        },
        Ok(list) => list,
    };
    Ok(BuildTarget { entrypoint, name: name.clone(), compiler_args, linker_args, dependencies })
}

/// Reads every target of the target table, all or none.
fn read_targets(table: &toml::Table) -> (outcome: Result<Vec<BuildTarget>, ConfigError>)
    ensures
        match outcome {
            Ok(targets) => targets_of(table_entries(*table)) == Ok::<
                Seq<TargetView>,
                ConfigError,
            >(targets.deep_view()),
            Err(e) => targets_of(table_entries(*table)) == Err::<Seq<TargetView>, ConfigError>(e),
        },
{
    let items = table_items(table);
    let ghost entries = table_entries(*table);
    let mut targets: Vec<BuildTarget> = Vec::new();
    let mut at: usize = 0;
    assert(entries.take(0) =~= Seq::<(Seq<char>, Node)>::empty());
    assert(targets.deep_view() =~= Seq::<TargetView>::empty());
    while at < items.len()
        invariant
            at <= items.len(),
            entries == table_entries(*table),
            items@.len() == entries.len(),
            forall|i: int|
                0 <= i < items@.len() ==> (#[trigger] items@[i]).0@ == entries[i].0 && node_of(
                    *items@[i].1,
                ) == entries[i].1,
            targets_of(entries.take(at as int)) == Ok::<Seq<TargetView>, ConfigError>(
                targets.deep_view(),
            ),
        decreases items.len() - at,
    {
        let ghost before = targets.deep_view();
        proof {
            assert(entries.take(at + 1).drop_last() =~= entries.take(at as int));
            assert(entries.take(at + 1).last() == entries[at as int]);
        }
        match read_target(items[at].0, items[at].1) {
            Err(e) => {
                proof {
                    lemma_targets_fail(entries, at + 1);
                }
                return Err(e);
            },
            Ok(target) => {
                targets.push(target);
                assert(targets.deep_view() =~= before.push(target@));
            },
        }
        at = at + 1;
    }
    assert(entries.take(at as int) =~= entries);
    Ok(targets)
}

/// Reads what a parsed document declares of a project, for the host
/// `host`.
pub fn read_project(doc: &toml::Table, host: &str) -> (outcome: Result<
    (BuildDirs, BuildPlatform, BuildTarget),
    ConfigError,
>)
    ensures
        match outcome {
            Ok(project) => project_of(table_entries(*doc), host@) == Ok::<
                (DirsView, PlatformView, TargetView),
                ConfigError,
            >((project.0@, project.1@, project.2@)),
            Err(e) => project_of(table_entries(*doc), host@) == Err::<
                (DirsView, PlatformView, TargetView),
                ConfigError,
            >(e),
        },
{
    let output = match get_text(doc, "output") {
        Err(e) => {
            return Err(e);
        },
        Ok(text) => text,
    };
    let dependencies = match get_text(doc, "dependencies") {
        Err(e) => {
            return Err(e);
        },
        Ok(text) => text,
    };
    let sources = match get_text(doc, "sources") {
        Err(e) => {
            return Err(e);
        },
        Ok(text) => text,
    };
    let platforms = match get_table(doc, "Platform") {
        Err(e) => {
            return Err(e);
        },
        Ok(table) => table,
    };
    let key = match platform_key(host) {
        None => {
            return Err(ConfigError::UnknownHost);
        },
        Some(key) => key,
    };
    let profile = match get_table(platforms, key) {
        Err(e) => {
            return Err(e);
        },
        Ok(table) => table,
    };
    let platform = match read_platform(profile) {
        Err(e) => {
            return Err(e);
        },
        Ok(platform) => platform,
    };
    let declared = match get_table(doc, "Target") {
        Err(e) => {
            return Err(e);
        },
        Ok(table) => table,
    };
    let targets = match read_targets(declared) {
        Err(e) => {
            return Err(e);
        },
        Ok(targets) => targets,
    };
    let target = match select_target(targets) {
        Err(e) => {
            return Err(e);
        },
        Ok(target) => target,
    };
    Ok((BuildDirs { dependencies, sources, output }, platform, target))
}

/// Reads the manifest of a project for the host `host`.
///
/// The directories and the entrypoint come back as the manifest names them;
/// making them absolute is left to the caller, who can reach the file
/// system. The manifest must be TOML, hold the three directory names, a
/// table `Platform` with a profile for the host, and a table `Target` with
/// exactly one target.
pub fn parse_toml(text: &str, host: &str) -> (outcome: Result<
    (BuildDirs, BuildPlatform, BuildTarget),
    ConfigError,
>)
    ensures
        match outcome {
            Ok(project) => project_of_text(text@, host@) == Ok::<
                (DirsView, PlatformView, TargetView),
                ConfigError,
            >((project.0@, project.1@, project.2@)),
            Err(e) => project_of_text(text@, host@) == Err::<
                (DirsView, PlatformView, TargetView),
                ConfigError,
            >(e),
        },
{
    match parse_document(text) {
        Err(_) => Err(ConfigError::Malformed),
        Ok(doc) => read_project(&doc, host),
    }
}

/// Once a front part of the target table fails, the whole fails in the same
/// way.
pub proof fn lemma_targets_fail(entries: Seq<(Seq<char>, Node)>, upto: int)
    requires
        0 <= upto <= entries.len(),
        targets_of(entries.take(upto)) is Err,
    ensures
        targets_of(entries) == targets_of(entries.take(upto)),
    decreases entries.len(),
{
    if upto == entries.len() {
        assert(entries.take(upto) =~= entries);
    } else {
        assert(entries.drop_last().take(upto) =~= entries.take(upto));
        lemma_targets_fail(entries.drop_last(), upto);
    }
}

} // verus!
