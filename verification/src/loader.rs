//! Loading settings from documents.
//!
//! A document is a TOML text with tables at its top level. One table, named by the caller,
//! holds the settings: its entries with a string value. Reading files is left to the
//! program, which hands over each path with the text found there.

use crate::error::{EnvInventoryError, ErrorView};
use crate::settings::Settings;
use crate::text::same_text;
use vstd::prelude::*;

verus! {

/// The entries of a table: each key with its text, or with `None` where the value is not a
/// string.
pub type TableView = Seq<(Seq<char>, Option<Seq<char>>)>;

/// The top level of a document: each key with the entries of its table, or with `None`
/// where the value is not a table.
pub type DocumentView = Seq<(Seq<char>, Option<TableView>)>;

/// A parsed document, as far as settings are read from it: two levels of keys, with the
/// values that are strings. `tables` has the layout of [`DocumentView`].
pub struct Document {
    pub tables: Vec<(String, Option<Vec<(String, Option<String>)>>)>,
}

impl View for Document {
    type V = DocumentView;

    open spec fn view(&self) -> DocumentView {
        self.tables.deep_view()
    }
}

/// A document as it was found at a path.
pub struct Source {
    /// The path, as it is to appear in errors.
    pub path: String,
    /// The text of the file, or `None` where it could not be read.
    pub content: Option<String>,
}

#[verifier::external_type_specification]
#[verifier::external_body]
pub struct ExTomlError(toml::de::Error);

/// What the TOML parser makes of `text`: `None` where it rejects the text, else the top
/// level of the document, in the order in which the parser's tables hand out their
/// entries.
pub uninterp spec fn toml_document(text: Seq<char>) -> Option<DocumentView>;

/// Parses `text` with `toml`: the call is `str::parse::<toml::Value>`, which is
/// `toml::from_str`. The contract is not proved. It claims that the parser's verdict and
/// the value it builds depend on the text alone, and calls them `toml_document`. The body
/// copies out of the value what `Value::as_table`, `Map::iter` and `Value::as_str` show of
/// its first two levels.
#[verifier::external_body]
fn parse_document(text: &str) -> (parsed: Result<Document, toml::de::Error>)
    ensures
        parsed is Ok <==> toml_document(text@) is Some,
        parsed matches Ok(document) ==> toml_document(text@) == Some(document@),
{
    let root = text.parse::<toml::Value>()?;
    let tables = root.as_table().into_iter().flatten().map(
        |(key, value)| {
            let entries = value.as_table().map(
                |table| table.iter().map(|(k, v)| (k.clone(), v.as_str().map(str::to_owned))).collect(),
            );
            (key.clone(), entries)
        },
    ).collect();
    Ok(Document { tables })
}

/// The table that `document` holds under the key `section`: `None` where it has no such
/// key, or where the value of the key is not a table.
pub open spec fn section_of(document: DocumentView, section: Seq<char>) -> Option<TableView>
    decreases document.len(),
{
    if document.len() == 0 {
        None
    } else if document[0].0 == section {
        document[0].1
    } else {
        section_of(document.drop_first(), section)
    }
}

/// The settings in a table: its entries with a string value.
pub open spec fn texts_in(table: TableView) -> Map<Seq<char>, Seq<char>>
    decreases table.len(),
{
    if table.len() == 0 {
        Map::empty()
    } else {
        let rest = texts_in(table.drop_last());
        match table.last().1 {
            Some(text) => rest.insert(table.last().0, text),
            None => rest,
        }
    }
}

/// The settings that `document` holds in its table `section`; none where it has no such
/// table.
pub open spec fn section_settings(document: DocumentView, section: Seq<char>) -> Map<
    Seq<char>,
    Seq<char>,
> {
    match section_of(document, section) {
        Some(table) => texts_in(table),
        None => Map::empty(),
    }
}

/// What loading `source` gives: the settings of its table `section`, or the error that
/// names its path.
pub open spec fn loaded(source: Source, section: Seq<char>) -> Result<
    Map<Seq<char>, Seq<char>>,
    ErrorView,
> {
    match source.content {
        None => Err(ErrorView::ReadFileError(source.path@)),
        Some(text) => match toml_document(text@) {
            None => Err(ErrorView::ParseFileError(source.path@)),
            Some(document) => Ok(section_settings(document, section)),
        },
    }
}

/// What the sources give together. The first one must load: its error is the error of the
/// whole. A later one that does not load is passed over. Of those that load, each overrides
/// the ones before it.
pub open spec fn merged_settings(sources: Seq<Source>, section: Seq<char>) -> Result<
    Map<Seq<char>, Seq<char>>,
    ErrorView,
>
    decreases sources.len(),
{
    if sources.len() == 0 {
        Ok(Map::empty())
    } else {
        match merged_settings(sources.drop_last(), section) {
            Err(error) => Err(error),
            Ok(earlier) => match loaded(sources.last(), section) {
                Ok(settings) => Ok(earlier.union_prefer_right(settings)),
                Err(error) => if sources.len() == 1 {
                    Err(error)
                } else {
                    Ok(earlier)
                },
            },
        }
    }
}

/// `result` is `wanted`, over plain text.
pub open spec fn gives(
    result: Result<Settings, EnvInventoryError>,
    wanted: Result<Map<Seq<char>, Seq<char>>, ErrorView>,
) -> bool {
    match wanted {
        Ok(map) => result matches Ok(settings) && settings@ == map,
        Err(error) => result matches Err(found) && found@ == error,
    }
}

/// The settings that `document` holds in its table `section`.
pub fn settings_of(document: &Document, section: &str) -> (settings: Settings)
    ensures
        settings@ == section_settings(document@, section@),
{
    let mut settings = Settings::new();
    let mut i: usize = 0;
    proof {
        assert(document@.skip(0) == document@);
    }
    while i < document.tables.len()
        invariant
            i <= document.tables@.len(),
            settings@ == Map::<Seq<char>, Seq<char>>::empty(),
            section_of(document@, section@) == section_of(document@.skip(i as int), section@),
        decreases document.tables@.len() - i,
    {
        proof {
            assert(document@.skip(i as int).drop_first() == document@.skip(i + 1));
            assert(document@.skip(i as int)[0] == document@[i as int]);
        }
        if same_text(document.tables[i].0.as_str(), section) {
            match &document.tables[i].1 {
                Some(table) => {
                    let ghost entries = table.deep_view();
                    assert(section_of(document@, section@) == Some(entries));
                    let mut j: usize = 0;
                    while j < table.len()
                        invariant
                            j <= table@.len(),
                            entries == table.deep_view(),
                            settings@ == texts_in(entries.take(j as int)),
                        decreases table@.len() - j,
                    {
                        proof {
                            assert(entries.take(j + 1).drop_last() == entries.take(j as int));
                            assert(entries.take(j + 1).last() == entries[j as int]);
                        }
                        match &table[j].1 {
                            Some(text) => {
                                settings.insert(table[j].0.clone(), text.clone());
                            },
                            None => {},
                        }
                        j += 1;
                    }
                    proof {
                        assert(entries.take(j as int) == entries);
                    }
                },
                None => {},
            }
            return settings;
        }
        i += 1;
    }
    settings
}

/// Loads the settings of `source`.
pub fn load_toml_settings(source: &Source, section: &str) -> (result: Result<
    Settings,
    EnvInventoryError,
>)
    ensures
        gives(result, loaded(*source, section@)),
{
    match &source.content {
        None => Err(EnvInventoryError::ReadFileError(source.path.clone())),
        Some(text) => match parse_document(text.as_str()) {
            Ok(document) => Ok(settings_of(&document, section)),
            Err(_) => Err(EnvInventoryError::ParseFileError(source.path.clone())),
        },
    }
}

/// Loads every source in turn and merges their settings.
pub fn merge_sources(sources: &[Source], section: &str) -> (result: Result<
    Settings,
    EnvInventoryError,
>)
    ensures
        gives(result, merged_settings(sources@, section@)),
{
    let mut merged = Settings::new();
    let mut i: usize = 0;
    while i < sources.len()
        invariant
            i <= sources@.len(),
            merged_settings(sources@.take(i as int), section@) == Ok::<
                Map<Seq<char>, Seq<char>>,
                ErrorView,
            >(merged@),
        decreases sources@.len() - i,
    {
        proof {
            assert(sources@.take(i + 1).drop_last() == sources@.take(i as int));
            assert(sources@.take(i + 1).last() == sources@[i as int]);
        }
        match load_toml_settings(&sources[i], section) {
            Ok(settings) => {
                merged.merge_from(&settings);
            },
            Err(error) => {
                if i == 0 {
                    proof {
                        first_document_is_mandatory(sources@, section@);
                    }
                    return Err(error);
                }
            },
        }
        i += 1;
    }
    proof {
        assert(sources@.take(i as int) == sources@);
    }
    Ok(merged)
}

/// The first document is mandatory and the later ones are optional: merging fails exactly
/// where there is a first document and it does not load, and then with its error.
pub proof fn first_document_is_mandatory(sources: Seq<Source>, section: Seq<char>)
    ensures
        merged_settings(sources, section) is Err <==> sources.len() > 0 && loaded(
            sources[0],
            section,
        ) is Err,
        merged_settings(sources, section) is Err ==> merged_settings(sources, section)->Err_0
            == loaded(sources[0], section)->Err_0,
    decreases sources.len(),
{
    if sources.len() > 1 {
        first_document_is_mandatory(sources.drop_last(), section);
        assert(sources.drop_last()[0] == sources[0]);
    } else if sources.len() == 1 {
        assert(merged_settings(sources.drop_last(), section) is Ok);
        assert(sources.last() == sources[0]);
    }
}

/// Among the documents that load, the last one in the list that has a key gives the key
/// its value.
pub proof fn last_document_wins(
    sources: Seq<Source>,
    section: Seq<char>,
    key: Seq<char>,
    at: int,
)
    requires
        merged_settings(sources, section) is Ok,
        0 <= at < sources.len(),
        loaded(sources[at], section) is Ok,
        loaded(sources[at], section)->Ok_0.contains_key(key),
        forall|j: int|
            at < j < sources.len() && loaded(#[trigger] sources[j], section) is Ok ==> !loaded(
                sources[j],
                section,
            )->Ok_0.contains_key(key),
    ensures
        merged_settings(sources, section)->Ok_0.contains_key(key),
        merged_settings(sources, section)->Ok_0[key] == loaded(sources[at], section)->Ok_0[key],
    decreases sources.len(),
{
    let shorter = sources.drop_last();
    if at + 1 < sources.len() {
        assert(shorter[at] == sources[at]);
        assert forall|j: int|
            at < j < shorter.len() && loaded(#[trigger] shorter[j], section) is Ok implies !loaded(
            shorter[j],
            section,
        )->Ok_0.contains_key(key) by {
            assert(shorter[j] == sources[j]);
        }
        last_document_wins(shorter, section, key, at);
        assert(sources.last() == sources[sources.len() - 1]);
    }
}

} // verus!
