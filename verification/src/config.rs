use vstd::prelude::*;

use crate::toml_model::{
    item_string_field, lemma_converted_fields, lemma_entries_converted_each, string_field,
    table_of_document, toml_document, TomlItem, TomlTable, TomlValue,
};

verus! {

#[derive(Debug, PartialEq)]
pub struct ConfigEntry {
    pub name: String,
    pub template_path: String,
    pub destination_path: String,
}

#[derive(Debug, PartialEq)]
pub struct Config {
    pub entries: Vec<ConfigEntry>,
}

/// What `shellexpand::tilde` may make of `path`: a path that is `~` or starts with
/// `~/` (or, on Windows, `~\`) comes back unchanged (no home directory is known) or
/// with the `~` replaced by the home directory, which is never empty (on Unix,
/// `dirs::home_dir` refuses an empty `$HOME` and an empty password-file entry); any
/// other path (`~user/..` among them) comes back unchanged.
pub open spec fn tilde_outcome(path: Seq<char>, result: Seq<char>) -> bool {
    if path.len() > 0 && path[0] == '~' && (path.len() == 1 || path[1] == '/' || path[1] == '\\') {
        result == path || exists|home: Seq<char>| home.len() > 0 && result == home + path.drop_first()
    } else {
        result == path
    }
}

/// Expanding `~` never just drops it: a path that starts with `~/` comes back
/// unchanged, or as a non-empty home directory followed by the rest of the path
/// (the part after `~`), so longer than that rest and ending with it.
pub proof fn law_tilde_is_replaced_not_dropped(path: Seq<char>, result: Seq<char>)
    requires
        path.len() >= 2,
        path[0] == '~',
        path[1] == '/',
        tilde_outcome(path, result),
    ensures
        result == path || {
            &&& result.len() > path.len() - 1
            &&& result.subrange(result.len() - (path.len() - 1), result.len() as int)
                == path.drop_first()
        },
        result != path.drop_first(),
{
    if result != path {
        let home = choose|home: Seq<char>| home.len() > 0 && result == home + path.drop_first();
        assert(result.subrange(result.len() - (path.len() - 1), result.len() as int)
            =~= path.drop_first());
    } else {
        assert(result[0] == '~');
        assert(path.drop_first()[0] == '/');
    }
}

/// `shellexpand::tilde`: expands a leading `~` (alone or before `/`) to the home
/// directory, which depends on the environment; any other path is returned as it is.
#[verifier::external_body]
fn expand_tilde(path: &str) -> (r: String)
    ensures
        tilde_outcome(path@, r@),
{
    shellexpand::tilde(path).to_string()
}

/// Every entry is a table with a string `template` and a string `destination`.
pub open spec fn config_table_ok(table: TomlTable) -> bool {
    forall|i: int|
        0 <= i < table.entries().len() ==> {
            &&& (#[trigger] table.entries()[i]).1 is Table
            &&& string_field(table.entries()[i].1, "template"@) is Some
            &&& string_field(table.entries()[i].1, "destination"@) is Some
        }
}

/// `entry` is what the table entry `e` describes, with `~` expanded in both paths.
pub open spec fn entry_from(e: (String, TomlValue), entry: ConfigEntry) -> bool {
    &&& entry.name@ == e.0@
    &&& tilde_outcome(string_field(e.1, "template"@).unwrap(), entry.template_path@)
    &&& tilde_outcome(string_field(e.1, "destination"@).unwrap(), entry.destination_path@)
}

/// Every entry of the document is a table with a string `template` and a string
/// `destination`.
pub open spec fn config_items_ok(items: Seq<(String, TomlItem)>) -> bool {
    forall|i: int|
        0 <= i < items.len() ==> {
            &&& (#[trigger] items[i]).1 is Table
            &&& item_string_field(items[i].1, "template"@) is Some
            &&& item_string_field(items[i].1, "destination"@) is Some
        }
}

/// `entry` is what the document entry `e` describes, with `~` expanded in both paths.
pub open spec fn entry_from_item(e: (String, TomlItem), entry: ConfigEntry) -> bool {
    &&& entry.name@ == e.0@
    &&& tilde_outcome(item_string_field(e.1, "template"@).unwrap(), entry.template_path@)
    &&& tilde_outcome(item_string_field(e.1, "destination"@).unwrap(), entry.destination_path@)
}

/// The table converted from a document satisfies the configuration's conditions
/// exactly when the document does, and describes the same entries.
proof fn lemma_document_config(t: TomlTable, items: Seq<(String, TomlItem)>)
    requires
        table_of_document(t, items),
    ensures
        config_table_ok(t) <==> config_items_ok(items),
        forall|i: int, entry: ConfigEntry|
            0 <= i < items.len() ==> (entry_from(t.entries()[i], entry) <==> #[trigger] entry_from_item(
                items[i],
                entry,
            )),
{
    lemma_entries_converted_each(t.entries(), items, 0);
    assert forall|i: int| 0 <= i < items.len() implies {
        &&& (t.entries()[i].1 is Table <==> items[i].1 is Table)
        &&& string_field(t.entries()[i].1, "template"@) == item_string_field(items[i].1, "template"@)
        &&& string_field(t.entries()[i].1, "destination"@) == item_string_field(
            items[i].1,
            "destination"@,
        )
        &&& t.entries()[i].0@ == items[i].0@
    } by {
        lemma_converted_fields(t.entries()[i].1, items[i].1, "template"@);
        lemma_converted_fields(t.entries()[i].1, items[i].1, "destination"@);
    }
    if config_items_ok(items) {
        assert forall|i: int| 0 <= i < t.entries().len() implies {
            &&& (#[trigger] t.entries()[i]).1 is Table
            &&& string_field(t.entries()[i].1, "template"@) is Some
            &&& string_field(t.entries()[i].1, "destination"@) is Some
        } by {
            assert(items[i].1 is Table);
        }
    }
    if config_table_ok(t) {
        assert forall|i: int| 0 <= i < items.len() implies {
            &&& (#[trigger] items[i]).1 is Table
            &&& item_string_field(items[i].1, "template"@) is Some
            &&& item_string_field(items[i].1, "destination"@) is Some
        } by {
            assert(t.entries()[i].1 is Table);
        }
    }
}

fn string_at(t: &TomlTable, key: &str) -> (r: Option<String>)
    ensures
        match r {
            Some(s) => string_field(TomlValue::Table(*t), key@) == Some(s@),
            None => string_field(TomlValue::Table(*t), key@) is None,
        },
{
    match t.get(key) {
        Some(TomlValue::String(s)) => Some(s.clone()),
        _ => None,
    }
}

/// Whether every entry is a table with string `template` and `destination` values.
fn table_ok(table: &TomlTable) -> (b: bool)
    ensures
        b == config_table_ok(*table),
{
    let n = table.len();
    let mut i: usize = 0;
    while i < n
        invariant
            n == table.entries().len(),
            i <= n,
            forall|j: int| 0 <= j < i ==> {
                &&& (#[trigger] table.entries()[j]).1 is Table
                &&& string_field(table.entries()[j].1, "template"@) is Some
                &&& string_field(table.entries()[j].1, "destination"@) is Some
            },
        decreases n - i,
    {
        let (_, value) = table.entry(i);
        let ok = match value {
            TomlValue::Table(t) => string_at(t, "template").is_some() && string_at(t, "destination").is_some(),
            _ => false,
        };
        if !ok {
            return false;
        }
        i = i + 1;
    }
    true
}

impl Config {
    /// One entry per table entry, in order: its key names it, and its `template`
    /// and `destination` strings give the paths, with `~` expanded.
    pub fn from_table(table: &TomlTable) -> (config: Config)
        requires
            config_table_ok(*table),
        ensures
            config.entries@.len() == table.entries().len(),
            forall|i: int|
                0 <= i < table.entries().len() ==> entry_from(
                    table.entries()[i],
                    #[trigger] config.entries@[i],
                ),
    {
        match Self::try_from_table(table) {
            Some(c) => c,
            None => Config { entries: Vec::new() },
        }
    }

    /// As `from_table`, or `None` where an entry is not a table with string `template`
    /// and `destination` values (where `from_table` may not be called).
    pub fn try_from_table(table: &TomlTable) -> (config: Option<Config>)
        ensures
            config is Some <==> config_table_ok(*table),
            config matches Some(c) ==> {
                &&& c.entries@.len() == table.entries().len()
                &&& forall|i: int|
                    0 <= i < table.entries().len() ==> entry_from(
                        table.entries()[i],
                        #[trigger] c.entries@[i],
                    )
            },
    {
        let mut entries: Vec<ConfigEntry> = Vec::new();
        let n = table.len();
        let mut i: usize = 0;
        while i < n
            invariant
                n == table.entries().len(),
                i <= n,
                entries@.len() == i,
                forall|j: int| 0 <= j < i ==> (#[trigger] table.entries()[j]).1 is Table,
                forall|j: int|
                    0 <= j < i ==> string_field(table.entries()[j].1, "template"@) is Some,
                forall|j: int|
                    0 <= j < i ==> string_field(table.entries()[j].1, "destination"@) is Some,
                forall|j: int| 0 <= j < i ==> entry_from(table.entries()[j], #[trigger] entries@[j]),
            decreases n - i,
        {
            let (key, value) = table.entry(i);
            let t = match value {
                TomlValue::Table(t) => t,
                _ => return None,
            };
            let template = match string_at(t, "template") {
                Some(s) => s,
                None => return None,
            };
            let destination = match string_at(t, "destination") {
                Some(s) => s,
                None => return None,
            };
            entries.push(
                ConfigEntry {
                    name: key.clone(),
                    template_path: expand_tilde(template.as_str()),
                    destination_path: expand_tilde(destination.as_str()),
                },
            );
            i = i + 1;
        }
        Some(Config { entries })
    }

    /// The configuration that the TOML text `toml_string` describes: one entry per
    /// document entry, in order, as `entry_from_item` says.
    pub fn new(toml_string: &str) -> (config: Config)
        requires
            toml_document(toml_string@) matches Ok(items) && config_items_ok(items),
        ensures
            toml_document(toml_string@) matches Ok(items) && {
                &&& config.entries@.len() == items.len()
                &&& forall|i: int|
                    0 <= i < items.len() ==> entry_from_item(items[i], #[trigger] config.entries@[i])
            },
    {
        match TomlTable::from_text(toml_string) {
            Ok(t) => {
                let ghost items = toml_document(toml_string@)->Ok_0;
                proof {
                    lemma_document_config(t, items);
                }
                let c = Self::from_table(&t);
                proof {
                    assert forall|i: int| 0 <= i < items.len() implies entry_from_item(
                        items[i],
                        #[trigger] c.entries@[i],
                    ) by {
                        assert(entry_from(t.entries()[i], c.entries@[i]));
                    }
                }
                c
            },
            Err(_) => Config { entries: Vec::new() },
        }
    }

    /// As `new`, or `None` where the text is no TOML document or an entry is not a
    /// table with string `template` and `destination` values (where `new` may not
    /// be called).
    pub fn try_new(toml_string: &str) -> (config: Option<Config>)
        ensures
            config is Some <==> (toml_document(toml_string@) matches Ok(items) && config_items_ok(
                items,
            )),
            config matches Some(c) ==> (toml_document(toml_string@) matches Ok(items) && {
                &&& c.entries@.len() == items.len()
                &&& forall|i: int|
                    0 <= i < items.len() ==> entry_from_item(items[i], #[trigger] c.entries@[i])
            }),
    {
        match TomlTable::from_text(toml_string) {
            Ok(t) => {
                proof {
                    lemma_document_config(t, toml_document(toml_string@)->Ok_0);
                }
                if table_ok(&t) {
                    Some(Self::new(toml_string))
                } else {
                    None
                }
            },
            Err(_) => None,
        }
    }
}

} // verus!
