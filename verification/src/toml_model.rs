use vstd::prelude::*;

use toml::Value as DocumentValue;

use crate::text::{i64_to_decimal, push_quoted, quoted, signed_decimal, str_eq};

verus! {

/// A value of a TOML document, as the template evaluator reads it.
#[derive(Debug, PartialEq)]
pub enum TomlValue {
    String(String),
    Integer(i64),
    /// A float, by its shortest round-trip decimal text (as `{:?}` prints an `f64`).
    Float(String),
    Table(TomlTable),
    /// Any other value (boolean, datetime or array), by its `{:?}` text.
    Other(String),
}

/// A TOML table: keys with their values, in order, each key at most once.
#[derive(Debug, PartialEq)]
pub struct TomlTable {
    entries: Vec<(String, TomlValue)>,
}

/// The value of the first entry with key `key`.
pub open spec fn entries_get(es: Seq<(String, TomlValue)>, key: Seq<char>) -> Option<TomlValue>
    decreases es.len(),
{
    if es.len() == 0 {
        None
    } else if es[0].0@ == key {
        Some(es[0].1)
    } else {
        entries_get(es.drop_first(), key)
    }
}

pub open spec fn keys_distinct(es: Seq<(String, TomlValue)>) -> bool {
    forall|i: int, j: int| 0 <= i < j < es.len() ==> es[i].0@ != es[j].0@
}

/// How `{:?}` shows a value.
pub closed spec fn value_debug(v: TomlValue) -> Seq<char>
    decreases v, 0int,
{
    match v {
        TomlValue::String(s) => "String("@ + quoted(s@) + ")"@,
        TomlValue::Integer(i) => "Integer("@ + signed_decimal(i as int) + ")"@,
        TomlValue::Float(f) => "Float("@ + f@ + ")"@,
        TomlValue::Table(t) => "Table("@ + "{"@ + entries_debug_from(t.entries@, 0) + "}"@ + ")"@,
        TomlValue::Other(d) => d@,
    }
}

/// The entries of a table from index `i` on, separated by `, `.
pub closed spec fn entries_debug_from(es: Seq<(String, TomlValue)>, i: int) -> Seq<char>
    decreases es, es.len() - i,
{
    if i < 0 || i >= es.len() {
        seq![]
    } else {
        (if i == 0 {
            seq![]
        } else {
            ", "@
        }) + quoted(es[i].0@) + ": "@ + value_debug(es[i].1) + entries_debug_from(es, i + 1)
    }
}

impl TomlTable {
    /// The entries in order.
    pub closed spec fn entries(&self) -> Seq<(String, TomlValue)> {
        self.entries@
    }

    pub closed spec fn wf(&self) -> bool {
        keys_distinct(self.entries@)
    }

    /// The value stored under `key`.
    pub open spec fn spec_get(&self, key: Seq<char>) -> Option<TomlValue> {
        entries_get(self.entries(), key)
    }

    pub fn new() -> (t: Self)
        ensures
            t.wf(),
            t.entries() == Seq::<(String, TomlValue)>::empty(),
    {
        TomlTable { entries: Vec::new() }
    }

    /// Stores `value` under `key`: in place of the old value where the key is
    /// present, else as a new last entry.
    pub fn insert(&mut self, key: String, value: TomlValue)
        requires
            old(self).wf(),
        ensures
            final(self).wf(),
            final(self).spec_get(key@) == Some(value),
            forall|k: Seq<char>| k != key@ ==> final(self).spec_get(k) == old(self).spec_get(k),
    {
        let ghost es = self.entries@;
        let n = self.entries.len();
        let mut i: usize = 0;
        while i < n
            invariant
                n == es.len(),
                self.entries@ == es,
                keys_distinct(es),
                old(self).entries@ == es,
                i <= n,
                forall|j: int| 0 <= j < i ==> es[j].0@ != key@,
            decreases n - i,
        {
            if str_eq_string(&self.entries[i].0, &key) {
                let ghost k = key;
                self.entries.set(i, (key, value));
                proof {
                    lemma_entries_get_update(es, i as int, k, value);
                    assert(keys_distinct(self.entries@)) by {
                        assert forall|a: int, b: int|
                            0 <= a < b < self.entries@.len() implies self.entries@[a].0@
                            != self.entries@[b].0@ by {
                            assert(self.entries@[a].0@ == es[a].0@);
                            assert(self.entries@[b].0@ == es[b].0@);
                        }
                    }
                }
                return;
            }
            i = i + 1;
        }
        self.entries.push((key, value));
        proof {
            lemma_entries_get_push(es, key, value);
        }
    }

    /// The value stored under `key`.
    pub fn get(&self, key: &str) -> (v: Option<&TomlValue>)
        ensures
            match v {
                Some(r) => self.spec_get(key@) == Some(*r),
                None => self.spec_get(key@) is None,
            },
    {
        let n = self.entries.len();
        let key_s = String::from_str(key);
        let mut i: usize = 0;
        proof {
            assert(self.entries@.skip(0) =~= self.entries@);
        }
        while i < n
            invariant
                n == self.entries@.len(),
                i <= n,
                key_s@ == key@,
                entries_get(self.entries@, key@) == entries_get(self.entries@.skip(i as int), key@),
            decreases n - i,
        {
            proof {
                assert(self.entries@.skip(i as int).drop_first() =~= self.entries@.skip(i + 1));
            }
            if str_eq_string(&self.entries[i].0, &key_s) {
                return Some(&self.entries[i].1);
            }
            i = i + 1;
        }
        None
    }

    /// The number of entries.
    pub fn len(&self) -> (n: usize)
        ensures
            n == self.entries().len(),
    {
        self.entries.len()
    }

    /// The key and value of entry `i`.
    pub fn entry(&self, i: usize) -> (e: (&String, &TomlValue))
        requires
            i < self.entries().len(),
        ensures
            *e.0 == self.entries()[i as int].0,
            *e.1 == self.entries()[i as int].1,
    {
        (&self.entries[i].0, &self.entries[i].1)
    }
}

fn str_eq_string(a: &String, b: &String) -> (eq: bool)
    ensures
        eq == (a@ == b@),
{
    str_eq(a.as_str(), b.as_str())
}

proof fn lemma_entries_get_update(es: Seq<(String, TomlValue)>, i: int, key: String, value: TomlValue)
    requires
        0 <= i < es.len(),
        forall|j: int| 0 <= j < i ==> es[j].0@ != key@,
        es[i].0@ == key@,
    ensures
        forall|k: Seq<char>|
            #[trigger] entries_get(es.update(i, (key, value)), k) == if k == key@ {
                Some(value)
            } else {
                entries_get(es, k)
            },
    decreases i,
{
    assert forall|k: Seq<char>|
        #[trigger] entries_get(es.update(i, (key, value)), k) == if k == key@ {
            Some(value)
        } else {
            entries_get(es, k)
        } by {
        lemma_entries_get_update_at(es, i, key, value, k);
    }
}

proof fn lemma_entries_get_update_at(
    es: Seq<(String, TomlValue)>,
    i: int,
    key: String,
    value: TomlValue,
    k: Seq<char>,
)
    requires
        0 <= i < es.len(),
        forall|j: int| 0 <= j < i ==> es[j].0@ != key@,
        es[i].0@ == key@,
    ensures
        entries_get(es.update(i, (key, value)), k) == if k == key@ {
            Some(value)
        } else {
            entries_get(es, k)
        },
    decreases i,
{
    let us = es.update(i, (key, value));
    if i > 0 {
        lemma_entries_get_update_at(es.drop_first(), i - 1, key, value, k);
        assert(us.drop_first() =~= es.drop_first().update(i - 1, (key, value)));
        assert(us[0] == es[0]);
    } else {
        assert(us.drop_first() =~= es.drop_first());
        assert(us[0] == (key, value));
    }
}

proof fn lemma_entries_get_push(es: Seq<(String, TomlValue)>, key: String, value: TomlValue)
    requires
        forall|j: int| 0 <= j < es.len() ==> es[j].0@ != key@,
    ensures
        forall|k: Seq<char>|
            #[trigger] entries_get(es.push((key, value)), k) == if k == key@ {
                Some(value)
            } else {
                entries_get(es, k)
            },
{
    assert forall|k: Seq<char>|
        #[trigger] entries_get(es.push((key, value)), k) == if k == key@ {
            Some(value)
        } else {
            entries_get(es, k)
        } by {
        lemma_entries_get_push_at(es, key, value, k);
    }
}

proof fn lemma_entries_get_push_at(es: Seq<(String, TomlValue)>, key: String, value: TomlValue, k: Seq<char>)
    requires
        forall|j: int| 0 <= j < es.len() ==> es[j].0@ != key@,
    ensures
        entries_get(es.push((key, value)), k) == if k == key@ {
            Some(value)
        } else {
            entries_get(es, k)
        },
    decreases es.len(),
{
    let ps = es.push((key, value));
    if es.len() > 0 {
        lemma_entries_get_push_at(es.drop_first(), key, value, k);
        assert(ps.drop_first() =~= es.drop_first().push((key, value)));
        assert(ps[0] == es[0]);
    } else {
        assert(ps.drop_first() =~= Seq::<(String, TomlValue)>::empty());
        assert(ps[0] == (key, value));
        assert(entries_get(ps.drop_first(), k) is None);
    }
}

#[verifier::external_type_specification]
#[verifier::external_body]
#[verifier::reject_recursive_types(K)]
#[verifier::reject_recursive_types(V)]
pub struct ExTomlMap<K, V>(toml::map::Map<K, V>);

#[verifier::external_type_specification]
#[verifier::external_body]
pub struct ExTomlValue(DocumentValue);

/// A TOML value as the parser hands it over: a table as its entries in order.
#[derive(Debug, PartialEq)]
pub enum TomlItem {
    String(String),
    Integer(i64),
    /// A float, by its `{:?}` text.
    Float(String),
    Table(Vec<(String, TomlItem)>),
    /// A boolean, datetime or array, by the `{:?}` text of the whole value.
    Other(String),
}

pub open spec fn item_keys_distinct(items: Seq<(String, TomlItem)>) -> bool {
    forall|i: int, j: int| 0 <= i < j < items.len() ==> items[i].0@ != items[j].0@
}

/// Every table in `it`, at any depth, holds each key once.
pub open spec fn item_ok(it: TomlItem) -> bool
    decreases it, 0int,
{
    match it {
        TomlItem::Table(items) => items_ok(items@, 0),
        _ => true,
    }
}

/// The keys of `items` are distinct, and every table in the values from index `i`
/// on holds each key once.
pub open spec fn items_ok(items: Seq<(String, TomlItem)>, i: int) -> bool
    decreases items, items.len() - i,
{
    if i < 0 || i >= items.len() {
        item_keys_distinct(items)
    } else {
        item_ok(items[i].1) && items_ok(items, i + 1)
    }
}

/// `v` is the value that `it` converts to: the same variant with the same
/// contents, a table having the converted entries in the same order.
pub open spec fn converted(v: TomlValue, it: TomlItem) -> bool
    decreases it, 0int,
{
    match it {
        TomlItem::String(s) => v matches TomlValue::String(s2) && s2@ == s@,
        TomlItem::Integer(i) => v == TomlValue::Integer(i),
        TomlItem::Float(f) => v matches TomlValue::Float(f2) && f2@ == f@,
        TomlItem::Other(d) => v matches TomlValue::Other(d2) && d2@ == d@,
        TomlItem::Table(items) => v matches TomlValue::Table(t) && t.entries().len() == items@.len()
            && entries_converted(t.entries(), items@, 0),
    }
}

/// From index `i` on, each entry of `es` has the key of the matching item and its
/// converted value.
pub open spec fn entries_converted(
    es: Seq<(String, TomlValue)>,
    items: Seq<(String, TomlItem)>,
    i: int,
) -> bool
    decreases items, items.len() - i,
{
    if i < 0 || i >= items.len() {
        true
    } else {
        es[i].0@ == items[i].0@ && converted(es[i].1, items[i].1) && entries_converted(
            es,
            items,
            i + 1,
        )
    }
}

/// The value of the first item with key `key`.
pub open spec fn items_get(items: Seq<(String, TomlItem)>, key: Seq<char>) -> Option<TomlItem>
    decreases items.len(),
{
    if items.len() == 0 {
        None
    } else if items[0].0@ == key {
        Some(items[0].1)
    } else {
        items_get(items.drop_first(), key)
    }
}

/// The string stored under `key` in a table value, if there is one.
pub open spec fn string_field(v: TomlValue, key: Seq<char>) -> Option<Seq<char>> {
    match v {
        TomlValue::Table(t) => match t.spec_get(key) {
            Some(TomlValue::String(s)) => Some(s@),
            _ => None,
        },
        _ => None,
    }
}

/// The string stored under `key` in a table item, if there is one.
pub open spec fn item_string_field(it: TomlItem, key: Seq<char>) -> Option<Seq<char>> {
    match it {
        TomlItem::Table(items) => match items_get(items@, key) {
            Some(TomlItem::String(s)) => Some(s@),
            _ => None,
        },
        _ => None,
    }
}

proof fn lemma_items_ok(items: Seq<(String, TomlItem)>, i: int)
    requires
        0 <= i <= items.len(),
        items_ok(items, i),
    ensures
        item_keys_distinct(items),
        forall|j: int| i <= j < items.len() ==> item_ok(#[trigger] items[j].1),
    decreases items.len() - i,
{
    if i < items.len() {
        lemma_items_ok(items, i + 1);
    }
}

proof fn lemma_entries_converted(es: Seq<(String, TomlValue)>, items: Seq<(String, TomlItem)>, i: int)
    requires
        0 <= i <= items.len(),
        es.len() == items.len(),
        forall|j: int|
            #![trigger es[j]]
            i <= j < items.len() ==> es[j].0@ == items[j].0@ && converted(es[j].1, items[j].1),
    ensures
        entries_converted(es, items, i),
    decreases items.len() - i,
{
    if i < items.len() {
        lemma_entries_converted(es, items, i + 1);
    }
}

proof fn lemma_get_converted(
    es: Seq<(String, TomlValue)>,
    items: Seq<(String, TomlItem)>,
    i: int,
    key: Seq<char>,
)
    requires
        0 <= i <= items.len(),
        es.len() == items.len(),
        entries_converted(es, items, i),
    ensures
        match (entries_get(es.skip(i), key), items_get(items.skip(i), key)) {
            (None, None) => true,
            (Some(v), Some(it)) => converted(v, it),
            _ => false,
        },
    decreases items.len() - i,
{
    if i < items.len() {
        lemma_get_converted(es, items, i + 1, key);
        assert(es.skip(i).drop_first() =~= es.skip(i + 1));
        assert(items.skip(i).drop_first() =~= items.skip(i + 1));
    }
}

/// Each entry from index `i` on has its item's key and converted value.
pub proof fn lemma_entries_converted_each(
    es: Seq<(String, TomlValue)>,
    items: Seq<(String, TomlItem)>,
    i: int,
)
    requires
        0 <= i <= items.len(),
        entries_converted(es, items, i),
    ensures
        forall|j: int|
            #![trigger es[j]]
            i <= j < items.len() ==> es[j].0@ == items[j].0@ && converted(es[j].1, items[j].1),
    decreases items.len() - i,
{
    if i < items.len() {
        lemma_entries_converted_each(es, items, i + 1);
    }
}

/// A converted value holds the same strings under the same keys as its item.
pub proof fn lemma_converted_fields(v: TomlValue, it: TomlItem, key: Seq<char>)
    requires
        converted(v, it),
    ensures
        v is Table <==> it is Table,
        string_field(v, key) == item_string_field(it, key),
{
    if let TomlItem::Table(items) = it {
        if let TomlValue::Table(t) = v {
            lemma_get_converted(t.entries(), items@, 0, key);
            assert(t.entries().skip(0) =~= t.entries());
            assert(items@.skip(0) =~= items@);
        }
    }
}

/// `t` is the table that the document's entries `items` convert to.
pub open spec fn table_of_document(t: TomlTable, items: Seq<(String, TomlItem)>) -> bool {
    &&& t.wf()
    &&& t.entries().len() == items.len()
    &&& entries_converted(t.entries(), items, 0)
}

/// Converts an item: a table entry by entry, in order.
fn value_from_item(it: &TomlItem) -> (v: TomlValue)
    requires
        item_ok(*it),
    ensures
        converted(v, *it),
        v matches TomlValue::Table(t) ==> t.wf(),
    decreases it,
{
    match it {
        TomlItem::String(s) => TomlValue::String(s.clone()),
        TomlItem::Integer(i) => TomlValue::Integer(*i),
        TomlItem::Float(f) => TomlValue::Float(f.clone()),
        TomlItem::Other(d) => TomlValue::Other(d.clone()),
        TomlItem::Table(items) => {
            proof {
                lemma_items_ok(items@, 0);
            }
            let mut entries: Vec<(String, TomlValue)> = Vec::new();
            let n = items.len();
            let mut i: usize = 0;
            while i < n
                invariant
                    n == items@.len(),
                    *it == TomlItem::Table(*items),
                    item_keys_distinct(items@),
                    forall|j: int| 0 <= j < n ==> item_ok(#[trigger] items@[j].1),
                    i <= n,
                    entries@.len() == i,
                    forall|j: int|
                        #![trigger entries@[j]]
                        0 <= j < i ==> entries@[j].0@ == items@[j].0@ && converted(
                            entries@[j].1,
                            items@[j].1,
                        ),
                decreases n - i,
            {
                proof {
                    assert(decreases_to!(*it => it->Table_0@[i as int].1));
                }
                let v = value_from_item(&items[i].1);
                let key = items[i].0.clone();
                entries.push((key, v));
                i = i + 1;
            }
            proof {
                lemma_entries_converted(entries@, items@, 0);
                assert forall|a: int, b: int| 0 <= a < b < entries@.len() implies entries@[a].0@
                    != entries@[b].0@ by {
                    assert(items@[a].0@ != items@[b].0@);
                }
            }
            TomlValue::Table(TomlTable { entries })
        },
    }
}

/// What parsing `text` as a TOML document gives: the entries of the document's
/// table in `toml::Table`'s iteration order, or the message of the error that
/// rejects the text.
pub uninterp spec fn toml_document(text: Seq<char>) -> Result<Seq<(String, TomlItem)>, Seq<char>>;

/// Parses `text` with `toml`'s `FromStr` for `toml::Table` and hands over its
/// entries (see `convert_entries`); an error gives its message. A `toml::Table`
/// is a map, so each of its tables, at any depth, holds each key once.
#[verifier::external_body]
fn parse_toml(text: &str) -> (r: Result<Vec<(String, TomlItem)>, String>)
    ensures
        match r {
            Ok(items) => toml_document(text@) == Ok::<Seq<(String, TomlItem)>, Seq<char>>(items@)
                && items_ok(items@, 0),
            Err(e) => toml_document(text@) == Err::<Seq<(String, TomlItem)>, Seq<char>>(e@),
        },
{
    match text.parse::<toml::Table>() {
        Ok(t) => Ok(convert_entries(&t)),
        Err(e) => Err(e.to_string()),
    }
}

/// The entries of a `toml::Table` in its iteration order, each value converted with
/// `convert_value`. Only `parse_toml` calls it; nothing is claimed of it.
#[verifier::external_body]
fn convert_entries(table: &toml::Table) -> Vec<(String, TomlItem)> {
    let mut out = Vec::new();
    for (key, value) in table.iter() {
        out.push((key.clone(), convert_value(value)));
    }
    out
}

/// Converts a `toml::Value` variant for variant: a float by its `{:?}` text, a
/// boolean, datetime or array by the `{:?}` text of the whole value, a table by
/// `convert_entries`. Only `convert_entries` calls it; nothing is claimed of it.
#[verifier::external_body]
fn convert_value(value: &DocumentValue) -> TomlItem {
    match value {
        DocumentValue::String(s) => TomlItem::String(s.clone()),
        DocumentValue::Integer(i) => TomlItem::Integer(*i),
        DocumentValue::Float(f) => TomlItem::Float(format!("{:?}", f)),
        DocumentValue::Table(t) => TomlItem::Table(convert_entries(t)),
        other => TomlItem::Other(format!("{:?}", other)),
    }
}

impl TomlTable {
    /// The table of a TOML document, or the parse error's message; see
    /// `toml_document` and `table_of_document`.
    pub fn from_text(text: &str) -> (r: Result<TomlTable, String>)
        ensures
            match r {
                Ok(t) => toml_document(text@) matches Ok(items) && table_of_document(t, items),
                Err(e) => toml_document(text@) == Err::<Seq<(String, TomlItem)>, Seq<char>>(e@),
            },
    {
        match parse_toml(text) {
            Ok(items) => {
                let doc = TomlItem::Table(items);
                match value_from_item(&doc) {
                    TomlValue::Table(t) => Ok(t),
                    _ => Err(String::new()),
                }
            },
            Err(e) => Err(e),
        }
    }
}

/// Appends how `{:?}` shows `v` (see `value_debug`) to `out`.
pub fn push_value_debug(out: &mut String, v: &TomlValue)
    ensures
        final(out)@ == old(out)@ + value_debug(*v),
    decreases v,
{
    match v {
        TomlValue::String(s) => {
            out.append("String(");
            push_quoted(out, s.as_str());
            out.append(")");
        },
        TomlValue::Integer(i) => {
            let d = i64_to_decimal(*i);
            out.append("Integer(");
            out.append(d.as_str());
            out.append(")");
        },
        TomlValue::Float(f) => {
            out.append("Float(");
            out.append(f.as_str());
            out.append(")");
        },
        TomlValue::Table(t) => {
            out.append("Table(");
            push_entries_debug(out, t);
            out.append(")");
            proof {
                assert(out@ =~= old(out)@ + value_debug(*v));
            }
        },
        TomlValue::Other(d) => {
            out.append(d.as_str());
        },
    }
}

fn push_entries_debug(out: &mut String, t: &TomlTable)
    ensures
        final(out)@ == old(out)@ + "{"@ + entries_debug_from(t.entries@, 0) + "}"@,
    decreases t,
{
    let ghost start = out@;
    out.append("{");
    let n = t.entries.len();
    let mut i: usize = 0;
    while i < n
        invariant
            n == t.entries@.len(),
            i <= n,
            out@ + entries_debug_from(t.entries@, i as int) == start + "{"@ + entries_debug_from(
                t.entries@,
                0,
            ),
        decreases n - i,
    {
        let ghost before = out@;
        if i > 0 {
            out.append(", ");
        }
        push_quoted(out, t.entries[i].0.as_str());
        out.append(": ");
        assert(decreases_to!(t => t.entries@[i as int].1));
        push_value_debug(out, &t.entries[i].1);
        i = i + 1;
    }
    out.append("}");
}

} // verus!
