//! Typed read view over a config table.
//!
//! A field is read from the first entry whose key spells its name.
//! Optional readers answer nothing for a missing or differently shaped
//! field; required readers report a missing field apart from a present one
//! of another shape.

use vstd::prelude::*;

use crate::config::expr::{ConfigExpr, ExprV, entries_v, entry_field_any, entry_field_spec, expr_v, items_v};
use crate::config::table::{ConfigError, ConfigErrorV, ConfigTable};
use crate::text::{append_str, decimal, decimal_chars, push_char, str_eq, string_of, text};

verus! {

/// The value of a text of ASCII decimal digits.
pub open spec fn digits_value(s: Seq<char>) -> int
    decreases s.len(),
{
    if s.len() == 0 {
        0
    } else {
        digits_value(s.drop_last()) * 10 + (s.last() as int - '0' as int)
    }
}

/// The value of the decimal text of a 64-bit integer, when it is one: an
/// optional `+` or `-`, then one or more ASCII digits, nothing else, and a
/// value within the `i64` range.
pub open spec fn i64_text_value(s: Seq<char>) -> Option<i64> {
    let neg = s.len() > 0 && s[0] == '-';
    let body = if s.len() > 0 && (s[0] == '-' || s[0] == '+') { s.skip(1) } else { s };
    let v = if neg { -digits_value(body) } else { digits_value(body) };
    if body.len() > 0 && (forall|i: int| 0 <= i < body.len() ==> '0' <= #[trigger] body[i] <= '9')
        && i64::MIN <= v <= i64::MAX {
        Some(v as i64)
    } else {
        None
    }
}

/// `str::parse::<i64>`: as its documentation says, an optional sign and
/// then only ASCII digits, spelling a value in range; anything else is
/// refused.
#[verifier::external_body]
fn parse_i64(s: &str) -> (r: Option<i64>)
    ensures
        r == i64_text_value(s@),
{
    s.parse::<i64>().ok()
}

/// An `i64` number's value: a number in a domain named `i64` whose text
/// parses.
pub open spec fn i64_of(e: ExprV) -> Option<i64> {
    match e {
        ExprV::Number(domain, canonical) => if domain.1 == "i64"@ {
            i64_text_value(canonical)
        } else {
            None
        },
        _ => None,
    }
}

/// Borrowed typed accessors over one config table.
#[derive(Clone, Copy, Debug)]
pub struct ConfigView<'a> {
    entries: &'a [(ConfigExpr, ConfigExpr)],
}

impl<'a> View for ConfigView<'a> {
    type V = Seq<(ExprV, ExprV)>;

    closed spec fn view(&self) -> Seq<(ExprV, ExprV)> {
        entries_v(self.entries@)
    }
}

/// The error a required reader reports: another shape when the field is
/// present, else a missing field.
pub open spec fn required_error_spec(entries: Seq<(ExprV, ExprV)>, key: Seq<char>, expected: Seq<char>) -> ConfigErrorV {
    if entry_field_spec(entries, key) is Some {
        ConfigErrorV::TypeMismatch(key, expected)
    } else {
        ConfigErrorV::MissingField(key)
    }
}

/// The key of a list item: `key[index]`.
pub open spec fn item_key(key: Seq<char>, index: nat) -> Seq<char> {
    key + "["@ + decimal(index) + "]"@
}

impl<'a> ConfigView<'a> {
    /// Creates a view over a table's entries.
    pub fn new(table: &'a ConfigTable) -> (r: ConfigView<'a>)
        requires
            expr_v(table.table) is Table,
        ensures
            ExprV::Table(r@) == expr_v(table.table),
    {
        match &table.table {
            ConfigExpr::Table(entries) => ConfigView { entries: entries.as_slice() },
            _ => ConfigView { entries: &[] },
        }
    }

    /// Creates a view over already-borrowed table entries.
    pub fn from_entries(entries: &'a [(ConfigExpr, ConfigExpr)]) -> (r: ConfigView<'a>)
        ensures
            r@ == entries_v(entries@),
    {
        ConfigView { entries }
    }

    /// Returns the raw expression for `key`.
    pub fn get(&self, key: &str) -> (r: Option<&'a ConfigExpr>)
        ensures
            match entry_field_spec(self@, key@) {
                Some(v) => r matches Some(x) && expr_v(*x) == v,
                None => r is None,
            },
    {
        entry_field_any(self.entries, key)
    }

    /// Reads an optional string field.
    pub fn string(&self, key: &str) -> (r: Option<&'a str>)
        ensures
            match entry_field_spec(self@, key@) {
                Some(ExprV::Str(s)) => r matches Some(x) && x@ == s,
                _ => r is None,
            },
    {
        match self.get(key) {
            Some(ConfigExpr::String(s)) => Some(s.as_str()),
            _ => None,
        }
    }

    /// Reads a required string field.
    pub fn required_string(&self, key: &str) -> (r: Result<&'a str, ConfigError>)
        ensures
            match entry_field_spec(self@, key@) {
                Some(ExprV::Str(s)) => r matches Ok(x) && x@ == s,
                _ => r matches Err(e) && e@ == required_error_spec(self@, key@, "a string"@),
            },
    {
        match self.string(key) {
            Some(s) => Ok(s),
            None => Err(self.required_error(key, "a string")),
        }
    }

    /// Reads an optional boolean field.
    pub fn bool(&self, key: &str) -> (r: Option<bool>)
        ensures
            match entry_field_spec(self@, key@) {
                Some(ExprV::Bool(b)) => r == Some(b),
                _ => r is None,
            },
    {
        match self.get(key) {
            Some(ConfigExpr::Bool(b)) => Some(*b),
            _ => None,
        }
    }

    /// Reads a required boolean field.
    pub fn required_bool(&self, key: &str) -> (r: Result<bool, ConfigError>)
        ensures
            match entry_field_spec(self@, key@) {
                Some(ExprV::Bool(b)) => r matches Ok(x) && x == b,
                _ => r matches Err(e) && e@ == required_error_spec(self@, key@, "a bool"@),
            },
    {
        match self.bool(key) {
            Some(b) => Ok(b),
            None => Err(self.required_error(key, "a bool")),
        }
    }

    /// Reads an optional integer field.
    pub fn i64(&self, key: &str) -> (r: Option<i64>)
        ensures
            r == match entry_field_spec(self@, key@) {
                Some(v) => i64_of(v),
                None => None,
            },
    {
        match self.get(key) {
            Some(ConfigExpr::Number { domain, canonical }) => {
                if str_eq(domain.name.as_str(), "i64") {
                    parse_i64(canonical.as_str())
                } else {
                    None
                }
            },
            _ => None,
        }
    }

    /// Reads a required integer field.
    pub fn required_i64(&self, key: &str) -> (r: Result<i64, ConfigError>)
        ensures
            match entry_field_spec(self@, key@) {
                Some(v) => match i64_of(v) {
                    Some(n) => r matches Ok(x) && x == n,
                    None => r matches Err(e) && e@ == required_error_spec(self@, key@, "an integer"@),
                },
                None => r matches Err(e) && e@ == required_error_spec(self@, key@, "an integer"@),
            },
    {
        match self.i64(key) {
            Some(n) => Ok(n),
            None => Err(self.required_error(key, "an integer")),
        }
    }

    /// Borrows a list field.
    pub fn list(&self, key: &str) -> (r: Option<&'a Vec<ConfigExpr>>)
        ensures
            match entry_field_spec(self@, key@) {
                Some(ExprV::List(items)) => r matches Some(x) && items_v(x@) == items,
                _ => r is None,
            },
    {
        match self.get(key) {
            Some(ConfigExpr::List(items)) => Some(items),
            _ => None,
        }
    }

    /// Borrows a nested table field.
    pub fn table(&self, key: &str) -> (r: Option<&'a [(ConfigExpr, ConfigExpr)]>)
        ensures
            match entry_field_spec(self@, key@) {
                Some(ExprV::Table(es)) => r matches Some(x) && entries_v(x@) == es,
                _ => r is None,
            },
    {
        match self.get(key) {
            Some(ConfigExpr::Table(entries)) => Some(entries.as_slice()),
            _ => None,
        }
    }

    /// Reads an optional list of strings: a missing field reads as no
    /// strings; a present non-list field, or the first non-string item, is
    /// a type mismatch.
    pub fn string_array(&self, key: &str) -> (r: Result<Vec<String>, ConfigError>)
        ensures
            match entry_field_spec(self@, key@) {
                None => r matches Ok(v) && v@.len() == 0,
                Some(ExprV::List(items)) => if exists|i: int| 0 <= i < items.len() && !(#[trigger] items[i] is Str) {
                    exists|i: int|
                        0 <= i < items.len() && !(#[trigger] items[i] is Str) && (forall|j: int| 0 <= j < i ==> items[j] is Str)
                            && (r matches Err(e) && e@ == ConfigErrorV::TypeMismatch(item_key(key@, i as nat), "a string"@))
                } else {
                    r matches Ok(v) && v@.len() == items.len() && forall|i: int|
                        0 <= i < items.len() ==> items[i] == ExprV::Str((#[trigger] v@[i])@)
                },
                Some(_) => r matches Err(e) && e@ == ConfigErrorV::TypeMismatch(key@, "a string list"@),
            },
    {
        let value = match self.get(key) {
            None => {
                return Ok(Vec::new());
            },
            Some(v) => v,
        };
        let items = match value {
            ConfigExpr::List(items) => items,
            _ => {
                return Err(ConfigError::TypeMismatch { key: text(key), expected: "a string list" });
            },
        };
        let ghost iv = items_v(items@);
        let mut out: Vec<String> = Vec::new();
        let mut i: usize = 0;
        while i < items.len()
            invariant
                i <= items@.len(),
                iv == items_v(items@),
                out@.len() == i,
                forall|j: int| 0 <= j < i ==> iv[j] == ExprV::Str((#[trigger] out@[j])@),
                forall|j: int| 0 <= j < i ==> #[trigger] iv[j] is Str,
                entry_field_spec(self@, key@) == Some(ExprV::List(iv)),
            decreases items@.len() - i,
        {
            match &items[i] {
                ConfigExpr::String(s) => {
                    out.push(s.clone());
                },
                _ => {
                    assert(!(iv[i as int] is Str));
                    assert(forall|j: int| 0 <= j < i ==> iv[j] is Str);
                    return Err(ConfigError::TypeMismatch { key: item_key_text(key, i), expected: "a string" });
                },
            }
            i += 1;
        }
        assert(!exists|x: int| 0 <= x < iv.len() && !(#[trigger] iv[x] is Str));
        Ok(out)
    }

    /// Reads an optional repeated table field as views: a missing field
    /// reads as no tables; a present non-list field, or the first non-map
    /// item, is a type mismatch.
    pub fn tables(&self, key: &str) -> (r: Result<Vec<ConfigView<'a>>, ConfigError>)
        ensures
            match entry_field_spec(self@, key@) {
                None => r matches Ok(v) && v@.len() == 0,
                Some(ExprV::List(items)) => if exists|i: int| 0 <= i < items.len() && !(#[trigger] items[i] is Table) {
                    exists|i: int|
                        0 <= i < items.len() && !(#[trigger] items[i] is Table) && (forall|j: int| 0 <= j < i ==> items[j] is Table)
                            && (r matches Err(e) && e@ == ConfigErrorV::TypeMismatch(item_key(key@, i as nat), "a table"@))
                } else {
                    r matches Ok(v) && v@.len() == items.len() && forall|i: int|
                        0 <= i < items.len() ==> items[i] == ExprV::Table((#[trigger] v@[i])@)
                },
                Some(_) => r matches Err(e) && e@ == ConfigErrorV::TypeMismatch(key@, "a table list"@),
            },
    {
        let value = match self.get(key) {
            None => {
                return Ok(Vec::new());
            },
            Some(v) => v,
        };
        let items = match value {
            ConfigExpr::List(items) => items,
            _ => {
                return Err(ConfigError::TypeMismatch { key: text(key), expected: "a table list" });
            },
        };
        let ghost iv = items_v(items@);
        let mut out: Vec<ConfigView<'a>> = Vec::new();
        let mut i: usize = 0;
        while i < items.len()
            invariant
                i <= items@.len(),
                iv == items_v(items@),
                out@.len() == i,
                forall|j: int| 0 <= j < i ==> iv[j] == ExprV::Table((#[trigger] out@[j])@),
                forall|j: int| 0 <= j < i ==> #[trigger] iv[j] is Table,
                entry_field_spec(self@, key@) == Some(ExprV::List(iv)),
            decreases items@.len() - i,
        {
            match &items[i] {
                ConfigExpr::Table(entries) => {
                    out.push(ConfigView::from_entries(entries.as_slice()));
                },
                _ => {
                    assert(!(iv[i as int] is Table));
                    assert(forall|j: int| 0 <= j < i ==> iv[j] is Table);
                    return Err(ConfigError::TypeMismatch { key: item_key_text(key, i), expected: "a table" });
                },
            }
            i += 1;
        }
        assert(!exists|x: int| 0 <= x < iv.len() && !(#[trigger] iv[x] is Table));
        Ok(out)
    }

    fn required_error(&self, key: &str, expected: &'static str) -> (e: ConfigError)
        ensures
            e@ == required_error_spec(self@, key@, expected@),
    {
        if self.get(key).is_some() {
            ConfigError::TypeMismatch { key: text(key), expected }
        } else {
            ConfigError::MissingField { key: text(key) }
        }
    }
}

/// Writes `key[index]`.
fn item_key_text(key: &str, index: usize) -> (r: String)
    ensures
        r@ == item_key(key@, index as nat),
{
    let mut out = text(key);
    append_str(&mut out, "[");
    let digits = decimal_chars(index as u64);
    let d = string_of(&digits);
    append_str(&mut out, d.as_str());
    append_str(&mut out, "]");
    out
}

} // verus!
