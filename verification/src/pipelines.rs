//! How items are written out: flattened into CSV rows, or rendered as XML.

use vstd::prelude::*;
use crate::json::{json_text, key_lt, keys_ascending, lemma_ascending_insert, lemma_member_decreases, to_json_text, JsonMap, JsonValue};
use crate::order::{lemma_seq_le_total, seq_le, str_le};
use crate::strmap::StrMap;
use crate::text::{chars_of, concat, owned, push_char, str_eq, texts_of};

verus! {

broadcast use vstd::string::group_string_axioms;

/// The text of a value in a CSV cell or an XML element: nothing for null,
/// the string itself for a string, the JSON text otherwise.
pub open spec fn scalar_text(v: JsonValue) -> Seq<char> {
    match v {
        JsonValue::Null => Seq::empty(),
        JsonValue::String(s) => s@,
        _ => json_text(v),
    }
}

/// The text of a value in a CSV cell or an XML element.
pub fn scalar_to_string(v: &JsonValue) -> (r: String)
    ensures
        r@ == scalar_text(*v),
{
    match v {
        JsonValue::Null => String::new(),
        JsonValue::String(s) => s.clone(),
        _ => to_json_text(v),
    }
}

/// The texts of `items`, separated by commas.
pub open spec fn joined_scalars(items: Seq<JsonValue>) -> Seq<char>
    decreases items.len(),
{
    if items.len() == 0 {
        Seq::empty()
    } else if items.len() == 1 {
        scalar_text(items[0])
    } else {
        joined_scalars(items.drop_last()) + seq![','] + scalar_text(items.last())
    }
}

/// The column name of a member `key` under `prefix` (none at the top level).
pub open spec fn column_name(prefix: Option<Seq<char>>, key: Seq<char>) -> Seq<char> {
    match prefix {
        None => key,
        Some(p) => p + seq!['_'] + key,
    }
}

/// The columns that `v` adds under the name `name` to `acc`: an object adds
/// one column per member, named `name_key` (recursively); an array is one
/// column of its element texts joined by commas; anything else is one column.
/// A later column of the same name replaces an earlier one.
pub open spec fn flattened_value(acc: Map<Seq<char>, Seq<char>>, name: Seq<char>, v: JsonValue) -> Map<Seq<char>, Seq<char>>
    decreases v, 0nat,
{
    match v {
        JsonValue::Object(m) => flattened_members(acc, Some(name), m, m.members().len()),
        JsonValue::Array(items) => acc.insert(name, joined_scalars(items@)),
        _ => acc.insert(name, scalar_text(v)),
    }
}

/// The columns added by the first `n` members of `m` (in key order).
pub open spec fn flattened_members(
    acc: Map<Seq<char>, Seq<char>>,
    prefix: Option<Seq<char>>,
    m: JsonMap,
    n: nat,
) -> Map<Seq<char>, Seq<char>>
    decreases m, n,
{
    if n == 0 || n > m.members().len() {
        acc
    } else {
        let e = m.members()[n - 1];
        let before = flattened_members(acc, prefix, m, (n - 1) as nat);
        proof { lemma_member_decreases(m, n - 1); }
        flattened_value(before, column_name(prefix, e.0), e.1)
    }
}

/// The columns of an item: one per member of an object (see
/// `flattened_value`), or a single column `item` for anything else.
pub open spec fn flattened_item(item: JsonValue) -> Map<Seq<char>, Seq<char>> {
    match item {
        JsonValue::Object(m) => flattened_members(Map::empty(), None, m, m.members().len()),
        _ => Map::empty().insert(seq!['i', 't', 'e', 'm'], scalar_text(item)),
    }
}

/// The texts of `items` joined by commas.
fn join_scalars(items: &Vec<JsonValue>) -> (r: String)
    ensures
        r@ == joined_scalars(items@),
{
    let mut out = String::new();
    let mut i: usize = 0;
    while i < items.len()
        invariant
            i <= items@.len(),
            out@ == joined_scalars(items@.take(i as int)),
        decreases items.len() - i,
    {
        if i > 0 {
            push_char(&mut out, ',');
        }
        let text = scalar_to_string(&items[i]);
        out.append(text.as_str());
        assert(items@.take(i + 1).drop_last() =~= items@.take(i as int));
        i = i + 1;
    }
    assert(items@.take(items@.len() as int) =~= items@);
    out
}

/// Adds the columns of `value` under the name `name` to `out`.
#[verifier::loop_isolation(false)]
fn flatten_value(name: &str, value: &JsonValue, out: &mut StrMap<String>)
    ensures
        final(out).texts() == flattened_value(old(out).texts(), name@, *value),
    decreases value,
{
    match value {
        JsonValue::Object(m) => {
            flatten_members(Some(name), m, out);
        },
        JsonValue::Array(items) => {
            let joined = join_scalars(items);
            out.insert_str(name, joined.as_str());
        },
        _ => {
            let text = scalar_to_string(value);
            out.insert_str(name, text.as_str());
        },
    }
}

/// Adds the columns of every member of `m` under `prefix` to `out`.
#[verifier::loop_isolation(false)]
fn flatten_members(prefix: Option<&str>, m: &JsonMap, out: &mut StrMap<String>)
    ensures
        final(out).texts() == flattened_members(
            old(out).texts(),
            match prefix {
                Some(p) => Some(p@),
                None => None,
            },
            *m,
            m.members().len(),
        ),
    decreases m, m.members().len() + 1,
{
    let ghost pre = match prefix {
        Some(p) => Some(p@),
        None => None,
    };
    let mut i: usize = 0;
    while i < m.len()
        invariant
            i <= m.members().len(),
            out.texts() == flattened_members(old(out).texts(), pre, *m, i as nat),
        decreases m.members().len() - i,
    {
        let (k, v) = m.entry(i);
        let column = match prefix {
            Some(p) => {
                let with_sep = concat(p, "_");
                proof { reveal_strlit("_"); }
                concat(with_sep.as_str(), k.as_str())
            },
            None => owned(k.as_str()),
        };
        assert(column@ == column_name(pre, k@)) by {
            reveal_strlit("_");
        }
        proof { lemma_member_decreases(*m, i as int); }
        flatten_value(column.as_str(), v, out);
        i = i + 1;
    }
}

/// The columns of an item, by name.
pub fn flatten_item(item: &JsonValue) -> (r: StrMap<String>)
    ensures
        r.texts() == flattened_item(*item),
{
    let mut out: StrMap<String> = StrMap::new();
    assert(out.texts() =~= Map::<Seq<char>, Seq<char>>::empty());
    match item {
        JsonValue::Object(m) => {
            flatten_members(None, m, &mut out);
        },
        _ => {
            let text = scalar_to_string(item);
            out.insert_str("item", text.as_str());
            proof { reveal_strlit("item"); }
            assert("item"@ =~= seq!['i', 't', 'e', 'm']);
        },
    }
    out
}

/// Inserts `k` at its place in the ascending `keys`, unless it is there.
fn insert_sorted(keys: &mut Vec<String>, k: &str)
    requires
        keys_ascending(texts_of(old(keys)@)),
    ensures
        keys_ascending(texts_of(final(keys)@)),
        texts_of(final(keys)@).to_set() == texts_of(old(keys)@).to_set().insert(k@),
{
    let ghost ks = texts_of(keys@);
    let mut i: usize = 0;
    while i < keys.len() && !str_le(k, keys[i].as_str())
        invariant
            i <= keys@.len(),
            ks == texts_of(keys@),
            keys_ascending(ks),
            forall|j: int| 0 <= j < i ==> key_lt(#[trigger] ks[j], k@),
        decreases keys.len() - i,
    {
        proof { lemma_seq_le_total(k@, ks[i as int]); }
        i = i + 1;
    }
    if i < keys.len() && str_eq(keys[i].as_str(), k) {
        assert(ks.to_set().insert(k@) =~= ks.to_set()) by {
            assert(ks[i as int] == k@);
        }
        return;
    }
    proof { lemma_ascending_insert(ks, i as int, k@); }
    keys.insert(i, owned(k));
    assert(texts_of(keys@) =~= ks.insert(i as int, k@));
}

/// The column names of a flattened item, in ascending order.
pub fn sorted_keys(columns: &StrMap<String>) -> (r: Vec<String>)
    ensures
        keys_ascending(texts_of(r@)),
        texts_of(r@).to_set() == columns@.dom(),
{
    let mut keys: Vec<String> = Vec::new();
    assert(texts_of(keys@) =~= Seq::<Seq<char>>::empty());
    let mut i: usize = 0;
    while i < columns.len()
        invariant
            i <= columns.pairs().len(),
            keys_ascending(texts_of(keys@)),
            texts_of(keys@).to_set() == columns.key_seq().take(i as int).to_set(),
        decreases columns.pairs().len() - i,
    {
        let (k, _) = columns.entry(i);
        insert_sorted(&mut keys, k.as_str());
        assert(columns.key_seq().take(i + 1) =~= columns.key_seq().take(i as int).push(k@));
        proof {
            let t = columns.key_seq().take(i as int);
            assert(t.push(k@).to_set() =~= t.to_set().insert(k@)) by {
                assert forall|x: Seq<char>| #[trigger] t.push(k@).to_set().contains(x) == t.to_set().insert(k@).contains(x) by {
                    if t.push(k@).contains(x) {
                        let j = choose|j: int| 0 <= j < t.push(k@).len() && t.push(k@)[j] == x;
                        if j < t.len() {
                            assert(t[j] == x);
                        }
                    }
                    if t.contains(x) {
                        let j = choose|j: int| 0 <= j < t.len() && t[j] == x;
                        assert(t.push(k@)[j] == x);
                    }
                    if x == k@ {
                        assert(t.push(k@)[t.len() as int] == x);
                    }
                }
            }
        }
        i = i + 1;
    }
    proof {
        let ks = columns.key_seq();
        assert(ks.take(ks.len() as int) =~= ks);
        assert forall|x: Seq<char>| #[trigger] ks.to_set().contains(x) == columns@.dom().contains(x) by {
            if ks.contains(x) {
                let j = choose|j: int| 0 <= j < ks.len() && ks[j] == x;
                assert(columns.pairs()[j].0 == x);
            }
            if columns.has_key(x) {
                let j = columns.index_of(x);
                assert(ks[j] == x);
            }
        }
        assert(ks.to_set() =~= columns@.dom());
    }
    keys
}

/// A character that makes a CSV field need quotes.
pub open spec fn csv_special(c: char) -> bool {
    c == ',' || c == '"' || c == '\n' || c == '\r'
}

/// `s` with every double quote doubled.
pub open spec fn doubled_quotes(s: Seq<char>) -> Seq<char>
    decreases s.len(),
{
    if s.len() == 0 {
        Seq::empty()
    } else if s.last() == '"' {
        doubled_quotes(s.drop_last()) + seq!['"', '"']
    } else {
        doubled_quotes(s.drop_last()).push(s.last())
    }
}

/// A CSV field: quoted, with quotes doubled, when it holds a comma, a quote
/// or a line break; as it is otherwise.
pub open spec fn csv_field(s: Seq<char>) -> Seq<char> {
    if exists|i: int| 0 <= i < s.len() && csv_special(#[trigger] s[i]) {
        seq!['"'] + doubled_quotes(s) + seq!['"']
    } else {
        s
    }
}

/// The CSV form of a field.
pub fn csv_escape(value: &str) -> (r: String)
    ensures
        r@ == csv_field(value@),
{
    let chars = chars_of(value);
    let mut special = false;
    let mut doubled = String::new();
    let mut i: usize = 0;
    while i < chars.len()
        invariant
            chars@ == value@,
            i <= chars@.len(),
            doubled@ == doubled_quotes(value@.take(i as int)),
            special == exists|j: int| 0 <= j < i && csv_special(#[trigger] value@[j]),
        decreases chars.len() - i,
    {
        let c = chars[i];
        if c == '"' {
            push_char(&mut doubled, '"');
            push_char(&mut doubled, '"');
        } else {
            push_char(&mut doubled, c);
        }
        if c == ',' || c == '"' || c == '\n' || c == '\r' {
            special = true;
        }
        assert(value@.take(i + 1).drop_last() =~= value@.take(i as int));
        i = i + 1;
    }
    assert(value@.take(chars@.len() as int) =~= value@);
    if special {
        let mut r = String::new();
        push_char(&mut r, '"');
        r.append(doubled.as_str());
        push_char(&mut r, '"');
        r
    } else {
        owned(value)
    }
}

/// Fields joined into one CSV line (without its line break).
pub open spec fn csv_line(fields: Seq<Seq<char>>) -> Seq<char>
    decreases fields.len(),
{
    if fields.len() == 0 {
        Seq::empty()
    } else if fields.len() == 1 {
        csv_field(fields[0])
    } else {
        csv_line(fields.drop_last()) + seq![','] + csv_field(fields.last())
    }
}

/// The value of each named column, empty where the item has none.
pub open spec fn row_values(columns: Map<Seq<char>, Seq<char>>, names: Seq<Seq<char>>) -> Seq<Seq<char>> {
    names.map_values(|n: Seq<char>| if columns.contains_key(n) { columns[n] } else { Seq::empty() })
}

/// The CSV line of `fields`.
fn csv_join(fields: &Vec<String>) -> (r: String)
    ensures
        r@ == csv_line(texts_of(fields@)),
{
    let mut out = String::new();
    let mut i: usize = 0;
    while i < fields.len()
        invariant
            i <= fields@.len(),
            out@ == csv_line(texts_of(fields@).take(i as int)),
        decreases fields.len() - i,
    {
        if i > 0 {
            push_char(&mut out, ',');
        }
        let field = csv_escape(fields[i].as_str());
        out.append(field.as_str());
        assert(texts_of(fields@).take(i + 1).drop_last() =~= texts_of(fields@).take(i as int));
        i = i + 1;
    }
    assert(texts_of(fields@).take(fields@.len() as int) =~= texts_of(fields@));
    out
}

/// The column values of `columns` for `names`, empty where missing.
fn row_of(columns: &StrMap<String>, names: &Vec<String>) -> (r: Vec<String>)
    ensures
        texts_of(r@) == row_values(columns.texts(), texts_of(names@)),
{
    let mut out: Vec<String> = Vec::new();
    let mut i: usize = 0;
    while i < names.len()
        invariant
            i <= names@.len(),
            texts_of(out@) == row_values(columns.texts(), texts_of(names@)).take(i as int),
        decreases names.len() - i,
    {
        let value = match columns.get(names[i].as_str()) {
            Some(v) => v.clone(),
            None => String::new(),
        };
        let ghost before = out@;
        out.push(value);
        assert(texts_of(out@) =~= texts_of(before).push(value@));
        assert(texts_of(out@) =~= row_values(columns.texts(), texts_of(names@)).take(i + 1));
        i = i + 1;
    }
    assert(row_values(columns.texts(), texts_of(names@)).take(names@.len() as int)
        =~= row_values(columns.texts(), texts_of(names@)));
    out
}

/// The text a CSV file gets for one item: the header line first when it has
/// not been written yet, then the item's row.
pub open spec fn csv_chunk(names: Seq<Seq<char>>, columns: Map<Seq<char>, Seq<char>>, with_header: bool) -> Seq<char> {
    let row = csv_line(row_values(columns, names)) + seq!['\n'];
    if with_header {
        csv_line(names) + seq!['\n'] + row
    } else {
        row
    }
}

/// The column layout of a CSV file: the names given up front, or those of
/// the first item (in ascending order), and whether the header is written.
pub struct CsvLayout {
    configured: Option<Vec<String>>,
    fieldnames: Option<Vec<String>>,
    header_written: bool,
}

/// The texts of an optional list of names.
pub open spec fn names_view(names: Option<Vec<String>>) -> Option<Seq<Seq<char>>> {
    match names {
        Some(v) => Some(texts_of(v@)),
        None => None,
    }
}

impl CsvLayout {
    /// The names given up front.
    pub closed spec fn configured_names(self) -> Option<Seq<Seq<char>>> {
        names_view(self.configured)
    }

    /// The names in use.
    pub closed spec fn names(self) -> Option<Seq<Seq<char>>> {
        names_view(self.fieldnames)
    }

    /// Whether the header line is written.
    pub closed spec fn spec_header_written(self) -> bool {
        self.header_written
    }

    /// A layout with the given names, if any, and no header written.
    pub fn new(fieldnames: Option<Vec<String>>) -> (l: Self)
        ensures
            l.configured_names() == names_view(fieldnames),
            l.names() == names_view(fieldnames),
            !l.spec_header_written(),
    {
        let configured = clone_names(&fieldnames);
        CsvLayout { configured, fieldnames, header_written: false }
    }

    /// Back to the names given up front and no header written (a new file).
    pub fn reset(&mut self)
        ensures
            final(self).configured_names() == old(self).configured_names(),
            final(self).names() == old(self).configured_names(),
            !final(self).spec_header_written(),
    {
        self.fieldnames = clone_names(&self.configured);
        self.header_written = false;
    }

    /// The text to write for `item`, and whether it starts with the header.
    ///
    /// Without names yet, the item's own columns, in ascending order, become
    /// the names.
    pub fn render(&mut self, item: &JsonValue) -> (r: (String, bool))
        ensures
            final(self).configured_names() == old(self).configured_names(),
            final(self).spec_header_written() == old(self).spec_header_written(),
            old(self).names() is Some ==> final(self).names() == old(self).names(),
            old(self).names() is None ==> (final(self).names() matches Some(n) && keys_ascending(n)
                && n.to_set() == flattened_item(*item).dom()),
            r.1 == !old(self).spec_header_written(),
            final(self).names() matches Some(n) && r.0@ == csv_chunk(n, flattened_item(*item), r.1),
    {
        let columns = flatten_item(item);
        if self.fieldnames.is_none() {
            self.fieldnames = Some(sorted_keys(&columns));
        }
        let names = match &self.fieldnames {
            Some(n) => n,
            None => {
                return (String::new(), false);
            },
        };
        let row = csv_join(&row_of(&columns, names));
        let mut out = String::new();
        let with_header = !self.header_written;
        if with_header {
            let header = csv_join(names);
            out.append(header.as_str());
            push_char(&mut out, '\n');
        }
        out.append(row.as_str());
        push_char(&mut out, '\n');
        proof {
            let n = texts_of(names@);
            let rv = csv_line(row_values(columns.texts(), n));
            if with_header {
                assert(out@ =~= csv_line(n) + seq!['\n'] + rv + seq!['\n']);
            } else {
                assert(out@ =~= rv + seq!['\n']);
            }
        }
        (out, with_header)
    }

    /// Records that the header line was written.
    pub fn mark_header_written(&mut self)
        ensures
            final(self).configured_names() == old(self).configured_names(),
            final(self).names() == old(self).names(),
            final(self).spec_header_written(),
    {
        self.header_written = true;
    }
}

/// A copy of an optional list of names.
fn clone_names(names: &Option<Vec<String>>) -> (r: Option<Vec<String>>)
    ensures
        names_view(r) == names_view(*names),
{
    match names {
        Some(v) => {
            let mut out: Vec<String> = Vec::new();
            let mut i: usize = 0;
            while i < v.len()
                invariant
                    i <= v@.len(),
                    texts_of(out@) == texts_of(v@).take(i as int),
                decreases v.len() - i,
            {
                let ghost before = out@;
                out.push(v[i].clone());
                assert(texts_of(out@) =~= texts_of(before).push(v@[i as int]@));
                assert(texts_of(v@).take(i + 1) =~= texts_of(v@).take(i as int).push(v@[i as int]@));
                i = i + 1;
            }
            assert(texts_of(v@).take(v@.len() as int) =~= texts_of(v@));
            Some(out)
        },
        None => None,
    }
}

/// A character that can start an XML name here: an ASCII letter or `_`.
pub open spec fn tag_start_char(c: char) -> bool {
    ('a' <= c && c <= 'z') || ('A' <= c && c <= 'Z') || c == '_'
}

/// A character that can continue an XML name here: an ASCII letter or digit,
/// `_`, `.` or `:`.
pub open spec fn tag_char(c: char) -> bool {
    ('a' <= c && c <= 'z') || ('A' <= c && c <= 'Z') || ('0' <= c && c <= '9') || c == '_' || c == '.' || c == ':'
}

/// The characters of `s` with each run of unusable characters turned into a
/// single `_` (no `_` is added right after another).
pub open spec fn tag_cleaned(s: Seq<char>) -> Seq<char>
    decreases s.len(),
{
    if s.len() == 0 {
        Seq::empty()
    } else {
        let before = tag_cleaned(s.drop_last());
        let c = s.last();
        let usable = if s.len() == 1 { tag_start_char(c) } else { tag_char(c) };
        if usable {
            before.push(c)
        } else if before.len() > 0 && before.last() == '_' {
            before
        } else {
            before.push('_')
        }
    }
}

/// An element name made from `tag`: `item` when nothing usable is left, and
/// with a leading `_` when it would not start with a letter or `_`.
pub open spec fn sanitized_tag(tag: Seq<char>) -> Seq<char> {
    let cleaned = tag_cleaned(tag);
    if cleaned.len() == 0 {
        seq!['i', 't', 'e', 'm']
    } else if !tag_start_char(cleaned[0]) {
        seq!['_'] + cleaned
    } else {
        cleaned
    }
}

/// Every character kept or put in by the cleaning is usable in a name.
proof fn lemma_tag_cleaned_chars(s: Seq<char>)
    ensures
        forall|i: int| 0 <= i < tag_cleaned(s).len() ==> tag_char(#[trigger] tag_cleaned(s)[i]),
    decreases s.len(),
{
    if s.len() > 0 {
        lemma_tag_cleaned_chars(s.drop_last());
        let before = tag_cleaned(s.drop_last());
        assert forall|i: int| 0 <= i < tag_cleaned(s).len() implies tag_char(#[trigger] tag_cleaned(s)[i]) by {
            if i < before.len() {
                assert(tag_cleaned(s)[i] == before[i]);
            }
        }
    }
}

/// A usable name is left as it is by the cleaning.
proof fn lemma_tag_cleaned_keeps_names(s: Seq<char>)
    requires
        s.len() > 0 ==> tag_start_char(s[0]),
        forall|i: int| 0 <= i < s.len() ==> tag_char(#[trigger] s[i]),
    ensures
        tag_cleaned(s) == s,
    decreases s.len(),
{
    if s.len() > 0 {
        let t = s.drop_last();
        assert forall|i: int| 0 <= i < t.len() implies tag_char(#[trigger] t[i]) by {
            assert(t[i] == s[i]);
        }
        if t.len() > 0 {
            assert(t[0] == s[0]);
        }
        lemma_tag_cleaned_keeps_names(t);
        assert(s =~= t.push(s.last()));
    }
}

/// A sanitized tag is a usable element name: not empty, starting with an
/// ASCII letter or `_`, and made of ASCII letters, digits, `_`, `.` and `:`;
/// and sanitizing it again changes nothing.
pub proof fn lemma_sanitized_tag_is_name(tag: Seq<char>)
    ensures
        sanitized_tag(tag).len() > 0,
        tag_start_char(sanitized_tag(tag)[0]),
        forall|i: int| 0 <= i < sanitized_tag(tag).len() ==> tag_char(#[trigger] sanitized_tag(tag)[i]),
        sanitized_tag(sanitized_tag(tag)) == sanitized_tag(tag),
{
    let c = tag_cleaned(tag);
    lemma_tag_cleaned_chars(tag);
    let r = sanitized_tag(tag);
    if c.len() == 0 {
        assert(r =~= seq!['i', 't', 'e', 'm']);
    } else if !tag_start_char(c[0]) {
        assert forall|i: int| 0 <= i < r.len() implies tag_char(#[trigger] r[i]) by {
            if i > 0 {
                assert(r[i] == c[i - 1]);
            }
        }
    }
    assert forall|i: int| 0 <= i < r.len() implies tag_char(#[trigger] r[i]) by {
        if c.len() == 0 {
        } else if !tag_start_char(c[0]) {
            if i > 0 {
                assert(r[i] == c[i - 1]);
            }
        } else {
            assert(r[i] == c[i]);
        }
    }
    lemma_tag_cleaned_keeps_names(r);
}

/// Escaped XML text holds none of `<`, `>`, `"` and `'`.
pub proof fn lemma_xml_escaped_has_no_markup(s: Seq<char>)
    ensures
        forall|i: int| 0 <= i < xml_escaped(s).len() ==> {
            let c = #[trigger] xml_escaped(s)[i];
            c != '<' && c != '>' && c != '"' && c != '\''
        },
    decreases s.len(),
{
    if s.len() > 0 {
        lemma_xml_escaped_has_no_markup(s.drop_last());
        let a = xml_escaped(s.drop_last());
        let b = xml_escaped_char(s.last());
        assert forall|i: int| 0 <= i < xml_escaped(s).len() implies {
            let c = #[trigger] xml_escaped(s)[i];
            c != '<' && c != '>' && c != '"' && c != '\''
        } by {
            if i >= a.len() {
                assert(xml_escaped(s)[i] == b[i - a.len()]);
            } else {
                assert(xml_escaped(s)[i] == a[i]);
            }
        }
    }
}

/// An XML element name made from `tag`.
pub fn sanitize_tag(tag: &str) -> (r: String)
    ensures
        r@ == sanitized_tag(tag@),
{
    let chars = chars_of(tag);
    let mut cleaned = String::new();
    let mut last_underscore = false;
    let mut i: usize = 0;
    while i < chars.len()
        invariant
            chars@ == tag@,
            i <= chars@.len(),
            cleaned@ == tag_cleaned(tag@.take(i as int)),
            last_underscore == (cleaned@.len() > 0 && cleaned@.last() == '_'),
        decreases chars.len() - i,
    {
        let c = chars[i];
        let usable = if i == 0 {
            ('a' <= c && c <= 'z') || ('A' <= c && c <= 'Z') || c == '_'
        } else {
            ('a' <= c && c <= 'z') || ('A' <= c && c <= 'Z') || ('0' <= c && c <= '9') || c == '_' || c == '.' || c == ':'
        };
        assert(tag@.take(i + 1).drop_last() =~= tag@.take(i as int));
        if usable {
            push_char(&mut cleaned, c);
            last_underscore = c == '_';
        } else if !last_underscore {
            push_char(&mut cleaned, '_');
            last_underscore = true;
        }
        i = i + 1;
    }
    assert(tag@.take(chars@.len() as int) =~= tag@);
    let cleaned_chars = chars_of(cleaned.as_str());
    if cleaned_chars.len() == 0 {
        let r = owned("item");
        proof { reveal_strlit("item"); }
        assert(r@ =~= seq!['i', 't', 'e', 'm']);
        return r;
    }
    let first = cleaned_chars[0];
    if !(('a' <= first && first <= 'z') || ('A' <= first && first <= 'Z') || first == '_') {
        let mut r = String::new();
        push_char(&mut r, '_');
        r.append(cleaned.as_str());
        return r;
    }
    cleaned
}

/// How one character is written in XML text: the five markup characters as
/// entities, every other character as is.
pub open spec fn xml_escaped_char(c: char) -> Seq<char> {
    if c == '&' {
        seq!['&', 'a', 'm', 'p', ';']
    } else if c == '<' {
        seq!['&', 'l', 't', ';']
    } else if c == '>' {
        seq!['&', 'g', 't', ';']
    } else if c == '"' {
        seq!['&', 'q', 'u', 'o', 't', ';']
    } else if c == '\'' {
        seq!['&', 'a', 'p', 'o', 's', ';']
    } else {
        seq![c]
    }
}

/// `s` with its markup characters as entities.
pub open spec fn xml_escaped(s: Seq<char>) -> Seq<char>
    decreases s.len(),
{
    if s.len() == 0 {
        Seq::empty()
    } else {
        xml_escaped(s.drop_last()) + xml_escaped_char(s.last())
    }
}

/// Appends the characters of `s`.
fn push_chars(out: &mut String, c0: char, c1: char, c2: char, c3: char, c4: char, c5: char, n: usize)
    requires
        1 <= n <= 6,
    ensures
        final(out)@ == old(out)@ + seq![c0, c1, c2, c3, c4, c5].take(n as int),
{
    push_char(out, c0);
    if n > 1 {
        push_char(out, c1);
    }
    if n > 2 {
        push_char(out, c2);
    }
    if n > 3 {
        push_char(out, c3);
    }
    if n > 4 {
        push_char(out, c4);
    }
    if n > 5 {
        push_char(out, c5);
    }
    assert(out@ =~= old(out)@ + seq![c0, c1, c2, c3, c4, c5].take(n as int));
}

/// `value` with its markup characters as entities.
pub fn escape_xml(value: &str) -> (r: String)
    ensures
        r@ == xml_escaped(value@),
{
    let chars = chars_of(value);
    let mut out = String::new();
    let mut i: usize = 0;
    while i < chars.len()
        invariant
            chars@ == value@,
            i <= chars@.len(),
            out@ == xml_escaped(value@.take(i as int)),
        decreases chars.len() - i,
    {
        let c = chars[i];
        if c == '&' {
            push_chars(&mut out, '&', 'a', 'm', 'p', ';', ' ', 5);
        } else if c == '<' {
            push_chars(&mut out, '&', 'l', 't', ';', ' ', ' ', 4);
        } else if c == '>' {
            push_chars(&mut out, '&', 'g', 't', ';', ' ', ' ', 4);
        } else if c == '"' {
            push_chars(&mut out, '&', 'q', 'u', 'o', 't', ';', 6);
        } else if c == '\'' {
            push_chars(&mut out, '&', 'a', 'p', 'o', 's', ';', 6);
        } else {
            push_char(&mut out, c);
        }
        assert(seq!['&', 'a', 'm', 'p', ';', ' '].take(5) =~= seq!['&', 'a', 'm', 'p', ';']);
        assert(seq!['&', 'l', 't', ';', ' ', ' '].take(4) =~= seq!['&', 'l', 't', ';']);
        assert(seq!['&', 'g', 't', ';', ' ', ' '].take(4) =~= seq!['&', 'g', 't', ';']);
        assert(seq!['&', 'q', 'u', 'o', 't', ';'].take(6) =~= seq!['&', 'q', 'u', 'o', 't', ';']);
        assert(seq!['&', 'a', 'p', 'o', 's', ';'].take(6) =~= seq!['&', 'a', 'p', 'o', 's', ';']);
        assert(value@.take(i + 1).drop_last() =~= value@.take(i as int));
        i = i + 1;
    }
    assert(value@.take(chars@.len() as int) =~= value@);
    out
}

/// Two spaces per level.
pub open spec fn indent(depth: nat) -> Seq<char> {
    Seq::new(2 * depth, |i: int| ' ')
}

/// How many levels of arrays and objects `v` nests.
pub open spec fn nesting(v: JsonValue) -> nat
    decreases v, 0nat,
{
    match v {
        JsonValue::Array(items) => 1 + items_nesting(items@),
        JsonValue::Object(m) => 1 + members_nesting(m, m.members().len()),
        _ => 0,
    }
}

/// The deepest nesting among `items`.
pub open spec fn items_nesting(items: Seq<JsonValue>) -> nat
    decreases items, 0nat,
{
    if items.len() == 0 {
        0
    } else {
        let a = items_nesting(items.drop_last());
        let b = nesting(items.last());
        if a < b { b } else { a }
    }
}

/// The deepest nesting among the first `n` member values of `m`.
pub open spec fn members_nesting(m: JsonMap, n: nat) -> nat
    decreases m, n,
{
    if n == 0 || n > m.members().len() {
        0
    } else {
        let a = members_nesting(m, (n - 1) as nat);
        let b = {
            proof { lemma_member_decreases(m, n - 1); }
            nesting(m.members()[n - 1].1)
        };
        if a < b { b } else { a }
    }
}

/// `value` as an XML element named after `tag`, at indentation `depth`: an
/// object holds one element per member (in key order), an array one `item`
/// element per entry, anything else its escaped text.
pub open spec fn xml_text(tag: Seq<char>, v: JsonValue, depth: nat) -> Seq<char>
    decreases v, 0nat,
{
    let t = sanitized_tag(tag);
    let open_tag = seq!['<'] + t + seq!['>'];
    let close_tag = seq!['<', '/'] + t + seq!['>', '\n'];
    match v {
        JsonValue::Object(m) => indent(depth) + open_tag + seq!['\n'] + xml_members(m, m.members().len(), depth + 1)
            + indent(depth) + close_tag,
        JsonValue::Array(items) => indent(depth) + open_tag + seq!['\n'] + xml_items(items@, depth + 1) + indent(depth)
            + close_tag,
        _ => indent(depth) + open_tag + xml_escaped(scalar_text(v)) + close_tag,
    }
}

/// The elements of `items`, each named `item`.
pub open spec fn xml_items(items: Seq<JsonValue>, depth: nat) -> Seq<char>
    decreases items, 0nat,
{
    if items.len() == 0 {
        Seq::empty()
    } else {
        xml_items(items.drop_last(), depth) + xml_text(seq!['i', 't', 'e', 'm'], items.last(), depth)
    }
}

/// The elements of the first `n` members of `m`, each named after its key.
pub open spec fn xml_members(m: JsonMap, n: nat, depth: nat) -> Seq<char>
    decreases m, n,
{
    if n == 0 || n > m.members().len() {
        Seq::empty()
    } else {
        let e = m.members()[n - 1];
        xml_members(m, (n - 1) as nat, depth) + {
            proof { lemma_member_decreases(m, n - 1); }
            xml_text(e.0, e.1, depth)
        }
    }
}

/// Appends two spaces per level.
fn push_indent(out: &mut String, depth: usize)
    ensures
        final(out)@ == old(out)@ + indent(depth as nat),
{
    let mut i: usize = 0;
    while i < depth
        invariant
            i <= depth,
            out@ == old(out)@ + indent(i as nat),
        decreases depth - i,
    {
        push_char(out, ' ');
        push_char(out, ' ');
        assert(indent((i + 1) as nat) =~= indent(i as nat) + seq![' ', ' ']);
        i = i + 1;
    }
}

/// `value` as an XML element named after `tag`, indented by `depth` levels.
pub fn build_xml(tag: &str, value: &JsonValue, depth: usize) -> (r: String)
    requires
        depth + nesting(*value) <= usize::MAX,
    ensures
        r@ == xml_text(tag@, *value, depth as nat),
    decreases value,
{
    let t = sanitize_tag(tag);
    let mut out = String::new();
    push_indent(&mut out, depth);
    push_char(&mut out, '<');
    out.append(t.as_str());
    push_char(&mut out, '>');
    match value {
        JsonValue::Object(m) => {
            push_char(&mut out, '\n');
            proof { assert(decreases_to!(*value => value->Object_0)); }
            let body = member_elements(m, depth + 1);
            out.append(body.as_str());
            push_indent(&mut out, depth);
        },
        JsonValue::Array(items) => {
            push_char(&mut out, '\n');
            proof { assert(decreases_to!(*value => value->Array_0)); }
            let body = item_elements(items, depth + 1);
            out.append(body.as_str());
            push_indent(&mut out, depth);
        },
        _ => {
            let text = escape_xml(scalar_to_string(value).as_str());
            out.append(text.as_str());
        },
    }
    push_char(&mut out, '<');
    push_char(&mut out, '/');
    out.append(t.as_str());
    push_char(&mut out, '>');
    push_char(&mut out, '\n');
    assert(out@ =~= xml_text(tag@, *value, depth as nat));
    out
}

/// The elements of the members of `m`, each named after its key.
#[verifier::loop_isolation(false)]
fn member_elements(m: &JsonMap, depth: usize) -> (r: String)
    requires
        depth + members_nesting(*m, m.members().len()) <= usize::MAX,
    ensures
        r@ == xml_members(*m, m.members().len(), depth as nat),
    decreases m,
{
    let mut out = String::new();
    let mut i: usize = 0;
    while i < m.len()
        invariant
            i <= m.members().len(),
            out@ == xml_members(*m, i as nat, depth as nat),
        decreases m.members().len() - i,
    {
        let (k, v) = m.entry(i);
        proof {
            lemma_member_decreases(*m, i as int);
            lemma_members_nesting_bound(*m, (i + 1) as nat, m.members().len());
        }
        let child = build_xml(k.as_str(), v, depth);
        out.append(child.as_str());
        i = i + 1;
    }
    out
}

/// The elements of `items`, each named `item`.
#[verifier::loop_isolation(false)]
fn item_elements(items: &Vec<JsonValue>, depth: usize) -> (r: String)
    requires
        depth + items_nesting(items@) <= usize::MAX,
    ensures
        r@ == xml_items(items@, depth as nat),
    decreases items,
{
    let mut out = String::new();
    let mut i: usize = 0;
    while i < items.len()
        invariant
            i <= items@.len(),
            out@ == xml_items(items@.take(i as int), depth as nat),
        decreases items.len() - i,
    {
        proof {
            assert(decreases_to!(items => items@));
            assert(decreases_to!(items@ => items@[i as int]));
            lemma_items_nesting_bound(items@, i as int);
        }
        let child = build_xml("item", &items[i], depth);
        proof { reveal_strlit("item"); }
        assert("item"@ =~= seq!['i', 't', 'e', 'm']);
        out.append(child.as_str());
        assert(items@.take(i + 1).drop_last() =~= items@.take(i as int));
        i = i + 1;
    }
    assert(items@.take(items@.len() as int) =~= items@);
    out
}

/// Each entry of `items` nests no deeper than all of them.
proof fn lemma_items_nesting_bound(items: Seq<JsonValue>, i: int)
    requires
        0 <= i < items.len(),
    ensures
        nesting(items[i]) <= items_nesting(items),
    decreases items.len(),
{
    if i < items.len() - 1 {
        lemma_items_nesting_bound(items.drop_last(), i);
    }
}

/// The deepest nesting among more members is no smaller.
proof fn lemma_members_nesting_bound(m: JsonMap, a: nat, b: nat)
    requires
        a <= b <= m.members().len(),
    ensures
        members_nesting(m, a) <= members_nesting(m, b),
        0 < a ==> nesting(m.members()[a - 1].1) <= members_nesting(m, b),
    decreases b - a,
{
    if a < b {
        lemma_members_nesting_bound(m, a, (b - 1) as nat);
    }
}

/// The first lines of an XML file whose root element is named after `root`.
pub fn xml_header(root: &str) -> (r: String)
    ensures
        r@ == "<?xml version=\"1.0\" encoding=\"UTF-8\"?>\n<"@ + sanitized_tag(root@) + seq!['>', '\n'],
{
    let mut out = owned("<?xml version=\"1.0\" encoding=\"UTF-8\"?>\n<");
    out.append(sanitize_tag(root).as_str());
    push_char(&mut out, '>');
    push_char(&mut out, '\n');
    out
}

/// The last line of an XML file whose root element is named after `root`.
pub fn xml_footer(root: &str) -> (r: String)
    ensures
        r@ == seq!['<', '/'] + sanitized_tag(root@) + seq!['>', '\n'],
{
    let mut out = String::new();
    push_char(&mut out, '<');
    push_char(&mut out, '/');
    out.append(sanitize_tag(root).as_str());
    push_char(&mut out, '>');
    push_char(&mut out, '\n');
    out
}

/// The line a JSON Lines file gets for `item`: its compact JSON text.
pub fn json_line(item: &JsonValue) -> (r: String)
    ensures
        r@ == json_text(*item) + seq!['\n'],
{
    let mut out = to_json_text(item);
    push_char(&mut out, '\n');
    out
}

/// `items` nest no deeper than `b` exactly when each of them does.
proof fn lemma_items_nesting_within(items: Seq<JsonValue>, b: nat)
    ensures
        (items_nesting(items) <= b) == (forall|i: int| 0 <= i < items.len() ==> nesting(#[trigger] items[i]) <= b),
    decreases items.len(),
{
    if items.len() > 0 {
        lemma_items_nesting_within(items.drop_last(), b);
        assert forall|i: int| 0 <= i < items.len() - 1 implies #[trigger] items.drop_last()[i] == items[i] by {}
        if forall|i: int| 0 <= i < items.len() ==> nesting(#[trigger] items[i]) <= b {
            assert(nesting(items.last()) <= b);
            assert forall|i: int| 0 <= i < items.drop_last().len() implies nesting(#[trigger] items.drop_last()[i]) <= b by {
                assert(items.drop_last()[i] == items[i]);
            }
        }
        if items_nesting(items) <= b {
            assert forall|i: int| 0 <= i < items.len() implies nesting(#[trigger] items[i]) <= b by {
                if i < items.len() - 1 {
                    assert(items.drop_last()[i] == items[i]);
                }
            }
        }
    }
}

/// The first `n` members of `m` nest no deeper than `b` exactly when each does.
proof fn lemma_members_nesting_within(m: JsonMap, n: nat, b: nat)
    requires
        n <= m.members().len(),
    ensures
        (members_nesting(m, n) <= b) == (forall|i: int| 0 <= i < n ==> nesting(#[trigger] m.members()[i].1) <= b),
    decreases n,
{
    if n > 0 {
        lemma_members_nesting_within(m, (n - 1) as nat, b);
    }
}

/// Whether `v` nests no deeper than `budget` levels of arrays and objects.
#[verifier::loop_isolation(false)]
pub fn nesting_within(v: &JsonValue, budget: usize) -> (b: bool)
    ensures
        b == (nesting(*v) <= budget),
    decreases v,
{
    match v {
        JsonValue::Array(items) => {
            if budget == 0 {
                return false;
            }
            proof { lemma_items_nesting_within(items@, (budget - 1) as nat); }
            let mut i: usize = 0;
            while i < items.len()
                invariant
                    i <= items@.len(),
                    budget > 0,
                    forall|j: int| 0 <= j < i ==> nesting(#[trigger] items@[j]) <= budget - 1,
                decreases items.len() - i,
            {
                proof {
                    assert(decreases_to!(*v => v->Array_0));
                    assert(decreases_to!(items => items@));
                    assert(decreases_to!(items@ => items@[i as int]));
                }
                if !nesting_within(&items[i], budget - 1) {
                    return false;
                }
                i = i + 1;
            }
            true
        },
        JsonValue::Object(m) => {
            if budget == 0 {
                return false;
            }
            proof { lemma_members_nesting_within(*m, m.members().len(), (budget - 1) as nat); }
            let mut i: usize = 0;
            while i < m.len()
                invariant
                    i <= m.members().len(),
                    budget > 0,
                    forall|j: int| 0 <= j < i ==> nesting(#[trigger] m.members()[j].1) <= budget - 1,
                decreases m.members().len() - i,
            {
                let (_, value) = m.entry(i);
                proof {
                    assert(decreases_to!(*v => v->Object_0));
                    lemma_member_decreases(*m, i as int);
                }
                if !nesting_within(value, budget - 1) {
                    return false;
                }
                i = i + 1;
            }
            true
        },
        _ => true,
    }
}

} // verus!
