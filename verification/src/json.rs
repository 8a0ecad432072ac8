//! JSON values, as far as the library reads and writes them.
//!
//! Reading and writing JSON text is the work of `serde_json`; [`Json`] holds
//! what a text says as plain values.

use vstd::prelude::*;

use crate::offsets;
use crate::text;

verus! {

// ---------------------------------------------------------------------------
// The outside crate
// ---------------------------------------------------------------------------

/// A number of `serde_json`, carried through without looking inside.
#[verifier::external_type_specification]
#[verifier::external_body]
pub struct ExNumber(serde_json::Number);

/// A value of `serde_json`.
#[verifier::external_type_specification]
#[verifier::external_body]
pub struct ExValue(serde_json::Value);

/// What a value of `serde_json` holds.
pub uninterp spec fn value_model(v: serde_json::Value) -> JsonView;

/// What `serde_json::from_str` makes of a text: the value that it spells, or the
/// message of the error.
pub uninterp spec fn parsed_json(text: Seq<char>) -> Result<JsonView, Seq<char>>;

/// What `Value::to_string` writes for a value.
pub uninterp spec fn json_text(v: JsonView) -> Seq<char>;

/// `Number::clone` is derived, and copies the number.
pub assume_specification[ <serde_json::Number as Clone>::clone ](n: &serde_json::Number) -> (r:
    serde_json::Number)
    ensures
        r == *n,
;

/// `serde_json::from_str`, with the error as its message. The contract says only that the
/// outcome depends on the text alone.
#[verifier::external_body]
fn value_from_text(text: &str) -> (r: Result<serde_json::Value, String>)
    ensures
        match r {
            Ok(v) => parsed_json(text@) == Ok::<JsonView, Seq<char>>(value_model(v)),
            Err(e) => parsed_json(text@) == Err::<JsonView, Seq<char>>(e@),
        },
{
    serde_json::from_str(text).map_err(|e| e.to_string())
}

/// `Value::to_string`, the compact form. The contract says that the text depends on the value
/// alone and holds no newline; that the text of an object stands in braces, and that of an array
/// is made of the texts of its items; and that `serde_json::from_str` reads a value back from its
/// text, as long as the value holds no fraction and nests less deeply than the recursion limit of
/// the parser.
#[verifier::external_body]
fn text_from_value(v: &serde_json::Value) -> (r: String)
    ensures
        r@ == json_text(value_model(*v)),
        one_line(r@),
        value_model(*v) is Object ==> in_braces(r@),
        value_model(*v) is Array ==> r@ == array_text(value_model(*v).items()),
        reads_back(value_model(*v), 127) ==> spells(r@, value_model(*v)),
{
    v.to_string()
}

/// Moves the contents of a `serde_json::Value` into a [`Json`], variant by variant.
#[verifier::external_body]
fn json_from_value(v: serde_json::Value) -> (r: Json)
    ensures
        r@ == value_model(v),
{
    match v {
        serde_json::Value::Null => Json::Null,
        serde_json::Value::Bool(b) => Json::Bool(b),
        serde_json::Value::Number(n) => match (n.as_u64(), n.as_i64()) {
            (Some(u), _) => Json::Unsigned(u),
            (None, Some(i)) => Json::Negative(i),
            (None, None) => Json::Fraction(Fraction { number: n }),
        },
        serde_json::Value::String(s) => Json::Str(s),
        serde_json::Value::Array(a) => Json::Array(a.into_iter().map(json_from_value).collect()),
        serde_json::Value::Object(m) => Json::Object(m.into_iter().map(|(k, x)| (k, json_from_value(x))).collect()),
    }
}

/// Copies the contents of a [`Json`] into a `serde_json::Value`, variant by variant, the entries of
/// an object by `serde_json::Map::insert`: of two with one key it keeps the later.
#[verifier::external_body]
fn value_from_json(j: &Json) -> (r: serde_json::Value)
    ensures
        value_model(r) == j@,
{
    match j {
        Json::Null => serde_json::Value::Null,
        Json::Bool(b) => serde_json::Value::from(*b),
        Json::Unsigned(n) => serde_json::Value::from(*n),
        Json::Negative(n) => serde_json::Value::from(*n),
        Json::Fraction(f) => serde_json::Value::Number(f.number.clone()),
        Json::Str(s) => serde_json::Value::from(s.as_str()),
        Json::Array(a) => serde_json::Value::Array(a.iter().map(value_from_json).collect()),
        Json::Object(m) => serde_json::Value::Object(m.iter().fold(serde_json::Map::new(), |mut o, e| {
            o.insert(e.0.clone(), value_from_json(&e.1));
            o
        })),
    }
}

// ---------------------------------------------------------------------------
// The model
// ---------------------------------------------------------------------------

/// A JSON number that is no integer of 64 bits.
#[derive(Debug)]
pub struct Fraction {
    number: serde_json::Number,
}

/// A JSON value.
#[derive(Debug)]
pub enum Json {
    /// `null`
    Null,
    /// `true` or `false`
    Bool(bool),
    /// A number from zero up.
    Unsigned(u64),
    /// A number below zero.
    Negative(i64),
    /// Any other number.
    Fraction(Fraction),
    /// A string.
    Str(String),
    /// An array.
    Array(Vec<Json>),
    /// An object, as its entries. Of two entries with one key the later counts.
    Object(Vec<(String, Json)>),
}

/// What a JSON value says.
#[verifier::ext_equal]
pub enum JsonView {
    /// `null`
    Null,
    /// `true` or `false`
    Bool(bool),
    /// A number from zero up.
    Unsigned(u64),
    /// A number below zero.
    Negative(i64),
    /// Any other number.
    Fraction(Fraction),
    /// A string.
    Str(Seq<char>),
    /// An array.
    Array(Seq<JsonView>),
    /// An object.
    Object(Map<Seq<char>, JsonView>),
}

/// The object with the given entries. Of two entries with one key the later counts.
pub open spec fn entries_map(entries: Seq<(Seq<char>, JsonView)>) -> Map<Seq<char>, JsonView>
    decreases entries.len(),
{
    if entries.len() == 0 {
        Map::empty()
    } else {
        entries_map(entries.drop_last()).insert(entries.last().0, entries.last().1)
    }
}

/// The JSON object with the given entries.
pub open spec fn object_of(entries: Seq<(Seq<char>, JsonView)>) -> JsonView {
    JsonView::Object(entries_map(entries))
}

/// What a value says.
pub open spec fn json_view(j: Json) -> JsonView
    decreases j,
{
    match j {
        Json::Null => JsonView::Null,
        Json::Bool(b) => JsonView::Bool(b),
        Json::Unsigned(n) => JsonView::Unsigned(n),
        Json::Negative(n) => if n >= 0 {
            JsonView::Unsigned(n as u64)
        } else {
            JsonView::Negative(n)
        },
        Json::Fraction(f) => JsonView::Fraction(f),
        Json::Str(s) => JsonView::Str(s@),
        Json::Array(a) => JsonView::Array(
            Seq::new(
                a@.len(),
                |i: int|
                    if 0 <= i < a@.len() {
                        json_view(a@[i])
                    } else {
                        JsonView::Null
                    },
            ),
        ),
        Json::Object(a) => object_of(entry_list_view(a@)),
    }
}

/// What the entries of an object say, one by one.
pub open spec fn entry_list_view(a: Seq<(String, Json)>) -> Seq<(Seq<char>, JsonView)>
    decreases a,
{
    if a.len() == 0 {
        Seq::empty()
    } else {
        let e = a[a.len() - 1];
        entry_list_view(a.subrange(0, a.len() - 1)).push((e.0@, json_view(e.1)))
    }
}

impl View for Json {
    type V = JsonView;

    open spec fn view(&self) -> JsonView {
        json_view(*self)
    }
}

/// What the values of a list say.
pub open spec fn views(v: Seq<Json>) -> Seq<JsonView> {
    v.map_values(|j: Json| j@)
}

/// What the entries of an object say.
pub open spec fn entry_views(v: Seq<(String, Json)>) -> Seq<(Seq<char>, JsonView)> {
    v.map_values(|e: (String, Json)| (e.0@, e.1@))
}

proof fn lemma_array_view(a: Vec<Json>)
    ensures
        Json::Array(a)@ == JsonView::Array(views(a@)),
{
    assert(json_view(Json::Array(a))->Array_0 =~= views(a@));
}

proof fn lemma_entry_list_view(a: Seq<(String, Json)>)
    ensures
        entry_list_view(a) == entry_views(a),
    decreases a.len(),
{
    if a.len() > 0 {
        lemma_entry_list_view(a.subrange(0, a.len() - 1));
    }
    assert(entry_list_view(a) =~= entry_views(a));
}

proof fn lemma_object_view(a: Vec<(String, Json)>)
    ensures
        Json::Object(a)@ == object_of(entry_views(a@)),
{
    lemma_entry_list_view(a@);
}

impl JsonView {
    /// The entry under `key`, where the value is an object that has one.
    pub open spec fn field(self, key: Seq<char>) -> Option<JsonView> {
        match self {
            JsonView::Object(m) => if m.contains_key(key) {
                Some(m[key])
            } else {
                None
            },
            _ => None,
        }
    }

    /// The entry under `key`, or null.
    pub open spec fn at(self, key: Seq<char>) -> JsonView {
        match self.field(key) {
            Some(v) => v,
            None => JsonView::Null,
        }
    }

    /// The string, where the value is one.
    pub open spec fn text(self) -> Option<Seq<char>> {
        match self {
            JsonView::Str(s) => Some(s),
            _ => None,
        }
    }

    /// The string under `key`, where there is one.
    pub open spec fn field_text(self, key: Seq<char>) -> Option<Seq<char>> {
        self.at(key).text()
    }

    /// The value under `key` is the string `s`.
    pub open spec fn field_is(self, key: Seq<char>, s: Seq<char>) -> bool {
        self.field_text(key) == Some(s)
    }

    /// The items, where the value is an array; otherwise none.
    pub open spec fn items(self) -> Seq<JsonView> {
        match self {
            JsonView::Array(a) => a,
            _ => Seq::empty(),
        }
    }

    /// The number under `key`, where it is an integer from zero up; otherwise zero.
    pub open spec fn index(self, key: Seq<char>) -> u64 {
        match self.at(key) {
            JsonView::Unsigned(n) => n,
            _ => 0,
        }
    }

    /// The value with `v` under `key`. A value that is no object stays as it is.
    pub open spec fn with(self, key: Seq<char>, v: JsonView) -> JsonView {
        match self {
            JsonView::Object(m) => JsonView::Object(m.insert(key, v)),
            other => other,
        }
    }
}

/// The text spells the value.
pub open spec fn spells(text: Seq<char>, v: JsonView) -> bool {
    parsed_json(text) == Ok::<JsonView, Seq<char>>(v)
}

/// The text stands in braces.
pub open spec fn in_braces(s: Seq<char>) -> bool {
    s.len() > 0 && s[0] == '{' && s.last() == '}'
}

/// The bytes of the text hold no newline.
pub open spec fn one_line(s: Seq<char>) -> bool {
    forall|i: int| 0 <= i < offsets::bytes(s).len() ==> #[trigger] offsets::bytes(s)[i] != 10
}

/// The texts of the values, with commas between them.
pub open spec fn items_text(items: Seq<JsonView>) -> Seq<char>
    decreases items.len(),
{
    if items.len() == 0 {
        Seq::empty()
    } else if items.len() == 1 {
        json_text(items[0])
    } else {
        json_text(items[0]) + ","@ + items_text(items.drop_first())
    }
}

/// The text of an array with the given items.
pub open spec fn array_text(items: Seq<JsonView>) -> Seq<char> {
    "["@ + items_text(items) + "]"@
}

/// The value holds no fraction and nests at most `depth` deep: what a JSON text gives back
/// exactly.
pub open spec fn reads_back(v: JsonView, depth: nat) -> bool
    decreases depth,
{
    match v {
        JsonView::Fraction(_) => false,
        JsonView::Array(a) => depth > 0 && forall|i: int|
            0 <= i < a.len() ==> reads_back(#[trigger] a[i], (depth - 1) as nat),
        JsonView::Object(m) => depth > 0 && forall|k: Seq<char>| #[trigger]
            m.contains_key(k) ==> reads_back(m[k], (depth - 1) as nat),
        _ => true,
    }
}

/// The entries of an object up to `n` decide what is under `key`, unless a later one does.
proof fn lemma_entries_map_key(entries: Seq<(Seq<char>, JsonView)>, n: int, key: Seq<char>)
    requires
        0 <= n <= entries.len(),
        forall|j: int| n <= j < entries.len() ==> entries[j].0 != key,
    ensures
        entries_map(entries).contains_key(key) == entries_map(entries.take(n)).contains_key(key),
        entries_map(entries).contains_key(key) ==> entries_map(entries)[key] == entries_map(
            entries.take(n),
        )[key],
    decreases entries.len(),
{
    if n == entries.len() {
        assert(entries.take(n) =~= entries);
    } else {
        lemma_entries_map_key(entries.drop_last(), n, key);
        assert(entries.drop_last().take(n) =~= entries.take(n));
    }
}

// ---------------------------------------------------------------------------
// Reading and building
// ---------------------------------------------------------------------------

impl Json {
    /// The entry under `key`, where the value is an object that has one.
    pub fn get(&self, key: &str) -> (r: Option<&Json>)
        ensures
            match r {
                Some(j) => self@.field(key@) == Some(j@),
                None => self@.field(key@) is None,
            },
    {
        match self {
            Json::Object(entries) => {
                proof {
                    lemma_object_view(*entries);
                }
                let ghost all = entry_views(entries@);
                let mut i: usize = entries.len();
                while i > 0
                    invariant
                        i <= entries@.len(),
                        all == entry_views(entries@),
                        self@ == object_of(all),
                        forall|j: int| i <= j < all.len() ==> all[j].0 != key@,
                    decreases i,
                {
                    i -= 1;
                    if text::same_text(entries[i].0.as_str(), key) {
                        proof {
                            lemma_entries_map_key(all, i + 1, key@);
                            assert(all.take(i + 1).last() == all[i as int]);
                        }
                        return Some(&entries[i].1);
                    }
                }
                proof {
                    lemma_entries_map_key(all, 0, key@);
                    assert(all.take(0).len() == 0);
                }
                None
            },
            _ => None,
        }
    }

    /// The string, where the value is one.
    pub fn as_text(&self) -> (r: Option<&str>)
        ensures
            match r {
                Some(s) => self@.text() == Some(s@),
                None => self@.text() is None,
            },
    {
        match self {
            Json::Str(s) => Some(s.as_str()),
            _ => None,
        }
    }

    /// The string under `key`, where there is one.
    pub fn get_text(&self, key: &str) -> (r: Option<&str>)
        ensures
            match r {
                Some(s) => self@.field_text(key@) == Some(s@),
                None => self@.field_text(key@) is None,
            },
    {
        match self.get(key) {
            Some(j) => j.as_text(),
            None => None,
        }
    }

    /// The value under `key` is the string `s`.
    pub fn has(&self, key: &str, s: &str) -> (r: bool)
        ensures
            r == self@.field_is(key@, s@),
    {
        match self.get_text(key) {
            Some(t) => text::same_text(t, s),
            None => false,
        }
    }

    /// The items, where the value is an array.
    pub fn as_items(&self) -> (r: Option<&Vec<Json>>)
        ensures
            match r {
                Some(v) => self@ == JsonView::Array(views(v@)),
                None => !(self@ is Array) && self@.items() == Seq::<JsonView>::empty(),
            },
    {
        match self {
            Json::Array(v) => {
                proof {
                    lemma_array_view(*v);
                }
                Some(v)
            },
            _ => None,
        }
    }

    /// The number under `key`, where it is an integer from zero up; otherwise zero.
    pub fn get_index(&self, key: &str) -> (r: u64)
        ensures
            r == self@.index(key@),
    {
        match self.get(key) {
            Some(Json::Unsigned(n)) => *n,
            Some(Json::Negative(n)) => if *n >= 0 {
                *n as u64
            } else {
                0
            },
            _ => 0,
        }
    }

    /// A copy of the value.
    pub fn dup(&self) -> (r: Json)
        ensures
            r@ == self@,
        decreases self,
    {
        match self {
            Json::Null => Json::Null,
            Json::Bool(b) => Json::Bool(*b),
            Json::Unsigned(n) => Json::Unsigned(*n),
            Json::Negative(n) => Json::Negative(*n),
            Json::Fraction(f) => Json::Fraction(Fraction { number: f.number.clone() }),
            Json::Str(s) => Json::Str(s.clone()),
            Json::Array(a) => {
                let mut out: Vec<Json> = Vec::new();
                let mut i: usize = 0;
                while i < a.len()
                    invariant
                        i <= a.len(),
                        self == Json::Array(*a),
                        views(out@) == views(a@).take(i as int),
                    decreases a.len() - i,
                {
                    assert(decreases_to!(self => self->Array_0@[i as int]));
                    let ghost before = out@;
                    out.push(a[i].dup());
                    assert(views(out@) =~= views(before).push(a@[i as int]@));
                    assert(views(out@) =~= views(a@).take(i + 1));
                    i += 1;
                }
                proof {
                    assert(views(a@).take(a@.len() as int) =~= views(a@));
                    lemma_array_view(out);
                    lemma_array_view(*a);
                }
                Json::Array(out)
            },
            Json::Object(a) => {
                let mut out: Vec<(String, Json)> = Vec::new();
                let mut i: usize = 0;
                while i < a.len()
                    invariant
                        i <= a.len(),
                        self == Json::Object(*a),
                        entry_views(out@) == entry_views(a@).take(i as int),
                    decreases a.len() - i,
                {
                    assert(decreases_to!(self => self->Object_0@[i as int].1));
                    let ghost before = out@;
                    out.push((a[i].0.clone(), a[i].1.dup()));
                    assert(entry_views(out@) =~= entry_views(before).push(
                        (a@[i as int].0@, a@[i as int].1@),
                    ));
                    assert(entry_views(out@) =~= entry_views(a@).take(i + 1));
                    i += 1;
                }
                proof {
                    assert(entry_views(a@).take(a@.len() as int) =~= entry_views(a@));
                    lemma_object_view(out);
                    lemma_object_view(*a);
                }
                Json::Object(out)
            },
        }
    }

    /// A copy of the entry under `key`, or null.
    pub fn dup_at(&self, key: &str) -> (r: Json)
        ensures
            r@ == self@.at(key@),
    {
        match self.get(key) {
            Some(j) => j.dup(),
            None => Json::Null,
        }
    }

    /// Puts `value` under `key`. A value that is no object stays as it is.
    pub fn set(&mut self, key: &str, value: Json)
        ensures
            final(self)@ == old(self)@.with(key@, value@),
    {
        match self {
            Json::Object(entries) => {
                proof {
                    lemma_object_view(*entries);
                }
                let ghost before = entry_views(entries@);
                entries.push((text::owned(key), value));
                proof {
                    lemma_object_view(*entries);
                    assert(entry_views(entries@) =~= before.push((key@, value@)));
                    assert(before.push((key@, value@)).drop_last() =~= before);
                }
            },
            _ => {},
        }
    }

    /// The value as JSON text.
    pub fn to_text(&self) -> (r: String)
        ensures
            r@ == json_text(self@),
            one_line(r@),
            self@ is Object ==> in_braces(r@),
            self@ is Array ==> r@ == array_text(self@.items()),
            reads_back(self@, 127) ==> spells(r@, self@),
    {
        text_from_value(&value_from_json(self))
    }
}

/// A copy of a list of values.
pub fn dup_all(v: &Vec<Json>) -> (r: Vec<Json>)
    ensures
        views(r@) == views(v@),
{
    let mut out: Vec<Json> = Vec::new();
    let mut i: usize = 0;
    while i < v.len()
        invariant
            i <= v.len(),
            views(out@) == views(v@).take(i as int),
        decreases v.len() - i,
    {
        let ghost before = out@;
        out.push(v[i].dup());
        assert(views(out@) =~= views(before).push(v@[i as int]@));
        assert(views(out@) =~= views(v@).take(i + 1));
        i += 1;
    }
    assert(views(v@).take(v@.len() as int) =~= views(v@));
    out
}

/// The value that a JSON text spells, or the message of the error.
pub fn parse_json(text: &str) -> (r: Result<Json, String>)
    ensures
        match r {
            Ok(j) => parsed_json(text@) == Ok::<JsonView, Seq<char>>(j@),
            Err(e) => parsed_json(text@) == Err::<JsonView, Seq<char>>(e@),
        },
{
    match value_from_text(text) {
        Ok(v) => Ok(json_from_value(v)),
        Err(e) => Err(e),
    }
}

/// The JSON string `s`.
pub fn json_str(s: &str) -> (r: Json)
    ensures
        r@ == JsonView::Str(s@),
{
    Json::Str(text::owned(s))
}

/// The JSON string `s`, or null.
pub fn json_opt_str(s: &Option<String>) -> (r: Json)
    ensures
        r@ == (match *s {
            Some(t) => JsonView::Str(t@),
            None => JsonView::Null,
        }),
{
    match s {
        Some(t) => Json::Str(t.clone()),
        None => Json::Null,
    }
}

/// What the number `i` says in JSON.
pub open spec fn int_view(i: int) -> JsonView {
    if i < 0 {
        JsonView::Negative(i as i64)
    } else {
        JsonView::Unsigned(i as u64)
    }
}

/// The JSON number `i`.
pub fn json_int(i: i64) -> (r: Json)
    ensures
        r@ == int_view(i as int),
{
    Json::Negative(i)
}

/// The JSON array of the given values.
pub fn json_array(items: Vec<Json>) -> (r: Json)
    ensures
        r@ == JsonView::Array(views(items@)),
{
    proof {
        lemma_array_view(items);
    }
    Json::Array(items)
}

/// A JSON object under construction.
pub struct ObjectBuilder {
    entries: Vec<(String, Json)>,
}

impl ObjectBuilder {
    /// The entries so far.
    pub closed spec fn entries(&self) -> Seq<(Seq<char>, JsonView)> {
        entry_views(self.entries@)
    }

    /// An object without entries.
    pub fn new() -> (r: ObjectBuilder)
        ensures
            r.entries() == Seq::<(Seq<char>, JsonView)>::empty(),
    {
        let r = ObjectBuilder { entries: Vec::new() };
        assert(r.entries() =~= Seq::<(Seq<char>, JsonView)>::empty());
        r
    }

    /// Adds an entry.
    pub fn put(self, key: &str, value: Json) -> (r: ObjectBuilder)
        ensures
            r.entries() == self.entries().push((key@, value@)),
    {
        let mut entries = self.entries;
        entries.push((text::owned(key), value));
        let r = ObjectBuilder { entries };
        assert(r.entries() =~= self.entries().push((key@, value@)));
        r
    }

    /// Adds a string.
    pub fn put_str(self, key: &str, value: &str) -> (r: ObjectBuilder)
        ensures
            r.entries() == self.entries().push((key@, JsonView::Str(value@))),
    {
        self.put(key, json_str(value))
    }

    /// The object.
    pub fn done(self) -> (r: Json)
        ensures
            r@ == object_of(self.entries()),
    {
        proof {
            lemma_object_view(self.entries);
        }
        Json::Object(self.entries)
    }
}

} // verus!
