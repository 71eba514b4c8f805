//! JSON values: the library's own type, its mathematical view, and the way to
//! and from JSON text.
use vstd::prelude::*;
use vstd::string::*;
use vstd::utf8::*;

use crate::text;

verus! {

/// `serde_json::Number`: a number of a JSON text, carried through unchanged.
#[verifier::external_type_specification]
#[verifier::external_body]
pub struct ExNumber(serde_json::Number);

/// `serde_json::Value`: a JSON value as the parser makes it and the printer
/// takes it.
#[verifier::external_type_specification]
#[verifier::external_body]
pub struct ExValue(serde_json::Value);

/// What a JSON value is: an object maps each of its keys to one value.
pub enum JsonView {
    Null,
    Bool(bool),
    Number(serde_json::Number),
    Text(Seq<char>),
    Array(Seq<JsonView>),
    Object(Map<Seq<char>, JsonView>),
}

/// A JSON value. Where an object holds an entry for the same key twice, the
/// later one counts.
#[derive(Debug)]
pub enum Json {
    Null,
    Bool(bool),
    Number(serde_json::Number),
    Text(String),
    Array(Vec<Json>),
    Object(Vec<(String, Json)>),
}

/// The outermost layer of a `serde_json::Value`.
enum Node {
    Null,
    Bool(bool),
    Number(serde_json::Number),
    Text(String),
    Array(Vec<serde_json::Value>),
    Object(Vec<(String, serde_json::Value)>),
}

pub open spec fn view_json(j: Json) -> JsonView
    decreases j,
{
    match j {
        Json::Null => JsonView::Null,
        Json::Bool(b) => JsonView::Bool(b),
        Json::Number(n) => JsonView::Number(n),
        Json::Text(s) => JsonView::Text(s@),
        Json::Array(items) => JsonView::Array(view_items(items@)),
        Json::Object(entries) => JsonView::Object(view_entries(entries@)),
    }
}

/// The values of an array.
pub open spec fn view_items(items: Seq<Json>) -> Seq<JsonView>
    decreases items,
{
    if items.len() == 0 {
        Seq::empty()
    } else {
        view_items(items.drop_last()).push(view_json(items.last()))
    }
}

/// The map that the entries of an object make.
pub open spec fn view_entries(entries: Seq<(String, Json)>) -> Map<Seq<char>, JsonView>
    decreases entries,
{
    if entries.len() == 0 {
        Map::empty()
    } else {
        view_entries(entries.drop_last()).insert(entries.last().0@, view_json(entries.last().1))
    }
}

impl View for Json {
    type V = JsonView;

    open spec fn view(&self) -> JsonView {
        view_json(*self)
    }
}

// ---------------------------------------------------------------------------
// serde_json
// ---------------------------------------------------------------------------
/// What a `serde_json::Value` holds.
pub uninterp spec fn json_of(v: serde_json::Value) -> JsonView;

/// What `serde_json::from_slice` reads from a JSON text, if it is one.
pub uninterp spec fn json_parsed(bytes: Seq<u8>) -> Option<JsonView>;

/// The compact JSON text of a value.
pub uninterp spec fn json_text(j: JsonView) -> Seq<char>;

/// The value of a number that is a whole number from 0 to `u64::MAX`.
pub uninterp spec fn number_u64(n: serde_json::Number) -> Option<u64>;

/// The number of a `u64`.
pub uninterp spec fn number_of(u: u64) -> serde_json::Number;

/// Whether a number is a floating-point number.
pub uninterp spec fn number_float(n: serde_json::Number) -> bool;

/// A text that stands on one line: neither empty, nor with white space at an
/// end, nor with a line feed or carriage return in it.
pub open spec fn one_line(t: Seq<char>) -> bool {
    &&& t.len() > 0
    &&& !text::is_space(t[0])
    &&& !text::is_space(t.last())
    &&& forall|i: int| 0 <= i < t.len() ==> t[i] != '\n' && t[i] != '\r'
}

/// The key that `serde_json` reserves: where an object starts with it, the
/// parser does not read the object but the text that the key has for its value.
pub open spec fn reserved_key() -> Seq<char> {
    "$serde_json::private::RawValue"@
}

/// The first of the keys of an object is the reserved one. The keys of an
/// object are ordered by their characters.
pub open spec fn starts_reserved(fields: Map<Seq<char>, JsonView>) -> bool {
    fields.dom().contains(reserved_key()) && forall|k: Seq<char>|
        fields.dom().contains(k) ==> !#[trigger] text::precedes(k, reserved_key())
}

/// A value nested at most `depth` levels deep whose numbers are all whole
/// numbers and whose objects do not start with the reserved key.
pub open spec fn plain(j: JsonView, depth: nat) -> bool
    decreases j,
{
    match j {
        JsonView::Number(n) => !number_float(n),
        JsonView::Array(items) => depth > 0 && forall|i: int|
            0 <= i < items.len() ==> plain(#[trigger] items[i], (depth - 1) as nat),
        JsonView::Object(fields) => depth > 0 && fields.dom().finite() && !starts_reserved(fields)
            && forall|k: Seq<char>|
            fields.dom().contains(k) ==> plain(#[trigger] fields[k], (depth - 1) as nat),
        _ => true,
    }
}

/// The reserved key starts with a dollar sign.
pub proof fn lemma_reserved_key()
    ensures
        reserved_key().len() > 0,
        reserved_key()[0] == '$',
{
    reveal_strlit("$serde_json::private::RawValue");
}

/// The items of a plain array are plain, one level less deep.
pub proof fn lemma_plain_item(items: Seq<JsonView>, depth: nat, i: int)
    requires
        plain(JsonView::Array(items), depth),
        0 <= i < items.len(),
    ensures
        depth > 0,
        plain(items[i], (depth - 1) as nat),
{
    let j = JsonView::Array(items);
    assert(plain(j->Array_0[i], (depth - 1) as nat));
}

/// The fields of a plain object are plain, one level less deep.
pub proof fn lemma_plain_get(j: JsonView, key: Seq<char>, depth: nat)
    requires
        plain(j, depth),
        j.get(key) is Some,
    ensures
        depth > 0,
        plain(j.get(key)->0, (depth - 1) as nat),
{
    assert(plain(j->Object_0[key], (depth - 1) as nat));
}

/// An object stays plain when a field is set to a plain value.
pub proof fn lemma_plain_with(j: JsonView, key: Seq<char>, value: JsonView, depth: nat)
    requires
        j is Object,
        depth > 0,
        key != reserved_key(),
        plain(j, depth),
        plain(value, (depth - 1) as nat),
    ensures
        plain(j.with(key, value), depth),
{
    let fields = j->Object_0;
    let set = fields.insert(key, value);
    if fields.dom().contains(reserved_key()) {
        let first = choose|k: Seq<char>|
            fields.dom().contains(k) && #[trigger] text::precedes(k, reserved_key());
        assert(set.dom().contains(first));
    }
    assert(!starts_reserved(set));
    assert forall|k: Seq<char>| set.dom().contains(k) implies plain(
        #[trigger] set[k],
        (depth - 1) as nat,
    ) by {
        if k != key {
            assert(plain(fields[k], (depth - 1) as nat));
        }
    }
}

/// An object stays plain without a field that does not stand before the
/// reserved key.
pub proof fn lemma_plain_without(j: JsonView, key: Seq<char>, depth: nat)
    requires
        plain(j, depth),
        !text::precedes(key, reserved_key()),
    ensures
        plain(j.without(key), depth),
{
    match j {
        JsonView::Object(fields) => {
            let kept = fields.remove(key);
            if kept.dom().contains(reserved_key()) {
                let first = choose|k: Seq<char>|
                    fields.dom().contains(k) && #[trigger] text::precedes(k, reserved_key());
                assert(kept.dom().contains(first));
            }
            assert(!starts_reserved(kept));
            assert forall|k: Seq<char>| kept.dom().contains(k) implies plain(
                #[trigger] kept[k],
                (depth - 1) as nat,
            ) by {
                assert(plain(fields[k], (depth - 1) as nat));
            }
        },
        _ => {},
    }
}

/// What is plain at one depth is plain at a greater one.
pub proof fn lemma_plain_deeper(j: JsonView, depth: nat, more: nat)
    requires
        plain(j, depth),
        depth <= more,
    ensures
        plain(j, more),
    decreases j,
{
    match j {
        JsonView::Array(items) => {
            assert forall|i: int| 0 <= i < j->Array_0.len() implies plain(
                #[trigger] j->Array_0[i],
                (more - 1) as nat,
            ) by {
                lemma_plain_item(items, depth, i);
                assert(decreases_to!(j => j->Array_0));
                assert(decreases_to!(items => items[i]));
                lemma_plain_deeper(items[i], (depth - 1) as nat, (more - 1) as nat);
            }
        },
        JsonView::Object(fields) => {
            assert forall|k: Seq<char>| fields.dom().contains(k) implies plain(
                #[trigger] fields[k],
                (more - 1) as nat,
            ) by {
                lemma_plain_get(j, k, depth);
                vstd::map::axiom_map_index_decreases_finite(fields, k);
                assert(decreases_to!(j => j->Object_0));
                lemma_plain_deeper(fields[k], (depth - 1) as nat, (more - 1) as nat);
            }
        },
        _ => {},
    }
}

/// The map that a list of entries makes, a later entry counting over an
/// earlier one of the same key.
spec fn entries_of(entries: Seq<(String, serde_json::Value)>) -> Map<Seq<char>, JsonView>
    decreases entries.len(),
{
    if entries.len() == 0 {
        Map::empty()
    } else {
        entries_of(entries.drop_last()).insert(entries.last().0@, json_of(entries.last().1))
    }
}

spec fn node_view(n: Node) -> JsonView {
    match n {
        Node::Null => JsonView::Null,
        Node::Bool(b) => JsonView::Bool(b),
        Node::Number(n) => JsonView::Number(n),
        Node::Text(s) => JsonView::Text(s@),
        Node::Array(items) => JsonView::Array(
            items@.map_values(|v: serde_json::Value| json_of(v)),
        ),
        Node::Object(entries) => JsonView::Object(entries_of(entries@)),
    }
}

/// Calls `serde_json::from_slice`. Its result depends on the bytes alone.
#[verifier::external_body]
fn parse_value(bytes: &[u8]) -> (r: Option<serde_json::Value>)
    ensures
        r matches Some(v) ==> json_parsed(bytes@) == Some(json_of(v)),
        r is None ==> json_parsed(bytes@) is None,
{
    serde_json::from_slice(bytes).ok()
}

/// Prints a `serde_json::Value` by its `Display`, the compact form. The text
/// depends on what the value holds alone: the map of an object is ordered by
/// its keys. Control characters are escaped in it, and it starts and ends with
/// a bracket, a quote, a sign, a letter or a digit. The parser reads it back,
/// unless it is nested deeper than the parser goes or an object in it starts
/// with the reserved key;
/// of floating-point numbers, which the parser may round, nothing is said.
#[verifier::external_body]
fn print_value(value: &serde_json::Value) -> (r: String)
    ensures
        r@ == json_text(json_of(*value)),
        one_line(r@),
        plain(json_of(*value), 127) ==> json_parsed(encode_utf8(r@)) == Some(json_of(*value)),
{
    value.to_string()
}

/// Takes a `serde_json::Value` apart by one level. The entries of an object
/// have different keys.
#[verifier::external_body]
fn open_value(value: serde_json::Value) -> (r: Node)
    ensures
        node_view(r) == json_of(value),
        r matches Node::Object(entries) ==> forall|i: int, j: int|
            0 <= i < j < entries@.len() ==> entries@[i].0@ != entries@[j].0@,
{
    match value {
        serde_json::Value::Null => Node::Null,
        serde_json::Value::Bool(b) => Node::Bool(b),
        serde_json::Value::Number(n) => Node::Number(n),
        serde_json::Value::String(s) => Node::Text(s),
        serde_json::Value::Array(items) => Node::Array(items),
        serde_json::Value::Object(fields) => Node::Object(fields.into_iter().collect()),
    }
}

/// Puts one level of a `serde_json::Value` together.
#[verifier::external_body]
fn close_value(node: Node) -> (r: serde_json::Value)
    ensures
        json_of(r) == node_view(node),
{
    match node {
        Node::Null => serde_json::Value::Null,
        Node::Bool(b) => serde_json::Value::Bool(b),
        Node::Number(n) => serde_json::Value::Number(n),
        Node::Text(s) => serde_json::Value::String(s),
        Node::Array(items) => serde_json::Value::Array(items),
        Node::Object(fields) => serde_json::Value::Object(fields.into_iter().collect()),
    }
}

/// `serde_json::Number::as_u64`.
pub assume_specification[ serde_json::Number::as_u64 ](n: &serde_json::Number) -> (r: Option<u64>)
    ensures
        r == number_u64(*n),
;

/// `serde_json::Number::is_f64`.
pub assume_specification[ serde_json::Number::is_f64 ](n: &serde_json::Number) -> (r: bool)
    ensures
        r == number_float(*n),
;

/// `serde_json::Number::clone` makes an equal number.
pub assume_specification[ <serde_json::Number as Clone>::clone ](n: &serde_json::Number) -> (r:
    serde_json::Number)
    ensures
        r == *n,
;

/// Calls `serde_json::Number::from` on a `u64`, which `as_u64` gives back. The
/// number is a whole number.
#[verifier::external_body]
fn number_from(u: u64) -> (r: serde_json::Number)
    ensures
        r == number_of(u),
        number_u64(r) == Some(u),
        !number_float(r),
{
    serde_json::Number::from(u)
}

// ---------------------------------------------------------------------------
// Reading and writing
// ---------------------------------------------------------------------------
impl JsonView {
    /// The value of a key, where this is an object that has it.
    pub open spec fn get(self, key: Seq<char>) -> Option<JsonView> {
        match self {
            JsonView::Object(fields) => if fields.dom().contains(key) {
                Some(fields[key])
            } else {
                None
            },
            _ => None,
        }
    }

    pub open spec fn as_text(self) -> Option<Seq<char>> {
        match self {
            JsonView::Text(s) => Some(s),
            _ => None,
        }
    }

    pub open spec fn as_items(self) -> Option<Seq<JsonView>> {
        match self {
            JsonView::Array(items) => Some(items),
            _ => None,
        }
    }

    pub open spec fn as_bool(self) -> Option<bool> {
        match self {
            JsonView::Bool(b) => Some(b),
            _ => None,
        }
    }

    pub open spec fn as_u64(self) -> Option<u64> {
        match self {
            JsonView::Number(n) => number_u64(n),
            _ => None,
        }
    }

    /// The string that a key has for its value.
    pub open spec fn text_of(self, key: Seq<char>) -> Option<Seq<char>> {
        match self.get(key) {
            Some(v) => v.as_text(),
            None => None,
        }
    }

    /// The array that a key has for its value.
    pub open spec fn items_of(self, key: Seq<char>) -> Option<Seq<JsonView>> {
        match self.get(key) {
            Some(v) => v.as_items(),
            None => None,
        }
    }

    /// An object or null: what a key can be set on.
    pub open spec fn takes_fields(self) -> bool {
        self is Object || self is Null
    }

    /// This object with `key` set to `value`. Null counts as an object without
    /// fields.
    pub open spec fn with(self, key: Seq<char>, value: JsonView) -> JsonView {
        match self {
            JsonView::Object(fields) => JsonView::Object(fields.insert(key, value)),
            JsonView::Null => JsonView::Object(Map::empty().insert(key, value)),
            _ => self,
        }
    }

    /// This object without `key`.
    pub open spec fn without(self, key: Seq<char>) -> JsonView {
        match self {
            JsonView::Object(fields) => JsonView::Object(fields.remove(key)),
            _ => self,
        }
    }

    /// This array with `item` in place of the one at `i`.
    pub open spec fn with_item(self, i: int, item: JsonView) -> JsonView {
        match self {
            JsonView::Array(items) => JsonView::Array(items.update(i, item)),
            _ => self,
        }
    }
}

impl Json {
    /// The value of a key, where this is an object that has it.
    pub fn get(&self, key: &str) -> (r: Option<&Json>)
        ensures
            r matches Some(v) ==> self@.get(key@) == Some(v@),
            r is None ==> self@.get(key@) is None,
    {
        match self {
            Json::Object(entries) => match find_entry(entries, key) {
                Some(i) => {
                    proof {
                        lemma_view_entries(entries@, i as int);
                    }
                    Some(&entries[i].1)
                },
                None => {
                    proof {
                        lemma_view_entries_absent(entries@, key@);
                    }
                    None
                },
            },
            _ => None,
        }
    }

    /// The value of a key, to be changed in place.
    pub fn get_mut(&mut self, key: &str) -> (r: Option<&mut Json>)
        ensures
            match r {
                Some(v) => old(self)@.get(key@) == Some((*v)@) && final(self)@ == old(self)@.with(
                    key@,
                    (*final(v))@,
                ),
                None => old(self)@.get(key@) is None && *final(self) == *old(self),
            },
    {
        match self {
            Json::Object(entries) => match find_entry(entries, key) {
                Some(i) => {
                    proof {
                        lemma_view_entries(entries@, i as int);
                        assert forall|v: (String, Json)| v.0@ == key@ implies view_entries(
                            #[trigger] entries@.update(i as int, v),
                        ) == view_entries(entries@).insert(key@, view_json(v.1)) by {
                            lemma_view_entries_update(entries@, i as int, v);
                        }
                    }
                    Some(&mut entries[i].1)
                },
                None => {
                    proof {
                        lemma_view_entries_absent(entries@, key@);
                    }
                    None
                },
            },
            _ => None,
        }
    }
}

impl Json {
    /// The string that this is.
    pub fn as_text(&self) -> (r: Option<&str>)
        ensures
            r matches Some(s) ==> self@.as_text() == Some(s@),
            r is None ==> self@.as_text() is None,
    {
        match self {
            Json::Text(s) => Some(s.as_str()),
            _ => None,
        }
    }

    /// The items of the array that this is.
    pub fn as_items(&self) -> (r: Option<&Vec<Json>>)
        ensures
            r matches Some(items) ==> self@.as_items() == Some(view_items(items@)),
            r is None ==> self@.as_items() is None,
    {
        match self {
            Json::Array(items) => Some(items),
            _ => None,
        }
    }

    /// The truth value that this is.
    pub fn as_bool(&self) -> (r: Option<bool>)
        ensures
            r == self@.as_bool(),
    {
        match self {
            Json::Bool(b) => Some(*b),
            _ => None,
        }
    }

    /// The whole number that this is, from 0 to `u64::MAX`.
    pub fn as_u64(&self) -> (r: Option<u64>)
        ensures
            r == self@.as_u64(),
    {
        match self {
            Json::Number(n) => n.as_u64(),
            _ => None,
        }
    }

    /// The string that a key has for its value.
    pub fn text_of(&self, key: &str) -> (r: Option<&str>)
        ensures
            r matches Some(s) ==> self@.text_of(key@) == Some(s@),
            r is None ==> self@.text_of(key@) is None,
    {
        match self.get(key) {
            Some(v) => v.as_text(),
            None => None,
        }
    }

    /// Whether a key has the given string for its value.
    pub fn text_is(&self, key: &str, value: &str) -> (r: bool)
        ensures
            r == (self@.text_of(key@) == Some(value@)),
    {
        match self.text_of(key) {
            Some(s) => text::same_text(s, value),
            None => false,
        }
    }

    /// The array that a key has for its value.
    pub fn items_of(&self, key: &str) -> (r: Option<&Vec<Json>>)
        ensures
            r matches Some(items) ==> self@.items_of(key@) == Some(view_items(items@)),
            r is None ==> self@.items_of(key@) is None,
    {
        match self.get(key) {
            Some(v) => v.as_items(),
            None => None,
        }
    }

    /// Whether a key can be set on this.
    pub fn takes_fields(&self) -> (r: bool)
        ensures
            r == self@.takes_fields(),
    {
        match self {
            Json::Object(_) => true,
            Json::Null => true,
            _ => false,
        }
    }

    /// Sets a key of this object. Null becomes an object first.
    pub fn put(&mut self, key: &str, value: Json)
        requires
            old(self)@.takes_fields(),
        ensures
            final(self)@ == old(self)@.with(key@, value@),
    {
        match self {
            Json::Object(entries) => {
                let ghost before = entries@;
                match find_entry(entries, key) {
                    Some(i) => {
                        let entry = (text::owned(key), value);
                        proof {
                            lemma_view_entries_update(entries@, i as int, entry);
                        }
                        entries[i] = entry;
                    },
                    None => {
                        entries.push((text::owned(key), value));
                        assert(entries@.drop_last() =~= before);
                    },
                }
            },
            _ => {
                let mut entries: Vec<(String, Json)> = Vec::new();
                entries.push((text::owned(key), value));
                proof {
                    assert(entries@.drop_last() =~= Seq::empty());
                    assert(view_entries(Seq::empty()) =~= Map::empty());
                }
                *self = Json::Object(entries);
            },
        }
    }

    /// Takes a key out of this object.
    pub fn remove(&mut self, key: &str)
        ensures
            final(self)@ == old(self)@.without(key@),
    {
        match self {
            Json::Object(entries) => {
                remove_entries(entries, key);
            },
            _ => {},
        }
    }

    /// The item at `i` of this array, to be changed in place.
    pub fn item_mut(&mut self, i: usize) -> (r: Option<&mut Json>)
        ensures
            match r {
                Some(v) => old(self)@.as_items() is Some && i < old(self)@.as_items()->0.len()
                    && old(self)@.as_items()->0[i as int] == (*v)@ && final(self)@
                    == old(self)@.with_item(i as int, (*final(v))@),
                None => (old(self)@.as_items() matches Some(items) ==> i >= items.len())
                    && *final(self) == *old(self),
            },
    {
        broadcast use lemma_view_items;

        match self {
            Json::Array(items) => {
                if i < items.len() {
                    proof {
                        assert forall|v: Json| view_items(#[trigger] items@.update(i as int, v))
                            == view_items(items@).update(i as int, view_json(v)) by {
                            assert(view_items(items@.update(i as int, v)) =~= view_items(
                                items@,
                            ).update(i as int, view_json(v)));
                        }
                    }
                    Some(&mut items[i])
                } else {
                    None
                }
            },
            _ => None,
        }
    }

    /// A value equal to this one.
    pub fn copy(&self) -> (r: Json)
        ensures
            r@ == self@,
        decreases self,
    {
        match self {
            Json::Null => Json::Null,
            Json::Bool(b) => Json::Bool(*b),
            Json::Number(n) => Json::Number(n.clone()),
            Json::Text(s) => Json::Text(s.clone()),
            Json::Array(items) => {
                let mut out: Vec<Json> = Vec::new();
                let mut i: usize = 0;
                while i < items.len()
                    invariant
                        *self == Json::Array(*items),
                        i <= items@.len(),
                        out@.len() == i,
                        forall|k: int|
                            0 <= k < i ==> #[trigger] view_json(out@[k]) == view_json(items@[k]),
                    decreases items@.len() - i,
                {
                    assert(decreases_to!(self => self->Array_0));
                    assert(decreases_to!(items => items@));
                    assert(decreases_to!(items@ => items@[i as int]));
                    out.push(items[i].copy());
                    i = i + 1;
                }
                proof {
                    lemma_view_items(items@);
                    lemma_view_items(out@);
                    assert(view_items(out@) =~= view_items(items@));
                }
                Json::Array(out)
            },
            Json::Object(entries) => {
                let mut out: Vec<(String, Json)> = Vec::new();
                let mut i: usize = 0;
                assert(entries@.take(0) =~= Seq::empty());
                while i < entries.len()
                    invariant
                        *self == Json::Object(*entries),
                        i <= entries@.len(),
                        out@.len() == i,
                        view_entries(out@) == view_entries(entries@.take(i as int)),
                    decreases entries@.len() - i,
                {
                    let ghost before = out@;
                    assert(decreases_to!(self => self->Object_0));
                    assert(decreases_to!(entries => entries@));
                    assert(decreases_to!(entries@ => entries@[i as int]));
                    assert(decreases_to!(entries@[i as int] => entries@[i as int].1));
                    out.push((entries[i].0.clone(), entries[i].1.copy()));
                    proof {
                        assert(out@.drop_last() =~= before);
                        assert(entries@.take(i + 1).drop_last() =~= entries@.take(i as int));
                    }
                    i = i + 1;
                }
                assert(entries@.take(i as int) =~= entries@);
                Json::Object(out)
            },
        }
    }

    /// A JSON string.
    pub fn text(s: &str) -> (r: Json)
        ensures
            r@ == JsonView::Text(s@),
    {
        Json::Text(text::owned(s))
    }

    /// A JSON number.
    pub fn number(u: u64) -> (r: Json)
        ensures
            r@ == JsonView::Number(number_of(u)),
            number_u64(number_of(u)) == Some(u),
            !number_float(number_of(u)),
    {
        Json::Number(number_from(u))
    }

    /// An object without fields.
    pub fn object() -> (r: Json)
        ensures
            r@ == JsonView::Object(Map::empty()),
    {
        let entries: Vec<(String, Json)> = Vec::new();
        assert(view_entries(entries@) =~= Map::empty());
        Json::Object(entries)
    }

    /// An array without items.
    pub fn array() -> (r: Json)
        ensures
            r@ == JsonView::Array(Seq::empty()),
    {
        Json::Array(Vec::new())
    }
}

/// Takes every entry of a key out.
fn remove_entries(entries: &mut Vec<(String, Json)>, key: &str)
    ensures
        view_entries(final(entries)@) == view_entries(old(entries)@).remove(key@),
{
    let ghost all = entries@;
    let mut back: Vec<(String, Json)> = Vec::new();
    let mut kept: Vec<(String, Json)> = Vec::new();
    while entries.len() > 0
        invariant
            entries@ + back@.reverse() == all,
        decreases entries@.len(),
    {
        let ghost here = entries@;
        let ghost there = back@;
        let entry = entries.pop().unwrap();
        back.push(entry);
        assert(entries@ + back@.reverse() =~= here + there.reverse());
    }
    assert(view_entries(Seq::empty()).remove(key@) =~= view_entries(Seq::empty()));
    assert(all.take(0) =~= Seq::empty());
    assert(back@.reverse() =~= all);
    while back.len() > 0
        invariant
            back@.len() <= all.len(),
            back@.reverse() == all.skip(all.len() - back@.len()),
            view_entries(kept@) == view_entries(all.take(all.len() - back@.len())).remove(key@),
        decreases back@.len(),
    {
        let ghost n = all.len() - back@.len();
        let ghost there = back@;
        let ghost before = kept@;
        let entry = back.pop().unwrap();
        proof {
            assert(there.reverse()[0] == entry);
            assert(all.skip(n)[0] == all[n]);
            assert(all.take(n + 1).drop_last() =~= all.take(n));
            assert(back@.reverse() =~= there.reverse().skip(1));
            assert(all.skip(n).skip(1) =~= all.skip(n + 1));
        }
        if !text::same_text(entry.0.as_str(), key) {
            kept.push(entry);
            assert(kept@.drop_last() =~= before);
        }
        assert(view_entries(kept@) =~= view_entries(all.take(n + 1)).remove(key@));
    }
    assert(all.take(all.len() as int) =~= all);
    *entries = kept;
}

/// The position of the last entry of a key.
fn find_entry(entries: &Vec<(String, Json)>, key: &str) -> (r: Option<usize>)
    ensures
        r matches Some(i) ==> i < entries@.len() && entries@[i as int].0@ == key@ && forall|j: int|
            i < j < entries@.len() ==> (#[trigger] entries@[j]).0@ != key@,
        r is None ==> forall|j: int| 0 <= j < entries@.len() ==> (#[trigger] entries@[j]).0@ != key@,
{
    let mut i: usize = entries.len();
    while i > 0
        invariant
            i <= entries@.len(),
            forall|j: int| i <= j < entries@.len() ==> (#[trigger] entries@[j]).0@ != key@,
        decreases i,
    {
        i = i - 1;
        if text::same_text(entries[i].0.as_str(), key) {
            return Some(i);
        }
    }
    None
}

// ---------------------------------------------------------------------------
// Views of items and entries
// ---------------------------------------------------------------------------
pub broadcast proof fn lemma_view_items(items: Seq<Json>)
    ensures
        #[trigger] view_items(items).len() == items.len(),
        forall|i: int|
            0 <= i < items.len() ==> #[trigger] view_items(items)[i] == view_json(items[i]),
    decreases items.len(),
{
    if items.len() > 0 {
        lemma_view_items(items.drop_last());
        assert forall|i: int| 0 <= i < items.len() implies #[trigger] view_items(items)[i]
            == view_json(items[i]) by {
            if i < items.len() - 1 {
                assert(items.drop_last()[i] == items[i]);
                assert(view_items(items.drop_last())[i] == view_json(items.drop_last()[i]));
            }
        }
    }
}

/// Every entry's key is in the map, and the last entry of a key gives its value.
pub proof fn lemma_view_entries(entries: Seq<(String, Json)>, i: int)
    requires
        0 <= i < entries.len(),
        forall|j: int| i < j < entries.len() ==> (#[trigger] entries[j]).0@ != entries[i].0@,
    ensures
        view_entries(entries).dom().contains(entries[i].0@),
        view_entries(entries)[entries[i].0@] == view_json(entries[i].1),
    decreases entries.len(),
{
    if i < entries.len() - 1 {
        lemma_view_entries(entries.drop_last(), i);
    }
}

/// A key that no entry has is not in the map.
pub proof fn lemma_view_entries_absent(entries: Seq<(String, Json)>, key: Seq<char>)
    requires
        forall|j: int| 0 <= j < entries.len() ==> (#[trigger] entries[j]).0@ != key,
    ensures
        !view_entries(entries).dom().contains(key),
    decreases entries.len(),
{
    if entries.len() > 0 {
        assert forall|j: int| 0 <= j < entries.drop_last().len() implies (
        #[trigger] entries.drop_last()[j]).0@ != key by {
            assert(entries.drop_last()[j] == entries[j]);
        }
        lemma_view_entries_absent(entries.drop_last(), key);
    }
}

/// Changing the last entry of a key changes what the key has for its value.
pub proof fn lemma_view_entries_update(entries: Seq<(String, Json)>, i: int, entry: (String, Json))
    requires
        0 <= i < entries.len(),
        entry.0@ == entries[i].0@,
        forall|j: int| i < j < entries.len() ==> (#[trigger] entries[j]).0@ != entries[i].0@,
    ensures
        view_entries(entries.update(i, entry)) == view_entries(entries).insert(
            entry.0@,
            view_json(entry.1),
        ),
    decreases entries.len(),
{
    let next = entries.update(i, entry);
    if i < entries.len() - 1 {
        assert(next.drop_last() =~= entries.drop_last().update(i, entry));
        assert forall|j: int| i < j < entries.drop_last().len() implies (
        #[trigger] entries.drop_last()[j]).0@ != entries[i].0@ by {
            assert(entries.drop_last()[j] == entries[j]);
        }
        lemma_view_entries_update(entries.drop_last(), i, entry);
        assert(entries[entries.len() - 1].0@ != entries[i].0@);
        assert(view_entries(next) =~= view_entries(entries).insert(entry.0@, view_json(entry.1)));
    } else {
        assert(next.drop_last() =~= entries.drop_last());
        assert(view_entries(next) =~= view_entries(entries).insert(entry.0@, view_json(entry.1)));
    }
}

pub proof fn lemma_view_entries_finite(entries: Seq<(String, Json)>)
    ensures
        view_entries(entries).dom().finite(),
    decreases entries.len(),
{
    if entries.len() > 0 {
        lemma_view_entries_finite(entries.drop_last());
    }
}

proof fn lemma_entries_of(entries: Seq<(String, serde_json::Value)>, i: int)
    requires
        0 <= i < entries.len(),
        forall|j: int, k: int| 0 <= j < k < entries.len() ==> entries[j].0@ != entries[k].0@,
    ensures
        entries_of(entries).dom().finite(),
        entries_of(entries).dom().contains(entries[i].0@),
        entries_of(entries)[entries[i].0@] == json_of(entries[i].1),
    decreases entries.len(),
{
    lemma_entries_of_finite(entries);
    if i < entries.len() - 1 {
        lemma_entries_of(entries.drop_last(), i);
    }
}

proof fn lemma_entries_of_finite(entries: Seq<(String, serde_json::Value)>)
    ensures
        entries_of(entries).dom().finite(),
    decreases entries.len(),
{
    if entries.len() > 0 {
        lemma_entries_of_finite(entries.drop_last());
    }
}

// ---------------------------------------------------------------------------
// From and to text
// ---------------------------------------------------------------------------
fn from_value(value: serde_json::Value) -> (r: Json)
    ensures
        r@ == json_of(value),
    decreases json_of(value),
{
    let ghost whole = json_of(value);
    match open_value(value) {
        Node::Null => Json::Null,
        Node::Bool(b) => Json::Bool(b),
        Node::Number(n) => Json::Number(n),
        Node::Text(s) => Json::Text(s),
        Node::Array(items) => {
            let mut items = items;
            let ghost all = items@;
            let mut back: Vec<Json> = Vec::new();
            while items.len() > 0
                invariant
                    whole == json_of(value),
                    whole == JsonView::Array(all.map_values(|v: serde_json::Value| json_of(v))),
                    items@.len() + back@.len() == all.len(),
                    items@ == all.take(items@.len() as int),
                    forall|i: int|
                        0 <= i < back@.len() ==> #[trigger] view_json(back@[i]) == json_of(
                            all[all.len() - 1 - i],
                        ),
                decreases items@.len(),
            {
                let ghost last = items@.len() - 1;
                let item = items.pop().unwrap();
                proof {
                    assert(item == all[last]);
                    assert(whole->Array_0[last] == json_of(item));
                    assert(decreases_to!(whole => whole->Array_0));
                    assert(decreases_to!(whole->Array_0 => whole->Array_0[last]));
                    assert(items@ =~= all.take(items@.len() as int));
                }
                back.push(from_value(item));
            }
            let mut out: Vec<Json> = Vec::new();
            let ghost rev = back@;
            while back.len() > 0
                invariant
                    back@.len() + out@.len() == rev.len() == all.len(),
                    back@ == rev.take(back@.len() as int),
                    forall|i: int|
                        0 <= i < rev.len() ==> #[trigger] view_json(rev[i]) == json_of(
                            all[all.len() - 1 - i],
                        ),
                    forall|i: int|
                        0 <= i < out@.len() ==> #[trigger] view_json(out@[i]) == json_of(all[i]),
                decreases back@.len(),
            {
                let ghost last = back@.len() - 1;
                let item = back.pop().unwrap();
                assert(item == rev[last]);
                assert(view_json(rev[last]) == json_of(all[all.len() - 1 - last]));
                assert(back@ =~= rev.take(back@.len() as int));
                out.push(item);
            }
            proof {
                lemma_view_items(out@);
                assert(view_items(out@) =~= all.map_values(|v: serde_json::Value| json_of(v)));
            }
            Json::Array(out)
        },
        Node::Object(entries) => {
            let mut entries = entries;
            let ghost all = entries@;
            let mut back: Vec<(String, Json)> = Vec::new();
            while entries.len() > 0
                invariant
                    whole == json_of(value),
                    whole == JsonView::Object(entries_of(all)),
                    forall|i: int, j: int| 0 <= i < j < all.len() ==> all[i].0@ != all[j].0@,
                    entries@.len() + back@.len() == all.len(),
                    entries@ == all.take(entries@.len() as int),
                    forall|i: int|
                        #![trigger back@[i]]
                        0 <= i < back@.len() ==> back@[i].0 == all[all.len() - 1 - i].0
                            && view_json(back@[i].1) == json_of(all[all.len() - 1 - i].1),
                decreases entries@.len(),
            {
                let ghost last = entries@.len() - 1;
                let (key, item) = entries.pop().unwrap();
                proof {
                    assert((key, item) == all[last]);
                    lemma_entries_of(all, last);
                    let m = whole->Object_0;
                    vstd::map::axiom_map_index_decreases_finite(m, key@);
                    assert(decreases_to!(whole => whole->Object_0));
                    assert(entries@ =~= all.take(entries@.len() as int));
                }
                back.push((key, from_value(item)));
            }
            let mut out: Vec<(String, Json)> = Vec::new();
            let ghost rev = back@;
            assert(all.take(0) =~= Seq::empty());
            while back.len() > 0
                invariant
                    back@.len() + out@.len() == rev.len() == all.len(),
                    back@ == rev.take(back@.len() as int),
                    forall|i: int|
                        #![trigger rev[i]]
                        0 <= i < rev.len() ==> rev[i].0 == all[all.len() - 1 - i].0
                            && view_json(rev[i].1) == json_of(all[all.len() - 1 - i].1),
                    view_entries(out@) == entries_of(all.take(out@.len() as int)),
                decreases back@.len(),
            {
                let ghost last = back@.len() - 1;
                let ghost before = out@;
                let item = back.pop().unwrap();
                assert(item == rev[last]);
                assert(back@ =~= rev.take(back@.len() as int));
                out.push(item);
                proof {
                    assert(out@.drop_last() =~= before);
                    let n = out@.len() as int;
                    assert(all.take(n).drop_last() =~= all.take(n - 1));
                    assert(all.take(n).last() == all[n - 1]);
                }
            }
            assert(all.take(out@.len() as int) =~= all);
            Json::Object(out)
        },
    }
}

fn to_value(json: &Json) -> (r: serde_json::Value)
    ensures
        json_of(r) == json@,
    decreases json,
{
    match json {
        Json::Null => close_value(Node::Null),
        Json::Bool(b) => close_value(Node::Bool(*b)),
        Json::Number(n) => close_value(Node::Number(n.clone())),
        Json::Text(s) => close_value(Node::Text(s.clone())),
        Json::Array(items) => {
            let mut out: Vec<serde_json::Value> = Vec::new();
            let mut i: usize = 0;
            while i < items.len()
                invariant
                    *json == Json::Array(*items),
                    i <= items@.len(),
                    out@.len() == i,
                    forall|k: int|
                        0 <= k < i ==> #[trigger] json_of(out@[k]) == view_json(items@[k]),
                decreases items@.len() - i,
            {
                assert(decreases_to!(json => json->Array_0));
                assert(decreases_to!(items => items@));
                assert(decreases_to!(items@ => items@[i as int]));
                out.push(to_value(&items[i]));
                i = i + 1;
            }
            proof {
                lemma_view_items(items@);
                assert(out@.map_values(|v: serde_json::Value| json_of(v)) =~= view_items(items@));
            }
            close_value(Node::Array(out))
        },
        Json::Object(entries) => {
            let mut out: Vec<(String, serde_json::Value)> = Vec::new();
            let mut i: usize = 0;
            assert(entries@.take(0) =~= Seq::empty());
            while i < entries.len()
                invariant
                    *json == Json::Object(*entries),
                    i <= entries@.len(),
                    out@.len() == i,
                    entries_of(out@) == view_entries(entries@.take(i as int)),
                decreases entries@.len() - i,
            {
                let ghost before = out@;
                assert(decreases_to!(json => json->Object_0));
                assert(decreases_to!(entries => entries@));
                assert(decreases_to!(entries@ => entries@[i as int]));
                assert(decreases_to!(entries@[i as int] => entries@[i as int].1));
                out.push((entries[i].0.clone(), to_value(&entries[i].1)));
                proof {
                    assert(out@.drop_last() =~= before);
                    assert(entries@.take(i + 1).drop_last() =~= entries@.take(i as int));
                }
                i = i + 1;
            }
            assert(entries@.take(i as int) =~= entries@);
            close_value(Node::Object(out))
        },
    }
}

impl Json {
    /// Reads a JSON text.
    pub fn parse(bytes: &[u8]) -> (r: Option<Json>)
        ensures
            r matches Some(j) ==> json_parsed(bytes@) == Some(j@),
            r is None ==> json_parsed(bytes@) is None,
    {
        match parse_value(bytes) {
            Some(v) => Some(from_value(v)),
            None => None,
        }
    }

    /// The compact JSON text of the value.
    pub fn render(&self) -> (r: String)
        ensures
            r@ == json_text(self@),
            one_line(r@),
            plain(self@, 127) ==> json_parsed(encode_utf8(r@)) == Some(self@),
    {
        let v = to_value(self);
        print_value(&v)
    }
}

impl Json {
    /// Whether this value is nested at most `depth` levels deep, its numbers
    /// are all whole numbers, and its objects do not start with the reserved
    /// key.
    pub fn is_plain(&self, depth: usize) -> (r: bool)
        ensures
            r == plain(self@, depth as nat),
        decreases self,
    {
        broadcast use lemma_view_items;

        match self {
            Json::Number(n) => !n.is_f64(),
            Json::Array(items) => {
                if depth == 0 {
                    return false;
                }
                let mut i: usize = 0;
                while i < items.len()
                    invariant
                        *self == Json::Array(*items),
                        depth > 0,
                        i <= items@.len(),
                        forall|k: int|
                            0 <= k < i ==> plain(
                                view_json(#[trigger] items@[k]),
                                (depth - 1) as nat,
                            ),
                    decreases items@.len() - i,
                {
                    proof {
                        assert(decreases_to!(self => self->Array_0));
                        assert(decreases_to!(items => items@));
                        assert(decreases_to!(items@ => items@[i as int]));
                    }
                    if !items[i].is_plain(depth - 1) {
                        proof {
                            lemma_view_items(items@);
                            if plain(self@, depth as nat) {
                                lemma_plain_item(view_items(items@), depth as nat, i as int);
                            }
                        }
                        return false;
                    }
                    i += 1;
                }
                assert forall|k: int| 0 <= k < view_items(items@).len() implies plain(
                    #[trigger] view_items(items@)[k],
                    (depth - 1) as nat,
                ) by {
                    assert(view_items(items@)[k] == view_json(items@[k]));
                }
                true
            },
            Json::Object(entries) => {
                if depth == 0 {
                    return false;
                }
                if begins_reserved(entries) {
                    return false;
                }
                let mut i: usize = 0;
                while i < entries.len()
                    invariant
                        *self == Json::Object(*entries),
                        depth > 0,
                        i <= entries@.len(),
                        !starts_reserved(view_entries(entries@)),
                        forall|k: int|
                            0 <= k < i && last_entry(entries@, k) ==> plain(
                                view_json((#[trigger] entries@[k]).1),
                                (depth - 1) as nat,
                            ),
                    decreases entries@.len() - i,
                {
                    proof {
                        assert(decreases_to!(self => self->Object_0));
                        assert(decreases_to!(entries => entries@));
                        assert(decreases_to!(entries@ => entries@[i as int]));
                        assert(decreases_to!(entries@[i as int] => entries@[i as int].1));
                    }
                    match find_entry(entries, entries[i].0.as_str()) {
                        Some(j) => {
                            if i == j {
                                if !entries[i].1.is_plain(depth - 1) {
                                    proof {
                                        lemma_view_entries(entries@, i as int);
                                    }
                                    assert(!plain(
                                        self@->Object_0[entries@[i as int].0@],
                                        (depth - 1) as nat,
                                    ));
                                    return false;
                                }
                            } else {
                                assert(entries@[j as int].0@ == entries@[i as int].0@);
                            }
                        },
                        None => {},
                    }
                    i += 1;
                }
                proof {
                    lemma_view_entries_finite(entries@);
                    let fields = view_entries(entries@);
                    assert forall|key: Seq<char>| fields.dom().contains(key) implies plain(
                        #[trigger] fields[key],
                        (depth - 1) as nat,
                    ) by {
                        let k = lemma_view_entries_source(entries@, key);
                    }
                }
                true
            },
            _ => true,
        }
    }
}

/// Whether the first key of an object is the reserved one.
fn begins_reserved(entries: &Vec<(String, Json)>) -> (r: bool)
    ensures
        r == starts_reserved(view_entries(entries@)),
{
    match find_entry(entries, "$serde_json::private::RawValue") {
        Some(at) => {
            proof {
                lemma_view_entries(entries@, at as int);
            }
        },
        None => {
            proof {
                lemma_view_entries_absent(entries@, reserved_key());
            }
            return false;
        },
    }
    let reserved = text::chars_of("$serde_json::private::RawValue");
    let mut i: usize = 0;
    while i < entries.len()
        invariant
            i <= entries@.len(),
            reserved@ == reserved_key(),
            forall|k: int|
                0 <= k < i ==> !text::precedes((#[trigger] entries@[k]).0@, reserved_key()),
        decreases entries@.len() - i,
    {
        let key = text::chars_of(entries[i].0.as_str());
        if text::stands_before(key.as_slice(), reserved.as_slice()) {
            proof {
                lemma_entry_is_field(entries@, i as int);
            }
            return false;
        }
        i += 1;
    }
    proof {
        let fields = view_entries(entries@);
        assert forall|key: Seq<char>| fields.dom().contains(key) implies !#[trigger] text::precedes(
            key,
            reserved_key(),
        ) by {
            let k = lemma_view_entries_source(entries@, key);
        }
    }
    true
}

/// The key of every entry is a key of the object.
proof fn lemma_entry_is_field(entries: Seq<(String, Json)>, i: int)
    requires
        0 <= i < entries.len(),
    ensures
        view_entries(entries).dom().contains(entries[i].0@),
    decreases entries.len(),
{
    if i < entries.len() - 1 {
        assert(entries.drop_last()[i] == entries[i]);
        lemma_entry_is_field(entries.drop_last(), i);
    }
}

/// No later entry has the key of the one at `k`.
spec fn last_entry(entries: Seq<(String, Json)>, k: int) -> bool {
    forall|j: int| k < j < entries.len() ==> (#[trigger] entries[j]).0@ != entries[k].0@
}

/// A key of an object stands in some entry, and the last such entry counts.
proof fn lemma_view_entries_source(entries: Seq<(String, Json)>, key: Seq<char>) -> (k: int)
    requires
        view_entries(entries).dom().contains(key),
    ensures
        0 <= k < entries.len(),
        last_entry(entries, k),
        entries[k].0@ == key,
        view_entries(entries)[key] == view_json(entries[k].1),
    decreases entries.len(),
{
    if entries.last().0@ == key {
        entries.len() - 1
    } else {
        let k = lemma_view_entries_source(entries.drop_last(), key);
        assert forall|j: int| k < j < entries.len() implies (#[trigger] entries[j]).0@
            != entries[k].0@ by {
            if j < entries.len() - 1 {
                assert(entries.drop_last()[j] == entries[j]);
            }
        }
        k
    }
}

// ---------------------------------------------------------------------------
// Laws
// ---------------------------------------------------------------------------
/// A field that is set is read back, and the other fields stay. A field that is
/// removed is gone. Null takes fields as an empty object does; no other value
/// that is no object has any.
pub proof fn fields_are_set_one_by_one(j: JsonView, key: Seq<char>, other: Seq<char>, v: JsonView)
    requires
        other != key,
    ensures
        j is Object || j is Null ==> j.with(key, v).get(key) == Some(v) && j.with(key, v).get(other)
            == j.get(other),
        j.without(key).get(key) is None,
        j.without(key).get(other) == j.get(other),
        !(j is Object) ==> j.get(key) is None,
        !(j is Object) && !(j is Null) ==> j.with(key, v) == j,
        j.text_of(key) == match j.get(key) {
            Some(JsonView::Text(s)) => Some(s),
            _ => None,
        },
        j.items_of(key) == match j.get(key) {
            Some(JsonView::Array(items)) => Some(items),
            _ => None,
        },
{
}

} // verus!
