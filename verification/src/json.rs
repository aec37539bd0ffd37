//! JSON values: the type that models hold, and its text form.

use vstd::prelude::*;

use crate::error::JSONError;
use crate::text::same_text;

verus! {

#[verifier::external_type_specification]
#[verifier::external_body]
pub struct ExNumber(serde_json::Number);

#[verifier::external_type_specification]
#[verifier::external_body]
pub struct ExJsonValue(serde_json::Value);

/// The mathematical content of a JSON value. A number is what `serde_json` holds
/// for it.
pub enum JsonView {
    Null,
    Bool(bool),
    Number(serde_json::Number),
    Text(Seq<char>),
    List(Seq<JsonView>),
    Object(Map<Seq<char>, JsonView>),
}

/// A JSON value.
#[derive(Debug)]
pub enum Json {
    Null,
    Bool(bool),
    Number(serde_json::Number),
    Text(String),
    List(Vec<Json>),
    Object(Object),
}

/// A JSON object: values by name. No name stands in it twice.
#[derive(Debug)]
pub struct Object {
    entries: Vec<(String, Json)>,
}

/// The content of a value.
pub open spec fn value_model(v: Json) -> JsonView
    decreases v,
{
    match v {
        Json::Null => JsonView::Null,
        Json::Bool(b) => JsonView::Bool(b),
        Json::Number(n) => JsonView::Number(n),
        Json::Text(s) => JsonView::Text(s@),
        Json::List(items) => JsonView::List(list_model(items@)),
        Json::Object(o) => JsonView::Object(object_model(o)),
    }
}

/// The contents of the values of a list.
pub open spec fn list_model(items: Seq<Json>) -> Seq<JsonView>
    decreases items,
{
    Seq::new(
        items.len(),
        |i: int|
            if 0 <= i < items.len() {
                value_model(items[i])
            } else {
                JsonView::Null
            },
    )
}

/// The contents of an object's values, by name.
pub closed spec fn object_model(o: Object) -> Map<Seq<char>, JsonView>
    decreases o,
{
    entries_model(o.entries@)
}

spec fn entries_model(entries: Seq<(String, Json)>) -> Map<Seq<char>, JsonView>
    decreases entries,
{
    if entries.len() == 0 {
        Map::empty()
    } else {
        entries_model(entries.drop_last()).insert(
            entries.last().0@,
            value_model(entries.last().1),
        )
    }
}

/// No two entries have one name.
spec fn names_differ(entries: Seq<(String, Json)>) -> bool {
    forall|i: int, j: int|
        0 <= i < j < entries.len() ==> #[trigger] entries[i].0@ != #[trigger] entries[j].0@
}

/// An entry stands in the map under its name.
proof fn entries_have(entries: Seq<(String, Json)>, i: int)
    requires
        names_differ(entries),
        0 <= i < entries.len(),
    ensures
        entries_model(entries).dom().contains(entries[i].0@),
        entries_model(entries)[entries[i].0@] == value_model(entries[i].1),
    decreases entries.len(),
{
    if i < entries.len() - 1 {
        assert(names_differ(entries.drop_last()));
        entries_have(entries.drop_last(), i);
        assert(entries[i].0@ != entries[entries.len() - 1].0@);
    }
}

/// A name that no entry has does not stand in the map.
proof fn entries_lack(entries: Seq<(String, Json)>, name: Seq<char>)
    requires
        forall|i: int| 0 <= i < entries.len() ==> (#[trigger] entries[i]).0@ != name,
    ensures
        !entries_model(entries).dom().contains(name),
    decreases entries.len(),
{
    if entries.len() > 0 {
        assert(entries[entries.len() - 1].0@ != name);
        assert forall|i: int| 0 <= i < entries.len() - 1 implies (
        #[trigger] entries.drop_last()[i]).0@ != name by {
            assert(entries[i].0@ != name);
        }
        entries_lack(entries.drop_last(), name);
    }
}

/// Another value in an entry is another value under its name.
proof fn entries_updated(entries: Seq<(String, Json)>, i: int, entry: (String, Json))
    requires
        names_differ(entries),
        0 <= i < entries.len(),
        entry.0@ == entries[i].0@,
    ensures
        names_differ(entries.update(i, entry)),
        entries_model(entries.update(i, entry)) == entries_model(entries).insert(
            entry.0@,
            value_model(entry.1),
        ),
    decreases entries.len(),
{
    let after = entries.update(i, entry);
    let rest = entries.drop_last();
    assert(names_differ(rest));
    assert forall|j: int, k: int| 0 <= j < k < after.len() implies #[trigger] after[j].0@
        != #[trigger] after[k].0@ by {
        assert(entries[j].0@ != entries[k].0@);
    }
    if i < rest.len() {
        entries_updated(rest, i, entry);
        assert(after.drop_last() =~= rest.update(i, entry));
        assert(entries[i].0@ != entries[entries.len() - 1].0@);
    } else {
        assert(after.drop_last() =~= rest);
    }
    assert(entries_model(after) =~= entries_model(entries).insert(entry.0@, value_model(entry.1)));
}

/// Without an entry, nothing stands under its name.
proof fn entries_removed(entries: Seq<(String, Json)>, i: int)
    requires
        names_differ(entries),
        0 <= i < entries.len(),
    ensures
        names_differ(entries.remove(i)),
        entries_model(entries.remove(i)) == entries_model(entries).remove(entries[i].0@),
    decreases entries.len(),
{
    let after = entries.remove(i);
    let rest = entries.drop_last();
    let last = entries.len() - 1;
    assert(names_differ(rest));
    assert forall|j: int, k: int| 0 <= j < k < after.len() implies #[trigger] after[j].0@
        != #[trigger] after[k].0@ by {
        let from_j = if j < i {
            j
        } else {
            j + 1
        };
        let from_k = if k < i {
            k
        } else {
            k + 1
        };
        assert(entries[from_j].0@ != entries[from_k].0@);
    }
    if i < last {
        entries_removed(rest, i);
        assert(after.drop_last() =~= rest.remove(i));
        assert(after.last() == entries.last());
        assert(entries[i].0@ != entries[last].0@);
    } else {
        assert(after =~= rest);
        assert forall|j: int| 0 <= j < rest.len() implies (#[trigger] rest[j]).0@
            != entries[i].0@ by {
            assert(entries[j].0@ != entries[last].0@);
        }
        entries_lack(rest, entries[i].0@);
    }
    assert(entries_model(after) =~= entries_model(entries).remove(entries[i].0@));
}

impl View for Json {
    type V = JsonView;

    open spec fn view(&self) -> JsonView {
        value_model(*self)
    }
}

impl View for Object {
    type V = Map<Seq<char>, JsonView>;

    open spec fn view(&self) -> Map<Seq<char>, JsonView> {
        object_model(*self)
    }
}

/// Lists and objects are nested at most `n` deep in the value.
pub open spec fn nested_at_most(j: JsonView, n: nat) -> bool
    decreases j,
{
    match j {
        JsonView::List(items) => n > 0 && forall|i: int|
            0 <= i < items.len() ==> nested_at_most(#[trigger] items[i], (n - 1) as nat),
        JsonView::Object(entries) => n > 0 && forall|k: Seq<char>|
            entries.dom().contains(k) ==> nested_at_most(#[trigger] entries[k], (n - 1) as nat),
        _ => true,
    }
}

/// The deepest nesting that the parser accepts.
pub const MAX_NESTING: usize = 127;

impl Object {
    #[verifier::type_invariant]
    spec fn inv(&self) -> bool {
        names_differ(self.entries@)
    }

    pub fn new() -> (r: Object)
        ensures
            r@ == Map::<Seq<char>, JsonView>::empty(),
    {
        Object { entries: Vec::new() }
    }

    /// The place of the entry of the name, if there is one.
    fn find(&self, name: &str) -> (r: Option<usize>)
        ensures
            match r {
                Some(i) => i < self.entries@.len() && self.entries@[i as int].0@ == name@,
                None => forall|k: int|
                    0 <= k < self.entries@.len() ==> (#[trigger] self.entries@[k]).0@ != name@,
            },
    {
        let mut i: usize = 0;
        while i < self.entries.len()
            invariant
                i <= self.entries@.len(),
                forall|k: int| 0 <= k < i ==> (#[trigger] self.entries@[k]).0@ != name@,
            decreases self.entries@.len() - i,
        {
            if same_text(self.entries[i].0.as_str(), name) {
                return Some(i);
            }
            i += 1;
        }
        None
    }

    /// The value under the name, if there is one.
    pub fn get(&self, name: &str) -> (r: Option<&Json>)
        ensures
            match r {
                Some(v) => self@.dom().contains(name@) && self@[name@] == v@,
                None => !self@.dom().contains(name@),
            },
    {
        proof {
            use_type_invariant(self);
        }
        match self.find(name) {
            Some(i) => {
                proof {
                    entries_have(self.entries@, i as int);
                }
                Some(&self.entries[i].1)
            },
            None => {
                proof {
                    entries_lack(self.entries@, name@);
                }
                None
            },
        }
    }

    /// Puts the value under the name, in place of what stood there.
    pub fn insert(&mut self, name: String, value: Json)
        ensures
            final(self)@ == old(self)@.insert(name@, value@),
    {
        proof {
            use_type_invariant(&*self);
        }
        let found = self.find(name.as_str());
        let mut entries: Vec<(String, Json)> = Vec::new();
        std::mem::swap(&mut entries, &mut self.entries);
        let ghost before = entries@;
        match found {
            Some(i) => {
                proof {
                    entries_updated(before, i as int, (name, value));
                }
                entries.set(i, (name, value));
            },
            None => {
                entries.push((name, value));
                assert(entries@.drop_last() =~= before);
            },
        }
        self.entries = entries;
    }

    /// Takes the value under the name out.
    pub fn remove(&mut self, name: &str) -> (r: Option<Json>)
        ensures
            final(self)@ == old(self)@.remove(name@),
            match r {
                Some(v) => old(self)@.dom().contains(name@) && old(self)@[name@] == v@,
                None => !old(self)@.dom().contains(name@),
            },
    {
        proof {
            use_type_invariant(&*self);
        }
        match self.find(name) {
            Some(i) => {
                let mut entries: Vec<(String, Json)> = Vec::new();
                std::mem::swap(&mut entries, &mut self.entries);
                proof {
                    entries_have(entries@, i as int);
                    entries_removed(entries@, i as int);
                }
                let entry = entries.remove(i);
                self.entries = entries;
                Some(entry.1)
            },
            None => {
                proof {
                    entries_lack(self.entries@, name@);
                }
                assert(self@.remove(name@) =~= self@);
                None
            },
        }
    }
}

/// A number of `serde_json` as it is held by a clone of it: the same number.
pub assume_specification[ <serde_json::Number as Clone>::clone ](n: &serde_json::Number) -> (r:
    serde_json::Number)
    ensures
        r == *n,
;

/// The integer that a number of `serde_json` is, if it is one that fits.
pub uninterp spec fn number_i64(n: serde_json::Number) -> Option<i64>;

/// `serde_json::Number::as_i64` gives the integer that the number is, if it is one and
/// within the range of `i64`.
pub assume_specification[ serde_json::Number::as_i64 ](n: &serde_json::Number) -> (r: Option<i64>)
    ensures
        r == number_i64(*n),
;

impl Clone for Json {
    /// A copy of the value.
    fn clone(&self) -> (r: Json)
        ensures
            r@ == self@,
        decreases self,
    {
        match self {
            Json::Null => Json::Null,
            Json::Bool(b) => Json::Bool(*b),
            Json::Number(n) => Json::Number(n.clone()),
            Json::Text(s) => Json::Text(s.clone()),
            Json::List(items) => {
                let mut copies: Vec<Json> = Vec::new();
                let mut i: usize = 0;
                while i < items.len()
                    invariant
                        i <= items@.len(),
                        copies@.len() == i,
                        *self == Json::List(*items),
                        forall|k: int|
                            0 <= k < i ==> value_model(#[trigger] copies@[k]) == value_model(
                                items@[k],
                            ),
                    decreases items@.len() - i,
                {
                    assert(decreases_to!(*self => self->List_0));
                    assert(decreases_to!(self->List_0 => items@[i as int]));
                    copies.push(items[i].clone());
                    i += 1;
                }
                assert(list_model(copies@) =~= list_model(items@));
                Json::List(copies)
            },
            Json::Object(o) => Json::Object(o.clone()),
        }
    }
}

impl Clone for Object {
    /// A copy of the object.
    fn clone(&self) -> (r: Object)
        ensures
            r@ == self@,
        decreases self,
    {
        proof {
            use_type_invariant(self);
        }
        let mut copies: Vec<(String, Json)> = Vec::new();
        let mut i: usize = 0;
        assert(self.entries@.take(0) =~= Seq::empty());
        while i < self.entries.len()
            invariant
                i <= self.entries@.len(),
                copies@.len() == i,
                forall|k: int|
                    0 <= k < i ==> (#[trigger] copies@[k]).0@ == self.entries@[k].0@,
                entries_model(copies@) == entries_model(self.entries@.take(i as int)),
            decreases self.entries@.len() - i,
        {
            let ghost before = copies@;
            copies.push((self.entries[i].0.clone(), self.entries[i].1.clone()));
            i += 1;
            assert(copies@.drop_last() =~= before);
            assert(self.entries@.take(i as int).drop_last() =~= self.entries@.take(i - 1));
        }
        assert(self.entries@.take(i as int) =~= self.entries@);
        assert(names_differ(copies@)) by {
            assert forall|j: int, k: int|
                0 <= j < k < copies@.len() implies #[trigger] copies@[j].0@
                != #[trigger] copies@[k].0@ by {
                assert(self.entries@[j].0@ != self.entries@[k].0@);
            }
        }
        Object { entries: copies }
    }
}

/// The content of a `serde_json::Value`.
pub uninterp spec fn json_content(v: serde_json::Value) -> JsonView;

/// The contents of a list of `serde_json::Value`s.
pub open spec fn json_contents(items: Seq<serde_json::Value>) -> Seq<JsonView> {
    Seq::new(items.len(), |i: int| json_content(items[i]))
}

/// The contents of named `serde_json::Value`s, by name; the last of one name
/// counts.
pub open spec fn json_entries(entries: Seq<(String, serde_json::Value)>) -> Map<Seq<char>, JsonView>
    decreases entries.len(),
{
    if entries.len() == 0 {
        Map::empty()
    } else {
        json_entries(entries.drop_last()).insert(
            entries.last().0@,
            json_content(entries.last().1),
        )
    }
}

/// No two entries have one name.
pub open spec fn distinct_names(entries: Seq<(String, serde_json::Value)>) -> bool {
    forall|i: int, j: int|
        0 <= i < j < entries.len() ==> #[trigger] entries[i].0@ != #[trigger] entries[j].0@
}

/// An entry whose name no other entry has stands in the map.
proof fn json_entries_have(entries: Seq<(String, serde_json::Value)>, i: int)
    requires
        distinct_names(entries),
        0 <= i < entries.len(),
    ensures
        json_entries(entries).dom().contains(entries[i].0@),
        json_entries(entries)[entries[i].0@] == json_content(entries[i].1),
    decreases entries.len(),
{
    if i < entries.len() - 1 {
        json_entries_have(entries.drop_last(), i);
        assert(entries[i].0@ != entries[entries.len() - 1].0@);
    }
}

/// A list of entries makes a finite map.
proof fn json_entries_finite(entries: Seq<(String, serde_json::Value)>)
    ensures
        json_entries(entries).dom().finite(),
    decreases entries.len(),
{
    if entries.len() > 0 {
        json_entries_finite(entries.drop_last());
    }
}

/// A `serde_json::Value`, one step open.
pub enum JsonNode {
    Null,
    Bool(bool),
    Number(serde_json::Number),
    Text(String),
    List(Vec<serde_json::Value>),
    Object(Vec<(String, serde_json::Value)>),
}

/// The content of an opened value.
pub open spec fn node_content(node: JsonNode) -> JsonView {
    match node {
        JsonNode::Null => JsonView::Null,
        JsonNode::Bool(b) => JsonView::Bool(b),
        JsonNode::Number(n) => JsonView::Number(n),
        JsonNode::Text(s) => JsonView::Text(s@),
        JsonNode::List(items) => JsonView::List(json_contents(items@)),
        JsonNode::Object(entries) => JsonView::Object(json_entries(entries@)),
    }
}

/// Takes a `serde_json::Value` apart by its variants; an object's entries come out
/// through the map's `into_iter`, each name once. Nothing is lost on the way.
#[verifier::external_body]
fn json_open(v: serde_json::Value) -> (r: JsonNode)
    ensures
        node_content(r) == json_content(v),
        r matches JsonNode::Object(entries) ==> distinct_names(entries@),
{
    match v {
        serde_json::Value::Null => JsonNode::Null,
        serde_json::Value::Bool(b) => JsonNode::Bool(b),
        serde_json::Value::Number(n) => JsonNode::Number(n),
        serde_json::Value::String(s) => JsonNode::Text(s),
        serde_json::Value::Array(items) => JsonNode::List(items),
        serde_json::Value::Object(entries) => JsonNode::Object(entries.into_iter().collect()),
    }
}

/// Makes a `serde_json::Value` by the constructor of its variant. The entries of an
/// object are collected into its map; their names differ.
#[verifier::external_body]
fn json_close(node: JsonNode) -> (r: serde_json::Value)
    requires
        node matches JsonNode::Object(entries) ==> distinct_names(entries@),
    ensures
        json_content(r) == node_content(node),
{
    match node {
        JsonNode::Null => serde_json::Value::Null,
        JsonNode::Bool(b) => serde_json::Value::Bool(b),
        JsonNode::Number(n) => serde_json::Value::Number(n),
        JsonNode::Text(s) => serde_json::Value::String(s),
        JsonNode::List(items) => serde_json::Value::Array(items),
        JsonNode::Object(entries) => serde_json::Value::Object(entries.into_iter().collect()),
    }
}

/// Calls `serde_json::Map::insert` on the map of an object: the value stands under
/// the name, in place of what stood there.
#[verifier::external_body]
fn json_insert(object: &mut serde_json::Value, name: String, value: serde_json::Value)
    requires
        json_content(*old(object)) is Object,
    ensures
        json_content(*final(object)) == JsonView::Object(
            json_content(*old(object))->Object_0.insert(name@, json_content(value)),
        ),
{
    object.as_object_mut().unwrap().insert(name, value);
}

/// What `serde_json` writes for a value.
pub uninterp spec fn json_written(j: JsonView) -> Seq<char>;

/// What `serde_json` reads from a text, if the text is JSON.
pub uninterp spec fn json_read(text: Seq<char>) -> Option<JsonView>;

/// Calls `serde_json::to_string`. Writing a value to memory does not fail, and what
/// is written reads back as the value, unless it is nested deeper than the reader's
/// recursion limit.
#[verifier::external_body]
fn json_to_string(v: &serde_json::Value) -> (r: Result<String, serde_json::Error>)
    ensures
        r is Ok,
        r->Ok_0@ == json_written(json_content(*v)),
        nested_at_most(json_content(*v), MAX_NESTING as nat) ==> json_read(r->Ok_0@) == Some(
            json_content(*v),
        ),
{
    serde_json::to_string(v)
}

/// Calls `serde_json::from_str` for a `serde_json::Value`. Its result is a function of
/// the text alone.
#[verifier::external_body]
fn json_from_str(text: &str) -> (r: Result<serde_json::Value, serde_json::Error>)
    ensures
        r is Ok <==> json_read(text@) is Some,
        r matches Ok(v) ==> json_read(text@) == Some(json_content(v)),
{
    serde_json::from_str(text)
}

/// The `serde_json::Value` of the same content.
fn to_serde(v: &Json) -> (r: serde_json::Value)
    ensures
        json_content(r) == v@,
    decreases v,
{
    match v {
        Json::Null => json_close(JsonNode::Null),
        Json::Bool(b) => json_close(JsonNode::Bool(*b)),
        Json::Number(n) => json_close(JsonNode::Number(n.clone())),
        Json::Text(s) => json_close(JsonNode::Text(s.clone())),
        Json::List(items) => {
            let mut out: Vec<serde_json::Value> = Vec::new();
            let mut i: usize = 0;
            while i < items.len()
                invariant
                    i <= items@.len(),
                    out@.len() == i,
                    *v == Json::List(*items),
                    forall|k: int|
                        0 <= k < i ==> json_content(#[trigger] out@[k]) == value_model(items@[k]),
                decreases items@.len() - i,
            {
                assert(decreases_to!(*v => v->List_0));
                assert(decreases_to!(v->List_0 => items@[i as int]));
                out.push(to_serde(&items[i]));
                i += 1;
            }
            assert(json_contents(out@) =~= list_model(items@));
            json_close(JsonNode::List(out))
        },
        Json::Object(o) => {
            let none: Vec<(String, serde_json::Value)> = Vec::new();
            let mut out = json_close(JsonNode::Object(none));
            let mut i: usize = 0;
            assert(o.entries@.take(0) =~= Seq::empty());
            while i < o.entries.len()
                invariant
                    i <= o.entries@.len(),
                    *v == Json::Object(*o),
                    json_content(out) == JsonView::Object(entries_model(o.entries@.take(i as int))),
                decreases o.entries@.len() - i,
            {
                assert(decreases_to!(*v => v->Object_0));
                assert(decreases_to!(v->Object_0 => v->Object_0.entries));
                assert(decreases_to!(v->Object_0.entries => o.entries@[i as int]));
                let item = to_serde(&o.entries[i].1);
                json_insert(&mut out, o.entries[i].0.clone(), item);
                i += 1;
                assert(o.entries@.take(i as int).drop_last() =~= o.entries@.take(i - 1));
            }
            assert(o.entries@.take(i as int) =~= o.entries@);
            out
        },
    }
}

/// The value of the same content.
fn from_serde(v: serde_json::Value) -> (r: Json)
    ensures
        r@ == json_content(v),
    decreases json_content(v),
{
    match json_open(v) {
        JsonNode::Null => Json::Null,
        JsonNode::Bool(b) => Json::Bool(b),
        JsonNode::Number(n) => Json::Number(n),
        JsonNode::Text(s) => Json::Text(s),
        JsonNode::List(items) => {
            let ghost all = items@;
            let mut out: Vec<Json> = Vec::new();
            for item in it: items
                invariant
                    it.seq() == all,
                    out@.len() == it.index(),
                    json_content(v) == JsonView::List(json_contents(all)),
                    forall|k: int|
                        0 <= k < out@.len() ==> value_model(#[trigger] out@[k]) == json_content(
                            all[k],
                        ),
            {
                assert(json_contents(all)[it.index() as int] == json_content(item));
                assert(decreases_to!(json_content(v) => json_content(v)->List_0));
                assert(decreases_to!(json_content(v)->List_0 => json_contents(all)[it.index()
                    as int]));
                out.push(from_serde(item));
            }
            assert(list_model(out@) =~= json_contents(all));
            Json::List(out)
        },
        JsonNode::Object(entries) => {
            let ghost all = entries@;
            let mut out: Vec<(String, Json)> = Vec::new();
            assert(all.take(0) =~= Seq::empty());
            for entry in it: entries
                invariant
                    it.seq() == all,
                    out@.len() == it.index(),
                    distinct_names(all),
                    json_content(v) == JsonView::Object(json_entries(all)),
                    entries_model(out@) == json_entries(all.take(it.index() as int)),
                    forall|k: int|
                        0 <= k < out@.len() ==> (#[trigger] out@[k]).0@ == all[k].0@,
            {
                let ghost at = it.index() as int;
                let ghost before = out@;
                proof {
                    json_entries_have(all, at);
                    json_entries_finite(all);
                    assert(decreases_to!(json_content(v) => json_content(v)->Object_0));
                    assert(decreases_to!(json_content(v)->Object_0 => json_entries(all)[entry.0@]));
                }
                let item = from_serde(entry.1);
                out.push((entry.0, item));
                assert(out@.drop_last() =~= before);
                assert(all.take(at + 1).drop_last() =~= all.take(at));
            }
            assert(all.take(all.len() as int) =~= all);
            assert(names_differ(out@)) by {
                assert forall|j: int, k: int| 0 <= j < k < out@.len() implies #[trigger] out@[j].0@
                    != #[trigger] out@[k].0@ by {
                    assert(all[j].0@ != all[k].0@);
                }
            }
            Json::Object(Object { entries: out })
        },
    }
}

/// Reads a JSON text.
pub fn parse(text: &str) -> (r: Result<Json, JSONError>)
    ensures
        match r {
            Ok(v) => json_read(text@) == Some(v@),
            Err(e) => json_read(text@) is None && e is Parse,
        },
{
    match json_from_str(text) {
        Ok(v) => Ok(from_serde(v)),
        Err(e) => Err(JSONError::Parse(e)),
    }
}

/// Writes a value as JSON text.
pub fn stringify(v: &Json) -> (r: Result<String, JSONError>)
    ensures
        r is Ok,
        r->Ok_0@ == json_written(v@),
        nested_at_most(v@, MAX_NESTING as nat) ==> json_read(r->Ok_0@) == Some(v@),
{
    match json_to_string(&to_serde(v)) {
        Ok(s) => Ok(s),
        Err(e) => Err(JSONError::Stringify(e)),
    }
}

/// What stands under the name in the value.
pub open spec fn found(j: JsonView, name: Seq<char>) -> Option<JsonView> {
    match j {
        JsonView::Object(entries) => if entries.dom().contains(name) {
            Some(entries[name])
        } else {
            None
        },
        _ => None,
    }
}

/// Looks under the name in the value.
pub fn walk<'a>(name: &str, data: &'a Json) -> (r: Result<&'a Json, JSONError>)
    ensures
        match r {
            Ok(v) => found(data@, name@) == Some(v@),
            Err(JSONError::NotFound(n)) => data@ is Object && found(data@, name@) is None && n@
                == name@,
            Err(e) => data@ !is Object && e is DeadEnd,
        },
        data@ matches JsonView::Object(entries) ==> (match r {
            Ok(v) => entries.dom().contains(name@) && entries[name@] == v@,
            Err(_) => !entries.dom().contains(name@),
        }),
{
    match data {
        Json::Object(o) => match o.get(name) {
            Some(v) => Ok(v),
            None => Err(JSONError::NotFound(name.to_owned())),
        },
        _ => Err(JSONError::DeadEnd),
    }
}

/// The content of a value is what the value holds, case by case, and a list holds its items in
/// order.
pub proof fn values_show_what_they_hold(
    b: bool,
    n: serde_json::Number,
    s: String,
    items: Vec<Json>,
    o: Object,
)
    ensures
        Json::Null@ == JsonView::Null,
        Json::Bool(b)@ == JsonView::Bool(b),
        Json::Number(n)@ == JsonView::Number(n),
        Json::Text(s)@ == JsonView::Text(s@),
        Json::Object(o)@ == JsonView::Object(o@),
        Json::List(items)@ is List,
        Json::List(items)@->List_0.len() == items@.len(),
        forall|i: int|
            0 <= i < items@.len() ==> #[trigger] Json::List(items)@->List_0[i] == items@[i]@,
{
    assert(Json::List(items)@->List_0 == list_model(items@));
}

/// The same of a `serde_json::Value` that is one step open: nothing is lost or altered, and of an
/// object each entry stands under its name.
pub proof fn nodes_show_what_they_hold(
    b: bool,
    n: serde_json::Number,
    s: String,
    items: Vec<serde_json::Value>,
    entries: Vec<(String, serde_json::Value)>,
    name: Seq<char>,
)
    requires
        forall|i: int, j: int|
            0 <= i < j < entries@.len() ==> #[trigger] entries@[i].0@ != #[trigger] entries@[j].0@,
    ensures
        distinct_names(entries@),
        node_content(JsonNode::Null) == JsonView::Null,
        node_content(JsonNode::Bool(b)) == JsonView::Bool(b),
        node_content(JsonNode::Number(n)) == JsonView::Number(n),
        node_content(JsonNode::Text(s)) == JsonView::Text(s@),
        node_content(JsonNode::List(items)) is List,
        node_content(JsonNode::List(items))->List_0.len() == items@.len(),
        forall|i: int|
            0 <= i < items@.len() ==> #[trigger] node_content(JsonNode::List(items))->List_0[i]
                == json_content(items@[i]),
        node_content(JsonNode::Object(entries)) is Object,
        forall|i: int|
            0 <= i < entries@.len() ==> {
                &&& node_content(JsonNode::Object(entries))->Object_0.dom().contains(
                    (#[trigger] entries@[i]).0@,
                )
                &&& node_content(JsonNode::Object(entries))->Object_0[entries@[i].0@]
                    == json_content(entries@[i].1)
            },
        node_content(JsonNode::Object(entries))->Object_0.dom().contains(name) ==> exists|i: int|
            0 <= i < entries@.len() && (#[trigger] entries@[i]).0@ == name,
{
    assert(node_content(JsonNode::List(items))->List_0 == json_contents(items@));
    assert(node_content(JsonNode::Object(entries))->Object_0 == json_entries(entries@));
    assert forall|i: int| 0 <= i < entries@.len() implies {
        &&& json_entries(entries@).dom().contains((#[trigger] entries@[i]).0@)
        &&& json_entries(entries@)[entries@[i].0@] == json_content(entries@[i].1)
    } by {
        json_entries_have(entries@, i);
    }
    if json_entries(entries@).dom().contains(name) {
        json_entries_from(entries@, name);
    }
}

/// A name in the map is that of an entry.
proof fn json_entries_from(entries: Seq<(String, serde_json::Value)>, name: Seq<char>)
    requires
        json_entries(entries).dom().contains(name),
    ensures
        exists|i: int| 0 <= i < entries.len() && (#[trigger] entries[i]).0@ == name,
    decreases entries.len(),
{
    let last = entries.len() - 1;
    if entries[last].0@ != name {
        json_entries_from(entries.drop_last(), name);
        let i = choose|i: int|
            0 <= i < entries.len() - 1 && (#[trigger] entries.drop_last()[i]).0@ == name;
        assert(entries[i].0@ == name);
    }
}

/// How deep a value is nested: one that is no list and no object is not nested, and a list or an
/// object is nested one deeper than what stands in it.
pub proof fn nesting_counts_lists_and_objects(
    j: JsonView,
    items: Seq<JsonView>,
    entries: Map<Seq<char>, JsonView>,
    n: nat,
)
    ensures
        MAX_NESTING == 127,
        !(j is List) && !(j is Object) ==> nested_at_most(j, n),
        !nested_at_most(JsonView::List(items), 0),
        !nested_at_most(JsonView::Object(entries), 0),
        nested_at_most(JsonView::List(items), n + 1) <==> forall|i: int|
            0 <= i < items.len() ==> nested_at_most(#[trigger] items[i], n),
        nested_at_most(JsonView::Object(entries), n + 1) <==> forall|k: Seq<char>|
            entries.dom().contains(k) ==> nested_at_most(#[trigger] entries[k], n),
{
    assert(JsonView::List(items)->List_0 == items);
    assert(JsonView::Object(entries)->Object_0 == entries);
}

/// What stands under a name: in an object its entry, if it has one, and in anything else nothing.
pub proof fn only_objects_have_names(j: JsonView, name: Seq<char>)
    ensures
        j matches JsonView::Object(entries) ==> (found(j, name) is Some
            <==> entries.dom().contains(name)),
        j matches JsonView::Object(entries) ==> entries.dom().contains(name) ==> found(j, name)
            == Some(entries[name]),
        !(j is Object) ==> found(j, name) is None,
{
}

} // verus!
