//! The data of a model: its fields, and how they are set.

use vstd::prelude::*;

use crate::error::{ErrorView, TError, TResult};
use crate::json;
use crate::json::{Json, JsonView, Object};
use crate::models::content;
use crate::models::content::{Class, FieldView, Kind, ModelView, SlotView};
use crate::text;
use crate::text::{join2, same_text, to_lowercase};

verus! {

/// A model: an id, the encrypted body, the key for it, and fields.
pub struct Model {
    pub name: String,
    pub model_type: String,
    pub id: Option<String>,
    pub body: Option<String>,
    pub key: Option<Vec<u8>>,
    pub(crate) fields: Vec<Field>,
}

/// A field of a model.
pub(crate) struct Field {
    pub(crate) name: String,
    pub(crate) class: Class,
    pub(crate) slot: Slot,
}

/// What a field holds: a value of a type, or a model of its own beside the blank model
/// that a new one starts from.
pub(crate) enum Slot {
    Plain(Kind, Option<Json>),
    Sub(Box<Model>, Option<Box<Model>>),
}

pub open spec fn text_view(text: Option<String>) -> Option<Seq<char>> {
    match text {
        Some(s) => Some(s@),
        None => None,
    }
}

pub open spec fn key_view(key: Option<Vec<u8>>) -> Option<Seq<u8>> {
    match key {
        Some(k) => Some(k@),
        None => None,
    }
}

pub open spec fn value_view(value: Option<Json>) -> Option<JsonView> {
    match value {
        Some(v) => Some(v@),
        None => None,
    }
}

pub(crate) open spec fn slot_view(slot: Slot) -> SlotView
    decreases slot,
{
    match slot {
        Slot::Plain(kind, v) => SlotView::Plain(kind, value_view(v)),
        Slot::Sub(b, Some(m)) => SlotView::Sub(
            Box::new(model_view(*b)),
            Some(Box::new(model_view(*m))),
        ),
        Slot::Sub(b, None) => SlotView::Sub(Box::new(model_view(*b)), None),
    }
}

pub(crate) open spec fn field_view(f: Field) -> FieldView
    decreases f,
{
    FieldView { name: f.name@, class: f.class, slot: slot_view(f.slot) }
}

pub(crate) open spec fn fields_view(fields: Seq<Field>) -> Seq<FieldView>
    decreases fields,
{
    Seq::new(
        fields.len(),
        |i: int|
            if 0 <= i < fields.len() {
                field_view(fields[i])
            } else {
                arbitrary()
            },
    )
}

pub open(crate) spec fn model_view(m: Model) -> ModelView
    decreases m,
{
    ModelView {
        name: m.name@,
        model_type: m.model_type@,
        id: text_view(m.id),
        body: text_view(m.body),
        key: key_view(m.key),
        fields: fields_view(m.fields@),
    }
}

impl View for Model {
    type V = ModelView;

    open spec fn view(&self) -> ModelView {
        model_view(*self)
    }
}

/// The error of a result, if it is one.
pub open spec fn error_of<T>(r: TResult<T>) -> Option<ErrorView> {
    match r {
        Ok(_) => None,
        Err(e) => Some(e@),
    }
}

/// The place of the first field that has the name and holds a value, or of the first
/// that has it and holds a submodel.
pub open spec fn field_index(fields: Seq<FieldView>, name: Seq<char>, sub: bool) -> Option<int>
    decreases fields.len(),
{
    if fields.len() == 0 {
        None
    } else {
        match field_index(fields.drop_last(), name, sub) {
            Some(i) => Some(i),
            None => if fields.last().name == name && (fields.last().slot is Sub) == sub {
                Some(fields.len() - 1)
            } else {
                None
            },
        }
    }
}

/// The index that was found in a part of the fields is found in all of them.
proof fn field_index_grows(fields: Seq<FieldView>, name: Seq<char>, sub: bool, n: int)
    requires
        0 <= n <= fields.len(),
        field_index(fields.take(n), name, sub) is Some,
    ensures
        field_index(fields, name, sub) == field_index(fields.take(n), name, sub),
    decreases fields.len(),
{
    if n < fields.len() {
        assert(fields.drop_last().take(n) =~= fields.take(n));
        field_index_grows(fields.drop_last(), name, sub, n);
    } else {
        assert(fields.take(n) =~= fields);
    }
}

/// The name that a field has in JSON.
pub fn fix_type(name: &str) -> (r: String)
    ensures
        r@ == content::json_name(name@),
{
    if same_text(name, "type_") {
        "type".to_owned()
    } else {
        name.to_owned()
    }
}

/// A copy of a text that may be absent.
fn copy_text(text: &Option<String>) -> (r: Option<String>)
    ensures
        text_view(r) == text_view(*text),
{
    match text {
        Some(s) => Some(s.clone()),
        None => None,
    }
}

fn copy_value(value: &Option<Json>) -> (r: Option<Json>)
    ensures
        value_view(r) == value_view(*value),
{
    match value {
        Some(v) => Some(v.clone()),
        None => None,
    }
}

fn copy_key(key: &Option<Vec<u8>>) -> (r: Option<Vec<u8>>)
    ensures
        key_view(r) == key_view(*key),
{
    match key {
        Some(k) => {
            let copy = k.clone();
            assert(copy@ =~= k@);
            Some(copy)
        },
        None => None,
    }
}

/// Whether the value is of the type.
pub fn fits(kind: &Kind, v: &Json) -> (r: bool)
    ensures
        r == content::fits(*kind, v@),
    decreases kind,
{
    match (kind, v) {
        (Kind::Any, _) => true,
        (Kind::Int, Json::Number(n)) => n.as_i64().is_some(),
        (Kind::Text, Json::Text(_)) => true,
        (Kind::Bool, Json::Bool(_)) => true,
        (Kind::List(of), Json::List(items)) => {
            let mut i: usize = 0;
            while i < items.len()
                invariant
                    i <= items@.len(),
                    *kind == Kind::List(*of),
                    v@ == JsonView::List(json::list_model(items@)),
                    forall|k: int|
                        0 <= k < i ==> content::fits(**of, json::value_model(#[trigger] items@[k])),
                decreases items@.len() - i,
            {
                assert(decreases_to!(*kind => kind->List_0));
                if !fits(of, &items[i]) {
                    assert(v@->List_0 == json::list_model(items@));
                    assert(!content::fits(**of, json::list_model(items@)[i as int]));
                    return false;
                }
                i += 1;
            }
            assert forall|k: int| 0 <= k < items@.len() implies content::fits(
                **of,
                #[trigger] json::list_model(items@)[k],
            ) by {
                assert(content::fits(**of, json::value_model(items@[k])));
            }
            true
        },
        _ => false,
    }
}

impl Model {
    /// A model of the kind, without any field.
    pub fn new(name: &str) -> (r: Model)
        ensures
            r@ == (ModelView {
                name: name@,
                model_type: text::lowercase(name@),
                id: None,
                body: None,
                key: None,
                fields: Seq::empty(),
            }),
    {
        let r = Model {
            name: name.to_owned(),
            model_type: to_lowercase(name),
            id: None,
            body: None,
            key: None,
            fields: Vec::new(),
        };
        assert(fields_view(r.fields@) =~= Seq::empty());
        r
    }

    /// The kind of model with one more field, for values of a type.
    pub fn with_field(self, name: &str, class: Class, kind: Kind) -> (r: Model)
        ensures
            r@ == (ModelView {
                fields: self@.fields.push(
                    FieldView { name: name@, class, slot: SlotView::Plain(kind, None) },
                ),
                ..self@
            }),
    {
        let mut r = self;
        r.fields.push(Field { name: name.to_owned(), class, slot: Slot::Plain(kind, None) });
        assert(fields_view(r.fields@) =~= self@.fields.push(
            FieldView { name: name@, class, slot: SlotView::Plain(kind, None) },
        ));
        r
    }

    /// The kind of model with one more field, which holds a model of the kind given.
    pub fn with_submodel(self, name: &str, class: Class, of: &Model) -> (r: Model)
        ensures
            r@ == (ModelView {
                fields: self@.fields.push(
                    FieldView {
                        name: name@,
                        class,
                        slot: SlotView::Sub(
                            Box::new(content::blank(of@)),
                            None,
                        ),
                    },
                ),
                ..self@
            }),
    {
        let mut r = self;
        let start = of.blank();
        r.fields.push(
            Field { name: name.to_owned(), class, slot: Slot::Sub(Box::new(start), None) },
        );
        assert(fields_view(r.fields@) =~= self@.fields.push(
            FieldView {
                name: name@,
                class,
                slot: SlotView::Sub(Box::new(content::blank(of@)), None),
            },
        ));
        r
    }

    /// A copy of the model.
    pub fn duplicate(&self) -> (r: Model)
        ensures
            r@ == self@,
        decreases self,
    {
        let mut fields: Vec<Field> = Vec::new();
        let mut i: usize = 0;
        while i < self.fields.len()
            invariant
                i <= self.fields@.len(),
                fields@.len() == i,
                forall|k: int|
                    0 <= k < i ==> field_view(#[trigger] fields@[k]) == field_view(
                        self.fields@[k],
                    ),
            decreases self.fields@.len() - i,
        {
            let f = &self.fields[i];
            assert(decreases_to!(*self => self.fields));
            assert(decreases_to!(self.fields => self.fields@[i as int]));
            let slot = match &f.slot {
                Slot::Plain(kind, v) => Slot::Plain(kind.clone(), copy_value(v)),
                Slot::Sub(b, None) => Slot::Sub(Box::new(b.duplicate()), None),
                Slot::Sub(b, Some(m)) => Slot::Sub(
                    Box::new(b.duplicate()),
                    Some(Box::new(m.duplicate())),
                ),
            };
            fields.push(Field { name: f.name.clone(), class: f.class, slot });
            i += 1;
        }
        assert(fields_view(fields@) =~= fields_view(self.fields@));
        Model {
            name: self.name.clone(),
            model_type: self.model_type.clone(),
            id: copy_text(&self.id),
            body: copy_text(&self.body),
            key: copy_key(&self.key),
            fields,
        }
    }

    /// A new model of the same kind, in which nothing is set.
    pub fn blank(&self) -> (r: Model)
        ensures
            r@ == content::blank(self@),
    {
        let mut fields: Vec<Field> = Vec::new();
        let mut i: usize = 0;
        while i < self.fields.len()
            invariant
                i <= self.fields@.len(),
                fields@.len() == i,
                forall|k: int|
                    0 <= k < i ==> field_view(#[trigger] fields@[k])
                        == content::field_blank(field_view(self.fields@[k])),
            decreases self.fields@.len() - i,
        {
            let f = &self.fields[i];
            let slot = match &f.slot {
                Slot::Plain(kind, _) => Slot::Plain(kind.clone(), None),
                Slot::Sub(b, _) => Slot::Sub(Box::new(b.duplicate()), None),
            };
            fields.push(Field { name: f.name.clone(), class: f.class, slot });
            i += 1;
        }
        assert(fields_view(fields@) =~= content::blank(self@).fields);
        Model {
            name: self.name.clone(),
            model_type: self.model_type.clone(),
            id: None,
            body: None,
            key: None,
            fields,
        }
    }

    /// The id, if there is one.
    pub fn id(&self) -> (r: Option<&String>)
        ensures
            match r {
                Some(id) => self@.id == Some(id@),
                None => self@.id is None,
            },
    {
        self.id.as_ref()
    }

    /// The place of the first field of the name that holds a value (or a submodel).
    fn find(&self, name: &str, sub: bool) -> (r: Option<usize>)
        ensures
            match r {
                Some(i) => {
                    &&& i < self.fields@.len()
                    &&& (self.fields@[i as int].slot is Sub) == sub
                    &&& field_index(self@.fields, name@, sub) == Some(i as int)
                },
                None => field_index(self@.fields, name@, sub) is None,
            },
    {
        let ghost fs = self@.fields;
        let mut i: usize = 0;
        while i < self.fields.len()
            invariant
                i <= self.fields@.len(),
                fs == fields_view(self.fields@),
                field_index(fs.take(i as int), name@, sub) is None,
            decreases self.fields@.len() - i,
        {
            let is_sub = match &self.fields[i].slot {
                Slot::Plain(_, _) => false,
                Slot::Sub(_, _) => true,
            };
            assert(fs.take(i + 1).drop_last() =~= fs.take(i as int));
            if is_sub == sub && same_text(self.fields[i].name.as_str(), name) {
                proof {
                    field_index_grows(fs, name@, sub, i + 1);
                }
                return Some(i);
            }
            i += 1;
        }
        assert(fs.take(i as int) =~= fs);
        None
    }

    /// The value of a field, if it has one.
    pub fn field(&self, name: &str) -> (r: Option<&Json>)
        ensures
            match (r, field_index(self@.fields, name@, false)) {
                (Some(v), Some(i)) => self@.fields[i].slot->Plain_1 == Some(v@),
                (Some(_), None) => false,
                (None, Some(i)) => self@.fields[i].slot->Plain_1 is None,
                (None, None) => true,
            },
    {
        match self.find(name, false) {
            Some(i) => match &self.fields[i].slot {
                Slot::Plain(_, v) => v.as_ref(),
                Slot::Sub(_, _) => None,
            },
            None => None,
        }
    }

    /// Sets the value of a field, if there is such a field and the value is of its type. Says
    /// whether that is so.
    pub fn set_field(&mut self, name: &str, value: Option<Json>) -> (r: bool)
        ensures
            match field_index(old(self)@.fields, name@, false) {
                Some(i) => if content::value_fits(
                    old(self)@.fields[i].slot->Plain_0,
                    value_view(value),
                ) {
                    r && final(self)@ == content::value_set(old(self)@, i, value_view(value))
                } else {
                    !r && final(self)@ == old(self)@
                },
                None => !r && final(self)@ == old(self)@,
            },
    {
        let i = match self.find(name, false) {
            Some(i) => i,
            None => return false,
        };
        match (&self.fields[i].slot, &value) {
            (Slot::Plain(kind, _), Some(v)) => {
                if !fits(kind, v) {
                    return false;
                }
            },
            _ => {},
        }
        let ghost before = self@;
        match &mut self.fields[i].slot {
            Slot::Plain(_, current) => {
                *current = value;
            },
            Slot::Sub(_, _) => {},
        }
        assert(self@.fields =~= content::value_set(before, i as int, value_view(value)).fields);
        true
    }

    /// The submodel in a field, if there is one.
    pub fn submodel(&self, name: &str) -> (r: Option<&Model>)
        ensures
            match (r, field_index(self@.fields, name@, true)) {
                (Some(m), Some(i)) => self@.fields[i].slot->Sub_1 == Some(Box::new(m@)),
                (Some(_), None) => false,
                (None, Some(i)) => self@.fields[i].slot->Sub_1 is None,
                (None, None) => true,
            },
    {
        match self.find(name, true) {
            Some(i) => match &self.fields[i].slot {
                Slot::Sub(_, Some(m)) => Some(m),
                _ => None,
            },
            None => None,
        }
    }

    /// Sets fields of the model from the entries of a JSON object.
    pub fn set_multi(&mut self, data: Json) -> (r: TResult<()>)
        ensures
            (final(self)@, error_of(r)) == content::set_multi(old(self)@, data@),
        decreases old(self)@, 0int,
    {
        match data {
            Json::Object(entries) => {
                set_text(&mut self.id, &entries, "id")?;
                set_text(&mut self.body, &entries, "body")?;
                let ghost before = self@.fields;
                let ghost mid = *self;
                let mut i: usize = 0;
                while i < self.fields.len()
                    invariant
                        i <= self.fields@.len() == before.len(),
                        before == old(self)@.fields,
                        self.name == mid.name,
                        self.model_type == mid.model_type,
                        self.id == mid.id,
                        self.body == mid.body,
                        self.key == mid.key,
                        mid.name@ == old(self)@.name,
                        mid.model_type@ == old(self)@.model_type,
                        key_view(mid.key) == old(self)@.key,
                        data == Json::Object(entries),
                        content::text_set(old(self)@.id, entries@, "id"@) == (
                            text_view(mid.id),
                            None::<ErrorView>,
                        ),
                        content::text_set(old(self)@.body, entries@, "body"@) == (
                            text_view(mid.body),
                            None::<ErrorView>,
                        ),
                        content::fields_set(before.take(i as int), entries@).1 is None,
                        content::fields_set(before.take(i as int), entries@).0
                            =~= fields_view(self.fields@).take(i as int),
                        forall|k: int|
                            i <= k < before.len() ==> field_view(#[trigger] self.fields@[k])
                                == before[k],
                    decreases self.fields@.len() - i,
                {
                    let ghost start = self.fields@;
                    assert(field_view(self.fields@[i as int]) == before[i as int]);
                    assert(decreases_to!(old(self)@ => old(self)@.fields));
                    assert(decreases_to!(old(self)@.fields => old(self)@.fields[i as int]));
                    let r = set_slot(&mut self.fields[i], &entries);
                    assert(before.take(i + 1).drop_last() =~= before.take(i as int));
                    assert(fields_view(self.fields@).take(i + 1) =~= fields_view(start).take(
                        i as int,
                    ).push(field_view(self.fields@[i as int])));
                    if r.is_err() {
                        proof {
                            fields_set_stops(before, entries@, i + 1);
                            assert(fields_view(self.fields@).skip(i + 1) =~= before.skip(i + 1));
                            assert(fields_view(self.fields@) =~= fields_view(self.fields@).take(
                                i + 1,
                            ) + fields_view(self.fields@).skip(i + 1));
                        }
                        return r;
                    }
                    i += 1;
                }
                assert(before.take(i as int) =~= before);
                assert(fields_view(self.fields@).take(i as int) =~= fields_view(self.fields@));
                Ok(())
            },
            _ => Err(TError::BadValue("Model::set_multi() -- invalid JSON object".to_owned())),
        }
    }
}

/// Setting fields that stopped at one of the first `n` leaves the others as they are.
proof fn fields_set_stops(fields: Seq<FieldView>, entries: Map<Seq<char>, JsonView>, n: int)
    requires
        0 <= n <= fields.len(),
        content::fields_set(fields.take(n), entries).1 is Some,
    ensures
        content::fields_set(fields, entries) == (
            content::fields_set(fields.take(n), entries).0 + fields.skip(n),
            content::fields_set(fields.take(n), entries).1,
        ),
    decreases fields.len(),
{
    if n < fields.len() {
        assert(fields.drop_last().take(n) =~= fields.take(n));
        fields_set_stops(fields.drop_last(), entries, n);
        assert(fields.skip(n) =~= fields.drop_last().skip(n).push(fields.last()));
        assert((content::fields_set(fields.take(n), entries).0
            + fields.drop_last().skip(n)).push(fields.last())
            =~= content::fields_set(fields.take(n), entries).0 + fields.skip(n));
    } else {
        assert(fields.take(n) =~= fields);
        assert(fields.skip(n) =~= Seq::empty());
        assert(content::fields_set(fields, entries).0 + fields.skip(n)
            =~= content::fields_set(fields, entries).0);
    }
}

/// Sets a text from the entry of a name, if there is one.
fn set_text(text: &mut Option<String>, entries: &Object, name: &str) -> (r: TResult<()>)
    ensures
        (text_view(*final(text)), error_of(r)) == content::text_set(
            text_view(*old(text)),
            entries@,
            name@,
        ),
{
    match entries.get(name) {
        None => Ok(()),
        Some(Json::Null) => {
            *text = None;
            Ok(())
        },
        Some(Json::Text(s)) => {
            *text = Some(s.clone());
            Ok(())
        },
        Some(_) => Err(
            TError::BadValue(join2("Model::set_multi() -- invalid text field ", name)),
        ),
    }
}

/// Sets a field from the entry of its JSON name, if there is one.
fn set_slot(f: &mut Field, entries: &Object) -> (r: TResult<()>)
    ensures
        (field_view(*final(f)), error_of(r)) == content::field_set(
            field_view(*old(f)),
            entries@,
        ),
    decreases field_view(*old(f)), 0int,
{
    if f.class == Class::Extra {
        return Ok(());
    }
    match entries.get(fix_type(f.name.as_str()).as_str()) {
        None => Ok(()),
        Some(v) => {
            let clears = match v {
                Json::Null => true,
                _ => false,
            };
            let value = v.clone();
            match &mut f.slot {
                Slot::Plain(kind, current) => {
                    if clears {
                        *current = None;
                        return Ok(());
                    }
                    if !fits(kind, &value) {
                        return Err(
                            TError::BadValue(
                                join2(
                                    "Model::set_multi() -- invalid value for field ",
                                    fix_type(f.name.as_str()).as_str(),
                                ),
                            ),
                        );
                    }
                    *current = Some(value);
                    Ok(())
                },
                Slot::Sub(b, current) => {
                    if clears {
                        *current = None;
                        return Ok(());
                    }
                    let ghost fv = field_view(*old(f));
                    assert(decreases_to!(fv => fv.slot));
                    assert(decreases_to!(fv.slot => fv.slot->Sub_0));
                    assert(fv.slot->Sub_1 is Some ==> decreases_to!(fv.slot => fv.slot->Sub_1->0));
                    set_sub(b, current, value)
                },
            }
        },
    }
}

/// Sets a submodel from JSON, a new one where there was none.
pub(crate) fn set_sub(start: &Box<Model>, current: &mut Option<Box<Model>>, value: Json) -> (r:
    TResult<()>)
    ensures
        *final(current) is Some,
        ({
            let m = match *old(current) {
                Some(m) => model_view(*m),
                None => model_view(**start),
            };
            (model_view(*(*final(current))->0), error_of(r)) == content::set_multi(
                m,
                value@,
            )
        }),
    decreases
            (match *old(current) {
                Some(m) => model_view(*m),
                None => model_view(**start),
            }),
            1int,
{
    let mut m = match current.take() {
        Some(m) => m,
        None => Box::new(start.duplicate()),
    };
    let r = m.set_multi(value);
    *current = Some(m);
    r
}

/// The content of a model is what the model holds, part by part and field by field.
pub(crate) proof fn models_show_what_they_hold(m: Model, i: int, v: Json, text: String)
    ensures
        m@.name == m.name@,
        m@.model_type == m.model_type@,
        m.id is None ==> m@.id is None,
        m.id matches Some(s) ==> m@.id == Some(s@),
        m.body is None ==> m@.body is None,
        m.body matches Some(s) ==> m@.body == Some(s@),
        m.key is None ==> m@.key is None,
        m.key matches Some(k) ==> m@.key == Some(k@),
        m@.fields.len() == m.fields@.len(),
        0 <= i < m.fields@.len() ==> {
            let f = m.fields@[i];
            let g = m@.fields[i];
            &&& g.name == f.name@
            &&& g.class == f.class
            &&& match f.slot {
                Slot::Plain(kind, None) => g.slot == SlotView::Plain(kind, None),
                Slot::Plain(kind, Some(v)) => g.slot == SlotView::Plain(kind, Some(v@)),
                Slot::Sub(b, None) => g.slot == SlotView::Sub(Box::new(b@), None),
                Slot::Sub(b, Some(s)) => g.slot == SlotView::Sub(
                    Box::new(b@),
                    Some(Box::new(s@)),
                ),
            }
        },
        value_view(Some(v)) == Some(v@),
        value_view(None) is None,
        text_view(Some(text)) == Some(text@),
        text_view(None) is None,
{
    if 0 <= i < m.fields@.len() {
        assert(m@.fields[i] == field_view(m.fields@[i]));
    }
}

/// The error of a result is the error that it holds, if it is one.
pub proof fn errors_show_what_they_hold(e: TError, key: Vec<u8>)
    ensures
        error_of(Ok::<(), TError>(())) is None,
        error_of(Err::<(), TError>(e)) == Some(e@),
        error_of(Err::<Json, TError>(e)) == Some(e@),
        key_view(Some(key)) == Some(key@),
        key_view(None) is None,
{
}

} // verus!
