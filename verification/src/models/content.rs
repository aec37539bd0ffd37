//! The mathematical model of a protected model, and of what its operations do.

use vstd::prelude::*;
use vstd::utf8::*;

use crate::error::{CryptoError, ErrorView};
use crate::json;
use crate::json::JsonView;

verus! {

/// Where a field shows: outside of the encrypted body, inside of it, or nowhere but
/// in memory.
#[derive(Debug, Clone, Copy, PartialEq, Eq, Structural)]
pub enum Class {
    Public,
    Private,
    Extra,
}

/// The type of the values of a field.
#[derive(Debug)]
pub enum Kind {
    /// Integers in the range of `i64`.
    Int,
    Text,
    Bool,
    /// Lists of values of one type.
    List(Box<Kind>),
    /// Any value.
    Any,
}

impl Clone for Kind {
    /// The same type.
    fn clone(&self) -> (r: Kind)
        ensures
            r == *self,
        decreases self,
    {
        match self {
            Kind::Int => Kind::Int,
            Kind::Text => Kind::Text,
            Kind::Bool => Kind::Bool,
            Kind::List(of) => {
                let inner: &Kind = of;
                Kind::List(Box::new(inner.clone()))
            },
            Kind::Any => Kind::Any,
        }
    }
}

/// The value is of the type.
pub open spec fn fits(kind: Kind, j: JsonView) -> bool
    decreases kind,
{
    match kind {
        Kind::Int => j matches JsonView::Number(n) && json::number_i64(n) is Some,
        Kind::Text => j is Text,
        Kind::Bool => j is Bool,
        Kind::List(of) => j matches JsonView::List(items) && forall|i: int|
            0 <= i < items.len() ==> fits(*of, #[trigger] items[i]),
        Kind::Any => true,
    }
}

/// The content of a model.
pub struct ModelView {
    /// The name of the kind of model.
    pub name: Seq<char>,
    pub model_type: Seq<char>,
    pub id: Option<Seq<char>>,
    pub body: Option<Seq<char>>,
    pub key: Option<Seq<u8>>,
    pub fields: Seq<FieldView>,
}

/// The content of a field.
pub struct FieldView {
    pub name: Seq<char>,
    pub class: Class,
    pub slot: SlotView,
}

/// What a field holds: a value of a type, or a model of its own beside the blank model
/// that a new one starts from.
pub enum SlotView {
    Plain(Kind, Option<JsonView>),
    Sub(Box<ModelView>, Option<Box<ModelView>>),
}

/// The name that a field has in JSON: the field `type_` is written `type`.
pub open spec fn json_name(name: Seq<char>) -> Seq<char> {
    if name == "type_"@ {
        "type"@
    } else {
        name
    }
}

/// An absent text is null.
pub open spec fn text_json(text: Option<Seq<char>>) -> JsonView {
    match text {
        Some(s) => JsonView::Text(s),
        None => JsonView::Null,
    }
}

/// An absent value is null.
pub open spec fn value_json(value: Option<JsonView>) -> JsonView {
    match value {
        Some(v) => v,
        None => JsonView::Null,
    }
}

/// A value that may be absent is of the type: an absent one is of every type.
pub open spec fn value_fits(kind: Kind, value: Option<JsonView>) -> bool {
    value matches Some(v) ==> fits(kind, v)
}

/// The model with the value in the field at the place.
pub open spec fn value_set(m: ModelView, i: int, value: Option<JsonView>) -> ModelView {
    let f = m.fields[i];
    ModelView {
        fields: m.fields.update(
            i,
            FieldView { slot: SlotView::Plain(f.slot->Plain_0, value), ..f },
        ),
        ..m
    }
}

/// All data of a field.
pub open spec fn slot_data(slot: SlotView) -> JsonView
    decreases slot,
{
    match slot {
        SlotView::Plain(_, v) => value_json(v),
        SlotView::Sub(_, Some(m)) => JsonView::Object(data(*m)),
        SlotView::Sub(_, None) => JsonView::Null,
    }
}

/// All data of the fields that are not extra, by JSON name.
pub open spec fn fields_data(fields: Seq<FieldView>) -> Map<Seq<char>, JsonView>
    decreases fields,
{
    if fields.len() == 0 {
        Map::empty()
    } else {
        let f = fields.last();
        let rest = fields_data(fields.drop_last());
        if f.class == Class::Extra {
            rest
        } else {
            rest.insert(json_name(f.name), slot_data(f.slot))
        }
    }
}

/// All data of a model, by JSON name.
pub open spec fn data(m: ModelView) -> Map<Seq<char>, JsonView>
    decreases m,
{
    fields_data(m.fields).insert("id"@, text_json(m.id)).insert("body"@, text_json(m.body))
}

/// What a field shows among the private or among the public data: a value shows with
/// its class, a submodel shows its part of either.
pub open spec fn shown(f: FieldView, private: bool) -> Option<JsonView>
    decreases f,
{
    match f.slot {
        SlotView::Plain(_, v) => if f.class == (if private {
            Class::Private
        } else {
            Class::Public
        }) {
            Some(value_json(v))
        } else {
            None
        },
        SlotView::Sub(_, Some(m)) => Some(JsonView::Object(serializable(*m, private))),
        SlotView::Sub(_, None) => Some(JsonView::Null),
    }
}

/// What the fields show, by JSON name.
pub open spec fn fields_shown(fields: Seq<FieldView>, private: bool) -> Map<Seq<char>, JsonView>
    decreases fields,
{
    if fields.len() == 0 {
        Map::empty()
    } else {
        let f = fields.last();
        let rest = fields_shown(fields.drop_last(), private);
        match shown(f, private) {
            Some(v) => rest.insert(json_name(f.name), v),
            None => rest,
        }
    }
}

/// The private data of a model, or its public data: id, body and what the fields show.
pub open spec fn serializable(m: ModelView, private: bool) -> Map<Seq<char>, JsonView>
    decreases m,
{
    if private {
        fields_shown(m.fields, true)
    } else {
        fields_shown(m.fields, false).insert("id"@, text_json(m.id)).insert(
            "body"@,
            text_json(m.body),
        )
    }
}

/// The JSON names of the fields of a class, in order.
pub open spec fn class_names(fields: Seq<FieldView>, class: Class) -> Seq<Seq<char>>
    decreases fields,
{
    if fields.len() == 0 {
        Seq::empty()
    } else {
        let rest = class_names(fields.drop_last(), class);
        if fields.last().class == class {
            rest.push(json_name(fields.last().name))
        } else {
            rest
        }
    }
}

/// The JSON names of the submodels, in order.
pub open spec fn sub_names(fields: Seq<FieldView>) -> Seq<Seq<char>>
    decreases fields,
{
    if fields.len() == 0 {
        Seq::empty()
    } else {
        let rest = sub_names(fields.drop_last());
        if fields.last().slot is Sub {
            rest.push(json_name(fields.last().name))
        } else {
            rest
        }
    }
}

/// What a submodel of this JSON name shows, if there is such a submodel.
pub open spec fn sub_shown(fields: Seq<FieldView>, name: Seq<char>, private: bool) -> Option<
    JsonView,
>
    decreases fields,
{
    if fields.len() == 0 {
        None
    } else {
        match sub_shown(fields.drop_last(), name, private) {
            Some(v) => Some(v),
            None => if fields.last().slot is Sub && json_name(fields.last().name) == name {
                shown(fields.last(), private)
            } else {
                None
            },
        }
    }
}

/// The model with the key. A key goes to the submodels too; that there is none does not.
pub open spec fn keyed(m: ModelView, key: Option<Seq<u8>>) -> ModelView
    decreases m,
{
    ModelView {
        key,
        fields: match key {
            Some(k) => fields_keyed(m.fields, k),
            None => m.fields,
        },
        ..m
    }
}

/// The fields with the key on their submodels.
pub open spec fn fields_keyed(fields: Seq<FieldView>, key: Seq<u8>) -> Seq<FieldView>
    decreases fields,
{
    Seq::new(
        fields.len(),
        |i: int|
            if 0 <= i < fields.len() {
                field_keyed(fields[i], key)
            } else {
                arbitrary()
            },
    )
}

/// The field with the key on its submodel.
pub open spec fn field_keyed(f: FieldView, key: Seq<u8>) -> FieldView
    decreases f,
{
    match f.slot {
        SlotView::Sub(b, Some(m)) => FieldView {
            slot: SlotView::Sub(b, Some(Box::new(keyed(*m, Some(key))))),
            ..f
        },
        _ => f,
    }
}

/// A new model of the kind: nothing is set in it.
pub open spec fn blank(m: ModelView) -> ModelView {
    ModelView {
        id: None,
        body: None,
        key: None,
        fields: Seq::new(m.fields.len(), |i: int| field_blank(m.fields[i])),
        ..m
    }
}

/// A new field of the kind.
pub open spec fn field_blank(f: FieldView) -> FieldView {
    FieldView {
        slot: match f.slot {
            SlotView::Plain(kind, _) => SlotView::Plain(kind, None),
            SlotView::Sub(b, _) => SlotView::Sub(b, None),
        },
        ..f
    }
}

/// What setting a text from JSON gives: the text, or why it cannot be set.
pub open spec fn text_set(
    current: Option<Seq<char>>,
    entries: Map<Seq<char>, JsonView>,
    name: Seq<char>,
) -> (Option<Seq<char>>, Option<ErrorView>) {
    if entries.dom().contains(name) {
        match entries[name] {
            JsonView::Null => (None, None),
            JsonView::Text(s) => (Some(s), None),
            _ => (
                current,
                Some(ErrorView::BadValue("Model::set_multi() -- invalid text field "@ + name)),
            ),
        }
    } else {
        (current, None)
    }
}

/// What setting a field from JSON gives: the field, and why it stopped, if it did. An
/// extra field and one that is not mentioned stay as they are. Null empties a field; any
/// other value has to be of the field's type. A submodel takes the data in, a new one where
/// there was none.
pub open spec fn field_set(f: FieldView, entries: Map<Seq<char>, JsonView>) -> (
    FieldView,
    Option<ErrorView>,
)
    decreases f,
{
    if f.class == Class::Extra || !entries.dom().contains(json_name(f.name)) {
        (f, None)
    } else {
        let v = entries[json_name(f.name)];
        match f.slot {
            SlotView::Plain(kind, _) => if v is Null {
                (FieldView { slot: SlotView::Plain(kind, None), ..f }, None)
            } else if fits(kind, v) {
                (FieldView { slot: SlotView::Plain(kind, Some(v)), ..f }, None)
            } else {
                (
                    f,
                    Some(
                        ErrorView::BadValue(
                            "Model::set_multi() -- invalid value for field "@ + json_name(f.name),
                        ),
                    ),
                )
            },
            SlotView::Sub(b, current) => if v is Null {
                (FieldView { slot: SlotView::Sub(b, None), ..f }, None)
            } else {
                let (m, e) = match current {
                    Some(m) => set_multi(*m, v),
                    None => set_multi(*b, v),
                };
                (FieldView { slot: SlotView::Sub(b, Some(Box::new(m))), ..f }, e)
            },
        }
    }
}

/// What setting fields in order gives: the first that stops leaves the later ones as
/// they are.
pub open spec fn fields_set(fields: Seq<FieldView>, entries: Map<Seq<char>, JsonView>) -> (
    Seq<FieldView>,
    Option<ErrorView>,
)
    decreases fields,
{
    if fields.len() == 0 {
        (Seq::empty(), None)
    } else {
        let (done, e) = fields_set(fields.drop_last(), entries);
        if e is Some {
            (done.push(fields.last()), e)
        } else {
            let (f, e) = field_set(fields.last(), entries);
            (done.push(f), e)
        }
    }
}

/// What setting a model from JSON gives: the model, and why it stopped, if it did.
pub open spec fn set_multi(m: ModelView, value: JsonView) -> (ModelView, Option<ErrorView>)
    decreases m,
{
    match value {
        JsonView::Object(entries) => {
            let (id, e) = text_set(m.id, entries, "id"@);
            if e is Some {
                (m, e)
            } else {
                let (body, e) = text_set(m.body, entries, "body"@);
                if e is Some {
                    (ModelView { id, ..m }, e)
                } else {
                    let (fields, e) = fields_set(m.fields, entries);
                    (ModelView { id, body, fields, ..m }, e)
                }
            }
        },
        _ => (m, Some(ErrorView::BadValue("Model::set_multi() -- invalid JSON object"@))),
    }
}

/// What handing the submodels their entries gives: the fields, the entries that are
/// left, and why it stopped, if it did.
pub open spec fn subs_set(fields: Seq<FieldView>, entries: Map<Seq<char>, JsonView>) -> (
    Seq<FieldView>,
    Map<Seq<char>, JsonView>,
    Option<ErrorView>,
)
    decreases fields,
{
    if fields.len() == 0 {
        (Seq::empty(), entries, None)
    } else {
        let f = fields.last();
        let (done, left, e) = subs_set(fields.drop_last(), entries);
        if e is Some {
            (done.push(f), left, e)
        } else {
            match f.slot {
                SlotView::Sub(b, current) => if left.dom().contains(f.name) {
                    let (m, e) = match current {
                        Some(m) => set_multi(*m, left[f.name]),
                        None => set_multi(*b, left[f.name]),
                    };
                    (
                        done.push(FieldView { slot: SlotView::Sub(b, Some(Box::new(m))), ..f }),
                        left.remove(f.name),
                        e,
                    )
                } else {
                    (done.push(f), left, None)
                },
                _ => (done.push(f), left, None),
            }
        }
    }
}

/// What setting a model from JSON gives when every submodel takes its own entry first.
pub open spec fn set_multi_recursive(m: ModelView, value: JsonView) -> (
    ModelView,
    Option<ErrorView>,
) {
    match value {
        JsonView::Object(entries) => {
            let (fields, left, e) = subs_set(m.fields, entries);
            let taken = ModelView { fields, ..m };
            if e is Some {
                (taken, e)
            } else {
                set_multi(taken, JsonView::Object(left))
            }
        },
        _ => (m, Some(ErrorView::BadValue("protected.set_multi() -- invalid JSON object"@))),
    }
}

/// How a model is called in messages.
pub open spec fn id_text(m: ModelView) -> Seq<char> {
    match m.id {
        Some(id) => id,
        None => "<no id>"@,
    }
}

/// What a model shows of itself when it is printed.
pub open spec fn debug(m: ModelView) -> Seq<char> {
    m.model_type + ": ("@ + id_text(m) + ")"@
}

pub open spec fn missing(start: Seq<char>, m: ModelView) -> Seq<char> {
    start + m.model_type + " model "@ + id_text(m)
}

/// The private data of a model as JSON.
pub open spec fn private_json(m: ModelView) -> JsonView {
    JsonView::Object(serializable(m, true))
}

/// The bytes of the JSON text of a value.
pub open spec fn json_bytes(j: JsonView) -> Seq<u8> {
    encode_utf8(json::json_written(j))
}

/// Why a model itself cannot be serialized, if it cannot.
pub open spec fn own_error(m: ModelView, available: bool) -> Option<ErrorView> {
    match m.key {
        None => Some(
            ErrorView::BadValue(
                missing("Protected::serialize() - missing `key` field for "@, m),
            ),
        ),
        Some(key) => match crate::crypto::encrypt_error(
            key,
            json_bytes(private_json(m)),
            available,
        ) {
            Some(e) => Some(ErrorView::Crypto(e)),
            None => None,
        },
    }
}

/// Why a field's submodel cannot be serialized, if it cannot.
pub open spec fn field_error(f: FieldView, available: bool) -> Option<ErrorView>
    decreases f,
{
    match f.slot {
        SlotView::Sub(_, Some(m)) => serialize_error(*m, available),
        _ => None,
    }
}

/// Why the first of the submodels that cannot be serialized cannot be, if there is one.
pub open spec fn fields_error(fields: Seq<FieldView>, available: bool) -> Option<ErrorView>
    decreases fields,
{
    if fields.len() == 0 {
        None
    } else {
        match fields_error(fields.drop_last(), available) {
            Some(e) => Some(e),
            None => field_error(fields.last(), available),
        }
    }
}

/// Why a model cannot be serialized, if it cannot: the submodels come first.
pub open spec fn serialize_error(m: ModelView, available: bool) -> Option<ErrorView>
    decreases m,
{
    match fields_error(m.fields, available) {
        Some(e) => Some(e),
        None => own_error(m, available),
    }
}

/// The body holds the value, encrypted with the key under some nonce.
pub open spec fn seals(body: Seq<char>, key: Seq<u8>, j: JsonView) -> bool {
    &&& exists|nonce: Seq<u8>|
        nonce.len() == crate::crypto::NONCE_LEN && body == crate::crypto::base64_written(
            #[trigger] crate::crypto::encrypted(key, nonce, json_bytes(j)),
        )
    &&& crate::crypto::base64_read(body) is Some
    &&& crate::crypto::decrypted(key, crate::crypto::base64_read(body)->0, true) == Ok::<
        Seq<u8>,
        CryptoError,
    >(json_bytes(j))
    &&& json::nested_at_most(j, json::MAX_NESTING as nat)
        ==> json::json_read(json::json_written(j)) == Some(j)
}

/// What serializing makes of a field's submodel.
pub open spec fn field_serialized(f: FieldView, g: FieldView, available: bool) -> bool
    decreases f,
{
    &&& g.name == f.name
    &&& g.class == f.class
    &&& match (f.slot, g.slot) {
        (SlotView::Sub(b, Some(m)), SlotView::Sub(c, Some(n))) => b == c && serialized(
            *m,
            *n,
            available,
        ),
        _ => f.slot == g.slot,
    }
}

/// What serializing makes of the submodels, in order: the first that fails leaves the
/// later ones as they are.
pub open spec fn fields_serialized(
    fields: Seq<FieldView>,
    after: Seq<FieldView>,
    available: bool,
) -> bool
    decreases fields,
{
    &&& after.len() == fields.len()
    &&& forall|i: int|
        0 <= i < fields.len() ==> if fields_error(fields.take(i), available) is None {
            field_serialized(fields[i], #[trigger] after[i], available)
        } else {
            after[i] == fields[i]
        }
}

/// What serializing makes of a model: the submodels are serialized, and the body holds
/// the private data. Nothing else changes, and where there is an error the body does
/// not either.
pub open spec fn serialized(m: ModelView, n: ModelView, available: bool) -> bool
    decreases m,
{
    &&& n.name == m.name
    &&& n.model_type == m.model_type
    &&& n.id == m.id
    &&& n.key == m.key
    &&& fields_serialized(m.fields, n.fields, available)
    &&& if serialize_error(m, available) is None {
        n.body is Some && m.key is Some && seals(n.body->0, m.key->0, private_json(m))
    } else {
        n.body == m.body
    }
}

/// The private data that the body holds, or why it cannot be had.
pub open spec fn body_opened(m: ModelView, available: bool) -> Result<JsonView, ErrorView> {
    match m.body {
        None => Err(
            ErrorView::MissingField(
                missing("Protected::deserialize() - missing `body` field for "@, m),
            ),
        ),
        Some(body) => match crate::crypto::base64_read(body) {
            None => Err(ErrorView::Crypto(CryptoError::Base64)),
            Some(bytes) => match m.key {
                None => Err(
                    ErrorView::BadValue(
                        missing("Protected::deserialize() - missing `key` field for "@, m),
                    ),
                ),
                Some(key) => match crate::crypto::decrypted(key, bytes, available) {
                    Err(e) => Err(ErrorView::Crypto(e)),
                    Ok(message) => if valid_utf8(message) {
                        match json::json_read(decode_utf8(message)) {
                            Some(j) => Ok(j),
                            None => Err(ErrorView::JsonParse),
                        }
                    } else {
                        Err(ErrorView::Utf8)
                    },
                },
            },
        },
    }
}

/// What deserializing makes of a field's submodel.
pub open spec fn field_deserialized(f: FieldView, available: bool) -> (
    FieldView,
    Option<ErrorView>,
)
    decreases f,
{
    match f.slot {
        SlotView::Sub(b, Some(m)) => {
            let (n, e) = deserialized(*m, available);
            (FieldView { slot: SlotView::Sub(b, Some(Box::new(n))), ..f }, e)
        },
        _ => (f, None),
    }
}

/// What deserializing makes of the submodels, in order: the first that fails leaves the
/// later ones as they are.
pub open spec fn fields_deserialized(fields: Seq<FieldView>, available: bool) -> (
    Seq<FieldView>,
    Option<ErrorView>,
)
    decreases fields,
{
    if fields.len() == 0 {
        (Seq::empty(), None)
    } else {
        let (done, e) = fields_deserialized(fields.drop_last(), available);
        if e is Some {
            (done.push(fields.last()), e)
        } else {
            let (f, e) = field_deserialized(fields.last(), available);
            (done.push(f), e)
        }
    }
}

/// What deserializing makes of a model, and why it stopped, if it did: the submodels
/// come first, then the private data in the body is set.
pub open spec fn deserialized(m: ModelView, available: bool) -> (ModelView, Option<ErrorView>)
    decreases m,
{
    let (fields, e) = fields_deserialized(m.fields, available);
    let inner = ModelView { fields, ..m };
    if e is Some {
        (inner, e)
    } else {
        match body_opened(inner, available) {
            Err(e) => (inner, Some(e)),
            Ok(j) => set_multi_recursive(inner, j),
        }
    }
}

} // verus!
