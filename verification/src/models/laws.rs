//! What holds of models as a whole, whatever is done with them.

use vstd::prelude::*;

use crate::json::JsonView;
use crate::models::content;
use crate::models::content::{Class, FieldView, ModelView, SlotView};
use crate::models::protected;

verus! {

/// The JSON names of the fields differ, and none is taken by the id or the body.
pub open spec fn distinct(fields: Seq<FieldView>) -> bool {
    &&& forall|i: int, j: int|
        #![trigger fields[i], fields[j]]
        0 <= i < j < fields.len() ==> content::json_name(fields[i].name) != content::json_name(
            fields[j].name,
        )
    &&& forall|i: int|
        0 <= i < fields.len() ==> content::json_name((#[trigger] fields[i]).name) != "id"@
            && content::json_name(fields[i].name) != "body"@
}

/// A model as the kinds of model are built: the names of its fields differ, and each
/// value and each submodel is of the type or the kind that its field is for.
pub open spec fn well_formed(m: ModelView) -> bool
    decreases m,
{
    &&& distinct(m.fields)
    &&& forall|i: int| 0 <= i < m.fields.len() ==> field_well_formed(#[trigger] m.fields[i])
}

/// The value or the submodel of a field is of the type or the kind that the field is for.
pub open spec fn field_well_formed(f: FieldView) -> bool
    decreases f,
{
    match f.slot {
        SlotView::Plain(kind, value) => content::value_fits(kind, value),
        SlotView::Sub(b, current) => {
            &&& well_formed(*b)
            &&& content::blank(*b) == *b
            &&& current matches Some(m) ==> well_formed(*m) && content::blank(*m) == *b
        },
    }
}

/// Two sequences of fields are of one kind: name by name, class by class, and with the
/// same blank submodels.
pub open spec fn same_kind(fields: Seq<FieldView>, after: Seq<FieldView>) -> bool {
    &&& after.len() == fields.len()
    &&& forall|i: int|
        0 <= i < fields.len() ==> content::field_blank(#[trigger] after[i])
            == content::field_blank(fields[i])
}

/// The submodels of fields are of the kinds that the fields are for.
pub open spec fn subs_well_formed(fields: Seq<FieldView>) -> bool {
    forall|i: int| 0 <= i < fields.len() ==> field_well_formed(#[trigger] fields[i])
}

/// A blank model of a blank model's kind is the blank model.
pub proof fn blank_is_blank(m: ModelView)
    ensures
        content::blank(content::blank(m)) == content::blank(m),
{
    let b = content::blank(m);
    assert forall|i: int| 0 <= i < m.fields.len() implies content::field_blank(
        #[trigger] b.fields[i],
    ) == b.fields[i] by {
        assert(b.fields[i] == content::field_blank(m.fields[i]));
    }
    assert(content::blank(b).fields =~= b.fields);
}

/// Fields of one kind make models of one kind.
pub(crate) proof fn kind_of_fields(m: ModelView, n: ModelView)
    requires
        n.name == m.name,
        n.model_type == m.model_type,
        same_kind(m.fields, n.fields),
    ensures
        content::blank(n) == content::blank(m),
        distinct(m.fields) ==> distinct(n.fields),
{
    assert(content::blank(n).fields =~= content::blank(m).fields) by {
        assert forall|i: int| 0 <= i < m.fields.len() implies #[trigger] content::blank(n).fields[i]
            == content::blank(m).fields[i] by {
            assert(content::field_blank(n.fields[i]) == content::field_blank(m.fields[i]));
        }
    }
    assert forall|i: int| 0 <= i < m.fields.len() implies (#[trigger] n.fields[i]).name
        == m.fields[i].name by {
        assert(content::field_blank(n.fields[i]).name == content::field_blank(m.fields[i]).name);
    }
    if distinct(m.fields) {
        assert forall|i: int, j: int|
            #![trigger n.fields[i], n.fields[j]]
            0 <= i < j < n.fields.len() implies content::json_name(n.fields[i].name)
            != content::json_name(n.fields[j].name) by {
            assert(m.fields[i].name == n.fields[i].name);
            assert(m.fields[j].name == n.fields[j].name);
        }
        assert forall|i: int| 0 <= i < n.fields.len() implies content::json_name(
            (#[trigger] n.fields[i]).name,
        ) != "id"@ && content::json_name(n.fields[i].name) != "body"@ by {
            assert(m.fields[i].name == n.fields[i].name);
        }
    }
}

/// A new kind of model is well-formed, and so is a blank model of a well-formed one.
pub proof fn building_starts_well_formed(m: ModelView)
    ensures
        m.fields.len() == 0 ==> well_formed(m),
        well_formed(m) ==> well_formed(content::blank(m)),
{
    if well_formed(m) {
        let b = content::blank(m);
        blank_is_blank(m);
        assert forall|i: int| 0 <= i < m.fields.len() implies content::field_blank(
            #[trigger] b.fields[i],
        ) == content::field_blank(m.fields[i]) && field_well_formed(b.fields[i]) by {
            assert(b.fields[i] == content::field_blank(m.fields[i]));
            assert(field_well_formed(m.fields[i]));
        }
        kind_of_fields(m, b);
    }
}

/// A well-formed model stays well-formed with one more field of a new name, with a value
/// or with a submodel of a well-formed kind.
pub proof fn building_keeps_well_formed(m: ModelView, f: FieldView)
    requires
        well_formed(m),
        field_well_formed(f),
        content::json_name(f.name) != "id"@,
        content::json_name(f.name) != "body"@,
        forall|i: int|
            0 <= i < m.fields.len() ==> content::json_name((#[trigger] m.fields[i]).name)
                != content::json_name(f.name),
    ensures
        well_formed(ModelView { fields: m.fields.push(f), ..m }),
{
    let fields = m.fields.push(f);
    assert forall|i: int| 0 <= i < fields.len() implies field_well_formed(#[trigger] fields[i]) by {
        if i < m.fields.len() {
            assert(fields[i] == m.fields[i]);
        }
    }
    assert forall|i: int, j: int|
        #![trigger fields[i], fields[j]]
        0 <= i < j < fields.len() implies content::json_name(fields[i].name) != content::json_name(
        fields[j].name,
    ) by {
        assert(fields[i] == m.fields[i]);
        if j < m.fields.len() {
            assert(fields[j] == m.fields[j]);
        }
    }
    assert forall|i: int| 0 <= i < fields.len() implies content::json_name(
        (#[trigger] fields[i]).name,
    ) != "id"@ && content::json_name(fields[i].name) != "body"@ by {
        if i < m.fields.len() {
            assert(fields[i] == m.fields[i]);
        }
    }
}

/// Setting a value of a field's type keeps a model well-formed and of its kind.
pub proof fn set_field_keeps(m: ModelView, i: int, value: Option<JsonView>)
    requires
        well_formed(m),
        0 <= i < m.fields.len(),
        m.fields[i].slot is Plain,
        content::value_fits(m.fields[i].slot->Plain_0, value),
    ensures
        well_formed(content::value_set(m, i, value)),
        content::blank(content::value_set(m, i, value)) == content::blank(m),
{
    let n = content::value_set(m, i, value);
    assert forall|j: int| 0 <= j < m.fields.len() implies content::field_blank(
        #[trigger] n.fields[j],
    ) == content::field_blank(m.fields[j]) && field_well_formed(n.fields[j]) by {
        assert(field_well_formed(m.fields[j]));
    }
    kind_of_fields(m, n);
}

/// Setting a model from any JSON, whether it stops or not, keeps it well-formed and of
/// its kind.
pub proof fn set_multi_keeps(m: ModelView, value: JsonView)
    requires
        well_formed(m),
    ensures
        well_formed(content::set_multi(m, value).0),
        content::blank(content::set_multi(m, value).0) == content::blank(m),
    decreases m,
{
    match value {
        JsonView::Object(entries) => {
            fields_set_keeps(m.fields, entries);
            kind_of_fields(m, content::set_multi(m, value).0);
        },
        _ => {},
    }
}

proof fn fields_set_keeps(fields: Seq<FieldView>, entries: Map<Seq<char>, JsonView>)
    requires
        subs_well_formed(fields),
    ensures
        same_kind(fields, content::fields_set(fields, entries).0),
        subs_well_formed(content::fields_set(fields, entries).0),
    decreases fields,
{
    if fields.len() > 0 {
        let rest = fields.drop_last();
        assert forall|i: int| 0 <= i < rest.len() implies field_well_formed(#[trigger] rest[i]) by {
            assert(rest[i] == fields[i]);
        }
        fields_set_keeps(rest, entries);
        assert(fields[fields.len() - 1] == fields.last());
        field_set_keeps(fields.last(), entries);
        let after = content::fields_set(fields, entries).0;
        let done = content::fields_set(rest, entries).0;
        assert forall|i: int| 0 <= i < fields.len() implies content::field_blank(
            #[trigger] after[i],
        ) == content::field_blank(fields[i]) && field_well_formed(after[i]) by {
            if i < rest.len() {
                assert(after[i] == done[i]);
                assert(rest[i] == fields[i]);
            }
        }
    }
}

proof fn field_set_keeps(f: FieldView, entries: Map<Seq<char>, JsonView>)
    requires
        field_well_formed(f),
    ensures
        field_well_formed(content::field_set(f, entries).0),
        content::field_blank(content::field_set(f, entries).0) == content::field_blank(f),
    decreases f,
{
    if f.class != Class::Extra && entries.dom().contains(content::json_name(f.name)) {
        let v = entries[content::json_name(f.name)];
        match f.slot {
            SlotView::Plain(_, _) => {},
            SlotView::Sub(b, Some(m)) => {
                set_multi_keeps(*m, v);
            },
            SlotView::Sub(b, None) => {
                set_multi_keeps(*b, v);
            },
        }
    }
}

proof fn subs_set_keeps(fields: Seq<FieldView>, entries: Map<Seq<char>, JsonView>)
    requires
        subs_well_formed(fields),
    ensures
        same_kind(fields, content::subs_set(fields, entries).0),
        subs_well_formed(content::subs_set(fields, entries).0),
    decreases fields.len(),
{
    if fields.len() > 0 {
        let rest = fields.drop_last();
        let f = fields.last();
        assert forall|i: int| 0 <= i < rest.len() implies field_well_formed(#[trigger] rest[i]) by {
            assert(rest[i] == fields[i]);
        }
        subs_set_keeps(rest, entries);
        assert(fields[fields.len() - 1] == f);
        let (done, left, _) = content::subs_set(rest, entries);
        match f.slot {
            SlotView::Sub(b, Some(m)) => {
                set_multi_keeps(*m, left[f.name]);
            },
            SlotView::Sub(b, None) => {
                set_multi_keeps(*b, left[f.name]);
            },
            _ => {},
        }
        let after = content::subs_set(fields, entries).0;
        assert forall|i: int| 0 <= i < fields.len() implies content::field_blank(
            #[trigger] after[i],
        ) == content::field_blank(fields[i]) && field_well_formed(after[i]) by {
            if i < rest.len() {
                assert(after[i] == done[i]);
                assert(rest[i] == fields[i]);
            }
        }
    }
}

/// Setting a model and its submodels from any JSON, whether it stops or not, keeps the
/// model well-formed and of its kind.
pub proof fn set_multi_recursive_keeps(m: ModelView, value: JsonView)
    requires
        well_formed(m),
    ensures
        well_formed(content::set_multi_recursive(m, value).0),
        content::blank(content::set_multi_recursive(m, value).0) == content::blank(m),
{
    match value {
        JsonView::Object(entries) => {
            let (fields, left, _) = content::subs_set(m.fields, entries);
            let taken = ModelView { fields, ..m };
            subs_set_keeps(m.fields, entries);
            kind_of_fields(m, taken);
            set_multi_keeps(taken, JsonView::Object(left));
        },
        _ => {},
    }
}

/// Setting the key, or that there is none, keeps a model well-formed and of its kind.
pub proof fn keyed_keeps(m: ModelView, key: Option<Seq<u8>>)
    requires
        well_formed(m),
    ensures
        well_formed(content::keyed(m, key)),
        content::blank(content::keyed(m, key)) == content::blank(m),
    decreases m,
{
    let n = content::keyed(m, key);
    match key {
        Some(k) => {
            assert forall|i: int| 0 <= i < m.fields.len() implies content::field_blank(
                #[trigger] n.fields[i],
            ) == content::field_blank(m.fields[i]) && field_well_formed(n.fields[i]) by {
                let f = m.fields[i];
                assert(n.fields[i] == content::field_keyed(f, k));
                match f.slot {
                    SlotView::Sub(_, Some(sub)) => {
                        keyed_keeps(*sub, key);
                    },
                    _ => {},
                }
            }
        },
        None => {},
    }
    kind_of_fields(m, n);
}

/// Serializing a model, whether it fails or not, keeps it well-formed and of its kind.
pub proof fn serialized_keeps(m: ModelView, n: ModelView, available: bool)
    requires
        well_formed(m),
        content::serialized(m, n, available),
    ensures
        well_formed(n),
        content::blank(n) == content::blank(m),
    decreases m,
{
    assert forall|i: int| 0 <= i < m.fields.len() implies content::field_blank(
        #[trigger] n.fields[i],
    ) == content::field_blank(m.fields[i]) && field_well_formed(n.fields[i]) by {
        let f = m.fields[i];
        if content::fields_error(m.fields.take(i), available) is None {
            match (f.slot, n.fields[i].slot) {
                (SlotView::Sub(_, Some(sub)), SlotView::Sub(_, Some(after))) => {
                    serialized_keeps(*sub, *after, available);
                },
                _ => {},
            }
        }
    }
    kind_of_fields(m, n);
}

pub(crate) proof fn fields_deserialized_keeps(fields: Seq<FieldView>, available: bool)
    requires
        subs_well_formed(fields),
    ensures
        same_kind(fields, content::fields_deserialized(fields, available).0),
        subs_well_formed(content::fields_deserialized(fields, available).0),
    decreases fields,
{
    if fields.len() > 0 {
        let rest = fields.drop_last();
        let f = fields.last();
        assert forall|i: int| 0 <= i < rest.len() implies field_well_formed(#[trigger] rest[i]) by {
            assert(rest[i] == fields[i]);
        }
        fields_deserialized_keeps(rest, available);
        assert(fields[fields.len() - 1] == f);
        match f.slot {
            SlotView::Sub(_, Some(m)) => {
                deserialized_keeps(*m, available);
            },
            _ => {},
        }
        let g = content::field_deserialized(f, available).0;
        assert(content::field_blank(g) == content::field_blank(f) && field_well_formed(g));
        let after = content::fields_deserialized(fields, available).0;
        let done = content::fields_deserialized(rest, available).0;
        assert forall|i: int| 0 <= i < fields.len() implies content::field_blank(
            #[trigger] after[i],
        ) == content::field_blank(fields[i]) && field_well_formed(after[i]) by {
            if i < rest.len() {
                assert(after[i] == done[i]);
                assert(rest[i] == fields[i]);
            }
        }
    }
}

/// Deserializing a model, whether it fails or not, keeps it well-formed and of its kind.
pub proof fn deserialized_keeps(m: ModelView, available: bool)
    requires
        well_formed(m),
    ensures
        well_formed(content::deserialized(m, available).0),
        content::blank(content::deserialized(m, available).0) == content::blank(m),
    decreases m,
{
    fields_deserialized_keeps(m.fields, available);
    let inner = ModelView {
        fields: content::fields_deserialized(m.fields, available).0,
        ..m
    };
    kind_of_fields(m, inner);
    match content::body_opened(inner, available) {
        Ok(j) => {
            set_multi_recursive_keeps(inner, j);
        },
        Err(_) => {},
    }
}

/// The key is on the model and on every submodel in it, at any depth.
pub open spec fn keyed_throughout(m: ModelView, key: Seq<u8>) -> bool
    decreases m,
{
    &&& m.key == Some(key)
    &&& forall|i: int|
        0 <= i < m.fields.len() ==> field_keyed_throughout(#[trigger] m.fields[i], key)
}

/// The key is on the submodel of the field, and on every submodel in that.
pub open spec fn field_keyed_throughout(f: FieldView, key: Seq<u8>) -> bool
    decreases f,
{
    f.slot matches SlotView::Sub(_, Some(m)) ==> keyed_throughout(*m, key)
}

/// A key that is set is on the model and on every submodel in it, and setting another
/// leaves nothing of the first.
pub proof fn key_reaches_every_submodel(m: ModelView, first: Seq<u8>, key: Seq<u8>)
    ensures
        keyed_throughout(content::keyed(m, Some(key)), key),
        content::keyed(content::keyed(m, Some(first)), Some(key)) == content::keyed(m, Some(key)),
    decreases m,
{
    let n = content::keyed(m, Some(key));
    let once = content::keyed(m, Some(first));
    let twice = content::keyed(once, Some(key));
    assert forall|i: int| 0 <= i < m.fields.len() implies field_keyed_throughout(
        #[trigger] n.fields[i],
        key,
    ) && twice.fields[i] == n.fields[i] by {
        let f = m.fields[i];
        assert(n.fields[i] == content::field_keyed(f, key));
        assert(once.fields[i] == content::field_keyed(f, first));
        assert(twice.fields[i] == content::field_keyed(once.fields[i], key));
        match f.slot {
            SlotView::Sub(_, Some(sub)) => {
                key_reaches_every_submodel(*sub, first, key);
            },
            _ => {},
        }
    }
    assert(twice.fields =~= n.fields);
}

/// Two fields look the same from outside: all data of them, and what they show in
/// private and in public.
spec fn alike(f: FieldView, g: FieldView) -> bool {
    &&& f.name == g.name
    &&& f.class == g.class
    &&& content::slot_data(f.slot) == content::slot_data(g.slot)
    &&& content::shown(f, true) == content::shown(g, true)
    &&& content::shown(f, false) == content::shown(g, false)
}

proof fn alike_fields(fields: Seq<FieldView>, after: Seq<FieldView>)
    requires
        after.len() == fields.len(),
        forall|i: int| 0 <= i < fields.len() ==> alike(fields[i], #[trigger] after[i]),
    ensures
        content::fields_data(after) == content::fields_data(fields),
        content::fields_shown(after, true) == content::fields_shown(fields, true),
        content::fields_shown(after, false) == content::fields_shown(fields, false),
    decreases fields.len(),
{
    if fields.len() > 0 {
        assert forall|i: int| 0 <= i < fields.len() - 1 implies alike(
            fields.drop_last()[i],
            #[trigger] after.drop_last()[i],
        ) by {
            assert(alike(fields[i], after[i]));
        }
        alike_fields(fields.drop_last(), after.drop_last());
        assert(alike(fields[fields.len() - 1], after[fields.len() - 1]));
    }
}

/// The key shows nowhere: whatever key is set, or that there is none, all data, the
/// private data and the public data are the same.
pub proof fn key_is_not_shown(m: ModelView, key: Option<Seq<u8>>)
    ensures
        content::data(content::keyed(m, key)) == content::data(m),
        content::serializable(content::keyed(m, key), true) == content::serializable(m, true),
        content::serializable(content::keyed(m, key), false) == content::serializable(m, false),
    decreases m,
{
    let n = content::keyed(m, key);
    match key {
        Some(k) => {
            assert forall|i: int| 0 <= i < m.fields.len() implies alike(
                m.fields[i],
                #[trigger] n.fields[i],
            ) by {
                let f = m.fields[i];
                assert(n.fields[i] == content::field_keyed(f, k));
                match f.slot {
                    SlotView::Sub(_, Some(sub)) => {
                        key_is_not_shown(*sub, key);
                    },
                    _ => {},
                }
            }
            alike_fields(m.fields, n.fields);
        },
        None => {},
    }
}

/// The model without its body and without those of its submodels, at any depth.
pub open spec fn bodiless(m: ModelView) -> ModelView
    decreases m,
{
    ModelView { body: None, fields: fields_bodiless(m.fields), ..m }
}

/// The fields with their submodels without bodies.
pub open spec fn fields_bodiless(fields: Seq<FieldView>) -> Seq<FieldView>
    decreases fields,
{
    Seq::new(
        fields.len(),
        |i: int|
            if 0 <= i < fields.len() {
                field_bodiless(fields[i])
            } else {
                arbitrary()
            },
    )
}

/// The field with its submodel without bodies.
pub open spec fn field_bodiless(f: FieldView) -> FieldView
    decreases f,
{
    match f.slot {
        SlotView::Sub(b, Some(m)) => FieldView {
            slot: SlotView::Sub(b, Some(Box::new(bodiless(*m)))),
            ..f
        },
        _ => f,
    }
}

/// Serializing, whether it fails or not, changes bodies and nothing else.
pub proof fn serialize_changes_bodies_only(m: ModelView, n: ModelView, available: bool)
    requires
        content::serialized(m, n, available),
    ensures
        bodiless(n) == bodiless(m),
    decreases m,
{
    assert forall|i: int| 0 <= i < m.fields.len() implies #[trigger] bodiless(n).fields[i]
        == bodiless(m).fields[i] by {
        let f = m.fields[i];
        let g = n.fields[i];
        assert(bodiless(m).fields[i] == field_bodiless(f));
        assert(bodiless(n).fields[i] == field_bodiless(g));
        if content::fields_error(m.fields.take(i), available) is None {
            match (f.slot, g.slot) {
                (SlotView::Sub(_, Some(sub)), SlotView::Sub(_, Some(after))) => {
                    serialize_changes_bodies_only(*sub, *after, available);
                },
                _ => {},
            }
        }
    }
    assert(bodiless(n).fields =~= bodiless(m).fields);
}

/// A name under which fields show something is the JSON name of one that does.
pub(crate) proof fn shown_from(fields: Seq<FieldView>, private: bool, name: Seq<char>) -> (i: int)
    requires
        content::fields_shown(fields, private).dom().contains(name),
    ensures
        0 <= i < fields.len(),
        content::json_name(fields[i].name) == name,
        content::shown(fields[i], private) is Some,
    decreases fields.len(),
{
    let f = fields.last();
    if content::json_name(f.name) == name && content::shown(f, private) is Some {
        fields.len() - 1
    } else {
        shown_from(fields.drop_last(), private, name)
    }
}

/// What a field shows stands under its JSON name, and where it shows nothing nothing
/// stands there.
pub(crate) proof fn shown_at(fields: Seq<FieldView>, private: bool, i: int)
    requires
        distinct(fields),
        0 <= i < fields.len(),
    ensures
        content::fields_shown(fields, private).dom().contains(content::json_name(fields[i].name))
            == (content::shown(fields[i], private) is Some),
        content::shown(fields[i], private) matches Some(v) ==> content::fields_shown(
            fields,
            private,
        )[content::json_name(fields[i].name)] == v,
    decreases fields.len(),
{
    let rest = fields.drop_last();
    let name = content::json_name(fields[i].name);
    let last = fields.len() - 1;
    assert(fields[last] == fields.last());
    if i < last {
        assert(rest[i] == fields[i]);
        assert(distinct(rest));
        shown_at(rest, private, i);
        assert(content::json_name(fields[last].name) != name);
    } else if content::fields_shown(rest, private).dom().contains(name) {
        let j = shown_from(rest, private, name);
        assert(rest[j] == fields[j]);
    }
}

/// The storage shows nothing under the name of a value that is not public, whether it is
/// private or extra: neither its content nor that there is one.
pub proof fn storage_hides_what_is_not_public(m: ModelView, i: int)
    requires
        well_formed(m),
        0 <= i < m.fields.len(),
        m.fields[i].slot is Plain,
        m.fields[i].class != Class::Public,
    ensures
        !content::serializable(m, false).dom().contains(content::json_name(m.fields[i].name)),
{
    shown_at(m.fields, false, i);
}

/// Two models agree in all that is public: id, body, public values, and so on in their
/// submodels.
pub open spec fn same_public(m: ModelView, n: ModelView) -> bool
    decreases m,
{
    &&& n.id == m.id
    &&& n.body == m.body
    &&& n.fields.len() == m.fields.len()
    &&& forall|i: int|
        0 <= i < m.fields.len() ==> field_same_public(m.fields[i], #[trigger] n.fields[i])
}

/// Two fields agree in all that is public.
pub open spec fn field_same_public(f: FieldView, g: FieldView) -> bool
    decreases f,
{
    &&& g.name == f.name
    &&& g.class == f.class
    &&& match (f.slot, g.slot) {
        (SlotView::Plain(_, v), SlotView::Plain(_, w)) => f.class == Class::Public ==> v == w,
        (SlotView::Sub(_, Some(m)), SlotView::Sub(_, Some(n))) => same_public(*m, *n),
        (SlotView::Sub(_, None), SlotView::Sub(_, None)) => true,
        _ => false,
    }
}

/// The storage of two models that agree in all that is public is the same: outside of the
/// body it tells nothing about private values, extra values, or the key.
pub proof fn storage_depends_on_public_only(m: ModelView, n: ModelView)
    requires
        same_public(m, n),
    ensures
        content::serializable(n, false) == content::serializable(m, false),
    decreases m, 1int,
{
    fields_same_public(m.fields, n.fields);
}

proof fn fields_same_public(fields: Seq<FieldView>, others: Seq<FieldView>)
    requires
        others.len() == fields.len(),
        forall|i: int|
            0 <= i < fields.len() ==> field_same_public(fields[i], #[trigger] others[i]),
    ensures
        content::fields_shown(others, false) == content::fields_shown(fields, false),
    decreases fields, 0int,
{
    if fields.len() > 0 {
        let last = fields.len() - 1;
        let f = fields.last();
        let g = others.last();
        assert forall|i: int| 0 <= i < last implies field_same_public(
            fields.drop_last()[i],
            #[trigger] others.drop_last()[i],
        ) by {
            assert(field_same_public(fields[i], others[i]));
        }
        fields_same_public(fields.drop_last(), others.drop_last());
        assert(field_same_public(fields[last], others[last]));
        match (f.slot, g.slot) {
            (SlotView::Sub(_, Some(m)), SlotView::Sub(_, Some(n))) => {
                storage_depends_on_public_only(*m, *n);
            },
            _ => {},
        }
        assert(content::shown(g, false) == content::shown(f, false));
    }
}

/// A name under which fields have data is the JSON name of one that is not extra.
pub(crate) proof fn data_from(fields: Seq<FieldView>, name: Seq<char>) -> (i: int)
    requires
        content::fields_data(fields).dom().contains(name),
    ensures
        0 <= i < fields.len(),
        content::json_name(fields[i].name) == name,
        fields[i].class != Class::Extra,
    decreases fields.len(),
{
    let f = fields.last();
    if content::json_name(f.name) == name && f.class != Class::Extra {
        fields.len() - 1
    } else {
        data_from(fields.drop_last(), name)
    }
}

/// The data of a field stand under its JSON name, unless it is extra.
pub(crate) proof fn data_at(fields: Seq<FieldView>, i: int)
    requires
        distinct(fields),
        0 <= i < fields.len(),
    ensures
        content::fields_data(fields).dom().contains(content::json_name(fields[i].name)) == (
        fields[i].class != Class::Extra),
        fields[i].class != Class::Extra ==> content::fields_data(fields)[content::json_name(
            fields[i].name,
        )] == content::slot_data(fields[i].slot),
    decreases fields.len(),
{
    let rest = fields.drop_last();
    let name = content::json_name(fields[i].name);
    let last = fields.len() - 1;
    assert(fields[last] == fields.last());
    if i < last {
        assert(rest[i] == fields[i]);
        assert(distinct(rest));
        data_at(rest, i);
        assert(content::json_name(fields[last].name) != name);
    } else if content::fields_data(rest).dom().contains(name) {
        let j = data_from(rest, name);
        assert(rest[j] == fields[j]);
    }
}

/// The names of a class are the JSON names of the fields of the class.
pub(crate) proof fn class_names_hold(fields: Seq<FieldView>, class: Class, name: Seq<char>)
    ensures
        content::class_names(fields, class).contains(name) <==> exists|i: int|
            0 <= i < fields.len() && (#[trigger] fields[i]).class == class && content::json_name(
                fields[i].name,
            ) == name,
    decreases fields.len(),
{
    if fields.len() > 0 {
        let rest = fields.drop_last();
        let last = fields.len() - 1;
        class_names_hold(rest, class, name);
        assert(fields[last] == fields.last());
        protected::lemma_push_contains(
            content::class_names(rest, class),
            content::json_name(fields.last().name),
            name,
        );
        if content::class_names(rest, class).contains(name) {
            let i = choose|i: int|
                0 <= i < rest.len() && (#[trigger] rest[i]).class == class && content::json_name(
                    rest[i].name,
                ) == name;
            assert(fields[i] == rest[i]);
        }
        if exists|i: int|
            0 <= i < fields.len() && (#[trigger] fields[i]).class == class && content::json_name(
                fields[i].name,
            ) == name {
            let i = choose|i: int|
                0 <= i < fields.len() && (#[trigger] fields[i]).class == class
                    && content::json_name(fields[i].name) == name;
            if i < last {
                assert(rest[i] == fields[i]);
            }
        }
    }
}

/// The names of the submodels are the JSON names of the fields that hold them.
pub(crate) proof fn sub_names_hold(fields: Seq<FieldView>, name: Seq<char>)
    ensures
        content::sub_names(fields).contains(name) <==> exists|i: int|
            0 <= i < fields.len() && (#[trigger] fields[i]).slot is Sub && content::json_name(
                fields[i].name,
            ) == name,
    decreases fields.len(),
{
    if fields.len() > 0 {
        let rest = fields.drop_last();
        let last = fields.len() - 1;
        sub_names_hold(rest, name);
        assert(fields[last] == fields.last());
        protected::lemma_push_contains(
            content::sub_names(rest),
            content::json_name(fields.last().name),
            name,
        );
        if content::sub_names(rest).contains(name) {
            let i = choose|i: int|
                0 <= i < rest.len() && (#[trigger] rest[i]).slot is Sub && content::json_name(
                    rest[i].name,
                ) == name;
            assert(fields[i] == rest[i]);
        }
        if exists|i: int|
            0 <= i < fields.len() && (#[trigger] fields[i]).slot is Sub && content::json_name(
                fields[i].name,
            ) == name {
            let i = choose|i: int|
                0 <= i < fields.len() && (#[trigger] fields[i]).slot is Sub && content::json_name(
                    fields[i].name,
                ) == name;
            if i < last {
                assert(rest[i] == fields[i]);
            }
        }
    }
}

/// The data of a model stand under the public and the private names, and under no others:
/// extra fields are in none of them. No name is both.
pub proof fn names_are_public_or_private(m: ModelView, name: Seq<char>)
    requires
        well_formed(m),
    ensures
        content::data(m).dom().contains(name) == (protected::public_names(m).contains(name)
            || protected::private_names(m).contains(name)),
        !(protected::public_names(m).contains(name) && protected::private_names(m).contains(name)),
{
    let fields = m.fields;
    class_names_hold(fields, Class::Public, name);
    class_names_hold(fields, Class::Private, name);
    public_names_hold(m, name);
    if content::fields_data(fields).dom().contains(name) {
        let i = data_from(fields, name);
        assert(fields[i].class == Class::Public || fields[i].class == Class::Private);
    }
    assert forall|i: int|
        0 <= i < fields.len() && content::json_name((#[trigger] fields[i]).name) == name
            && fields[i].class
            != Class::Extra implies content::fields_data(fields).dom().contains(name) by {
        data_at(fields, i);
    }
}

/// What the first submodel of a name shows.
pub(crate) proof fn sub_shown_at(fields: Seq<FieldView>, private: bool, i: int)
    requires
        distinct(fields),
        0 <= i < fields.len(),
        fields[i].slot is Sub,
    ensures
        content::sub_shown(fields, content::json_name(fields[i].name), private) == content::shown(
            fields[i],
            private,
        ),
    decreases fields.len(),
{
    let rest = fields.drop_last();
    let last = fields.len() - 1;
    let name = content::json_name(fields[i].name);
    assert(fields[last] == fields.last());
    if i < last {
        assert(rest[i] == fields[i]);
        assert(distinct(rest));
        sub_shown_at(rest, private, i);
    } else if content::sub_shown(rest, name, private) is Some {
        let j = sub_shown_from(rest, name, private);
        assert(rest[j] == fields[j]);
    }
}

/// A name by which a submodel shows something is that of a submodel.
pub(crate) proof fn sub_shown_from(fields: Seq<FieldView>, name: Seq<char>, private: bool) -> (i:
    int)
    requires
        content::sub_shown(fields, name, private) is Some,
    ensures
        0 <= i < fields.len(),
        content::json_name(fields[i].name) == name,
        fields[i].slot is Sub,
    decreases fields.len(),
{
    if content::sub_shown(fields.drop_last(), name, private) is Some {
        sub_shown_from(fields.drop_last(), name, private)
    } else {
        fields.len() - 1
    }
}

/// What a model shows in private or in public is what stands in its data under the private
/// or the public names, with what each submodel shows in place of all data of it.
pub proof fn shown_is_selected_with_submodels(m: ModelView, private: bool, name: Seq<char>)
    requires
        well_formed(m),
    ensures
        ({
            let names = if private {
                protected::private_names(m)
            } else {
                protected::public_names(m)
            };
            let chosen = protected::selected(content::data(m), names);
            let all = content::serializable(m, private);
            if content::sub_names(m.fields).contains(name) {
                &&& all.dom().contains(name)
                &&& content::sub_shown(m.fields, name, private) == Some(all[name])
            } else {
                &&& all.dom().contains(name) == chosen.dom().contains(name)
                &&& all.dom().contains(name) ==> all[name] == chosen[name]
            }
        }),
{
    let fields = m.fields;
    let wanted = if private {
        Class::Private
    } else {
        Class::Public
    };
    let all = content::serializable(m, private);
    names_are_public_or_private(m, name);
    sub_names_hold(fields, name);
    class_names_hold(fields, wanted, name);
    if exists|i: int|
        0 <= i < fields.len() && content::json_name((#[trigger] fields[i]).name) == name {
        let i = choose|i: int|
            0 <= i < fields.len() && content::json_name((#[trigger] fields[i]).name) == name;
        shown_at(fields, private, i);
        data_at(fields, i);
        if fields[i].slot is Sub {
            sub_shown_at(fields, private, i);
        } else {
            assert(!content::sub_names(fields).contains(name));
            assert(content::class_names(fields, wanted).contains(name) == (fields[i].class
                == wanted));
            public_names_hold(m, name);
        }
    } else {
        if content::fields_shown(fields, private).dom().contains(name) {
            let i = shown_from(fields, private, name);
            assert(content::json_name(fields[i].name) == name);
        }
        if content::fields_data(fields).dom().contains(name) {
            let i = data_from(fields, name);
            assert(content::json_name(fields[i].name) == name);
        }
        public_names_hold(m, name);
    }
}

/// The public names are the id, the body and the names of the public fields.
proof fn public_names_hold(m: ModelView, name: Seq<char>)
    ensures
        protected::public_names(m).contains(name) == (name == "id"@ || name == "body"@
            || content::class_names(m.fields, Class::Public).contains(name)),
{
    let public = content::class_names(m.fields, Class::Public);
    let all = protected::public_names(m);
    if public.contains(name) {
        let i = choose|i: int| 0 <= i < public.len() && public[i] == name;
        assert(all[i + 2] == name);
    }
    assert(all[0] == "id"@);
    assert(all[1] == "body"@);
    if all.contains(name) {
        let i = choose|i: int| 0 <= i < all.len() && all[i] == name;
        if i >= 2 {
            assert(public[i - 2] == name);
        }
    }
}

/// A model without a key can be neither serialized nor deserialized.
pub proof fn key_is_needed(m: ModelView, available: bool)
    requires
        m.key is None,
    ensures
        content::serialize_error(m, available) is Some,
        content::deserialized(m, available).1 is Some,
{
}

/// The private data of the model and of every submodel in it fit under one nonce.
pub open spec fn fits(m: ModelView) -> bool
    decreases m,
{
    &&& content::json_bytes(content::private_json(m)).len() <= crate::crypto::MAX_MESSAGE
    &&& forall|i: int| 0 <= i < m.fields.len() ==> field_fits(#[trigger] m.fields[i])
}

/// The private data of the submodel of the field, and of every one in that, fit.
pub open spec fn field_fits(f: FieldView) -> bool
    decreases f,
{
    f.slot matches SlotView::Sub(_, Some(m)) ==> fits(*m)
}

/// Where there is the cipher, a model with a key of the right length throughout can be
/// serialized, unless its private data are too long for the cipher.
pub proof fn key_is_enough_to_serialize(m: ModelView, key: Seq<u8>)
    requires
        keyed_throughout(m, key),
        key.len() == crate::crypto::KEY_LEN,
        fits(m),
    ensures
        content::serialize_error(m, true) is None,
    decreases m,
{
    subs_serialize(m.fields, key);
}

proof fn subs_serialize(fields: Seq<FieldView>, key: Seq<u8>)
    requires
        key.len() == crate::crypto::KEY_LEN,
        forall|i: int| 0 <= i < fields.len() ==> field_fits(#[trigger] fields[i]),
        forall|i: int|
            0 <= i < fields.len() ==> field_keyed_throughout(#[trigger] fields[i], key),
    ensures
        content::fields_error(fields, true) is None,
    decreases fields,
{
    if fields.len() > 0 {
        let rest = fields.drop_last();
        let f = fields.last();
        assert(fields[fields.len() - 1] == f);
        assert forall|i: int| 0 <= i < rest.len() implies field_fits(#[trigger] rest[i])
            && field_keyed_throughout(rest[i], key) by {
            assert(rest[i] == fields[i]);
        }
        subs_serialize(rest, key);
        match f.slot {
            SlotView::Sub(_, Some(m)) => {
                key_is_enough_to_serialize(*m, key);
            },
            _ => {},
        }
        assert(content::field_error(f, true) is None);
    }
}

/// Printing a model tells its type and its id, and nothing else.
pub proof fn printing_tells_type_and_id(m: ModelView, n: ModelView)
    requires
        n.model_type == m.model_type,
        n.id == m.id,
    ensures
        content::debug(n) == content::debug(m),
{
}

} // verus!
