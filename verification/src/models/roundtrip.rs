//! What was serialized and stored comes back when it is read and deserialized.

use vstd::prelude::*;
use vstd::utf8::*;

use crate::error::ErrorView;
use crate::json;
use crate::json::JsonView;
use crate::models::content;
use crate::models::content::{Class, FieldView, ModelView, SlotView};
use crate::models::laws;
use crate::models::protected;

verus! {

/// What is stored of a model.
pub open spec fn storage(m: ModelView) -> JsonView {
    JsonView::Object(content::serializable(m, false))
}

/// The model that is read from what is stored of a model: a blank one, set from it.
pub open spec fn read_back(m: ModelView) -> (ModelView, Option<ErrorView>) {
    content::set_multi(content::blank(m), storage(m))
}

/// The model into which what is stored of another was read.
pub open spec fn read_into(t: ModelView, m: ModelView) -> (ModelView, Option<ErrorView>) {
    content::set_multi(t, storage(m))
}

/// The value as it is read: null is read as no value.
pub open spec fn as_read(value: Option<JsonView>) -> Option<JsonView> {
    if value == Some(JsonView::Null) {
        None
    } else {
        value
    }
}

/// Setting fields of which none stops sets each of them.
proof fn fields_set_all(fields: Seq<FieldView>, entries: Map<Seq<char>, JsonView>)
    requires
        forall|i: int|
            0 <= i < fields.len() ==> content::field_set(#[trigger] fields[i], entries).1 is None,
    ensures
        content::fields_set(fields, entries).1 is None,
        content::fields_set(fields, entries).0.len() == fields.len(),
        forall|i: int|
            0 <= i < fields.len() ==> #[trigger] content::fields_set(fields, entries).0[i]
                == content::field_set(fields[i], entries).0,
    decreases fields.len(),
{
    if fields.len() > 0 {
        let rest = fields.drop_last();
        assert forall|i: int| 0 <= i < rest.len() implies content::field_set(
            #[trigger] rest[i],
            entries,
        ).1 is None by {
            assert(rest[i] == fields[i]);
        }
        fields_set_all(rest, entries);
        assert(fields[fields.len() - 1] == fields.last());
        assert forall|i: int| 0 <= i < fields.len() implies #[trigger] content::fields_set(
            fields,
            entries,
        ).0[i] == content::field_set(fields[i], entries).0 by {
            if i < rest.len() {
                assert(content::fields_set(rest, entries).0[i] == content::field_set(
                    rest[i],
                    entries,
                ).0);
            }
        }
    }
}

/// Deserializing submodels of which none fails deserializes each of them.
proof fn fields_deserialized_all(fields: Seq<FieldView>)
    requires
        forall|i: int|
            0 <= i < fields.len() ==> content::field_deserialized(
                #[trigger] fields[i],
                true,
            ).1 is None,
    ensures
        content::fields_deserialized(fields, true).1 is None,
        content::fields_deserialized(fields, true).0.len() == fields.len(),
        forall|i: int|
            0 <= i < fields.len() ==> #[trigger] content::fields_deserialized(fields, true).0[i]
                == content::field_deserialized(fields[i], true).0,
    decreases fields.len(),
{
    if fields.len() > 0 {
        let rest = fields.drop_last();
        assert forall|i: int| 0 <= i < rest.len() implies content::field_deserialized(
            #[trigger] rest[i],
            true,
        ).1 is None by {
            assert(rest[i] == fields[i]);
        }
        fields_deserialized_all(rest);
        assert(fields[fields.len() - 1] == fields.last());
        assert forall|i: int| 0 <= i < fields.len() implies #[trigger] content::fields_deserialized(
            fields,
            true,
        ).0[i] == content::field_deserialized(fields[i], true).0 by {
            if i < rest.len() {
                assert(content::fields_deserialized(rest, true).0[i] == content::field_deserialized(
                    rest[i],
                    true,
                ).0);
            }
        }
    }
}

/// What handing a field its entry gives, if it holds a submodel and there is one.
pub(crate) open spec fn sub_taken(f: FieldView, entries: Map<Seq<char>, JsonView>) -> (
    FieldView,
    Option<ErrorView>,
) {
    match f.slot {
        SlotView::Sub(b, current) => if entries.dom().contains(f.name) {
            let (m, e) = match current {
                Some(m) => content::set_multi(*m, entries[f.name]),
                None => content::set_multi(*b, entries[f.name]),
            };
            (FieldView { slot: SlotView::Sub(b, Some(Box::new(m))), ..f }, e)
        } else {
            (f, None)
        },
        _ => (f, None),
    }
}

/// The name is that of a field which holds a submodel.
pub(crate) open spec fn names_sub(fields: Seq<FieldView>, name: Seq<char>) -> bool {
    exists|i: int|
        0 <= i < fields.len() && (#[trigger] fields[i]).slot is Sub && fields[i].name == name
}

/// Handing out entries to submodels of which none stops sets each of them, and leaves the
/// entries of the other names.
pub(crate) proof fn subs_set_all(fields: Seq<FieldView>, entries: Map<Seq<char>, JsonView>)
    requires
        laws::distinct(fields),
        forall|i: int| 0 <= i < fields.len() ==> sub_taken(#[trigger] fields[i], entries).1 is None,
    ensures
        content::subs_set(fields, entries).2 is None,
        content::subs_set(fields, entries).0.len() == fields.len(),
        forall|i: int|
            0 <= i < fields.len() ==> #[trigger] content::subs_set(fields, entries).0[i]
                == sub_taken(fields[i], entries).0,
        forall|name: Seq<char>|
            #![trigger content::subs_set(fields, entries).1.dom().contains(name)]
            content::subs_set(fields, entries).1.dom().contains(name) == (entries.dom().contains(
                name,
            ) && !names_sub(fields, name)),
        forall|name: Seq<char>|
            #![trigger content::subs_set(fields, entries).1[name]]
            content::subs_set(fields, entries).1.dom().contains(name) ==> content::subs_set(
                fields,
                entries,
            ).1[name] == entries[name],
    decreases fields.len(),
{
    if fields.len() > 0 {
        let rest = fields.drop_last();
        let f = fields.last();
        let last = fields.len() - 1;
        assert(fields[last] == f);
        assert forall|i: int| 0 <= i < rest.len() implies sub_taken(
            #[trigger] rest[i],
            entries,
        ).1 is None by {
            assert(rest[i] == fields[i]);
        }
        assert(laws::distinct(rest));
        subs_set_all(rest, entries);
        let left = content::subs_set(rest, entries).1;
        assert(!names_sub(rest, f.name)) by {
            if names_sub(rest, f.name) {
                let i = choose|i: int|
                    0 <= i < rest.len() && (#[trigger] rest[i]).slot is Sub && rest[i].name
                        == f.name;
                assert(fields[i] == rest[i]);
                assert(content::json_name(fields[i].name) != content::json_name(fields[last].name));
            }
        }
        assert(left.dom().contains(f.name) == entries.dom().contains(f.name));
        assert(sub_taken(fields[last], entries).1 is None);
        assert forall|i: int| 0 <= i < fields.len() implies #[trigger] content::subs_set(
            fields,
            entries,
        ).0[i] == sub_taken(fields[i], entries).0 by {
            if i < rest.len() {
                assert(content::subs_set(rest, entries).0[i] == sub_taken(rest[i], entries).0);
            } else {
                assert(left.dom().contains(f.name) ==> left[f.name] == entries[f.name]);
            }
        }
        assert forall|name: Seq<char>| names_sub(fields, name) == (names_sub(rest, name) || (
        f.slot is Sub && f.name == name)) by {
            if names_sub(fields, name) {
                let i = choose|i: int|
                    0 <= i < fields.len() && (#[trigger] fields[i]).slot is Sub && fields[i].name
                        == name;
                if i < last {
                    assert(rest[i] == fields[i]);
                }
            }
            if names_sub(rest, name) {
                let i = choose|i: int|
                    0 <= i < rest.len() && (#[trigger] rest[i]).slot is Sub && rest[i].name == name;
                assert(fields[i] == rest[i]);
            }
        }
        let done = content::subs_set(fields, entries).1;
        assert forall|name: Seq<char>| #[trigger]
            done.dom().contains(name) == (entries.dom().contains(name) && !names_sub(
                fields,
                name,
            )) && (done.dom().contains(name) ==> done[name] == entries[name]) by {
            assert(left.dom().contains(name) == (entries.dom().contains(name) && !names_sub(
                rest,
                name,
            )));
            assert(left.dom().contains(name) ==> left[name] == entries[name]);
        }
    }
}

/// No field is written under the name `type_`.
pub(crate) proof fn type_is_fixed(name: Seq<char>)
    ensures
        content::json_name(name) != "type_"@,
        content::json_name("type_"@) != "type_"@,
{
    reveal_strlit("type_");
    reveal_strlit("type");
    assert("type"@.len() != "type_"@.len());
}

/// The private data do not stand under the names of id and body.
proof fn private_has_no_id(m: ModelView)
    requires
        laws::well_formed(m),
    ensures
        !content::serializable(m, true).dom().contains("id"@),
        !content::serializable(m, true).dom().contains("body"@),
{
    if content::serializable(m, true).dom().contains("id"@) {
        let i = laws::shown_from(m.fields, true, "id"@);
        assert(content::json_name(m.fields[i].name) != "id"@);
    }
    if content::serializable(m, true).dom().contains("body"@) {
        let i = laws::shown_from(m.fields, true, "body"@);
        assert(content::json_name(m.fields[i].name) != "body"@);
    }
}

/// A blank model takes the private data of its kind in.
proof fn private_fits_blank(m: ModelView)
    requires
        laws::well_formed(m),
    ensures
        content::set_multi(content::blank(m), content::private_json(m)).1 is None,
    decreases m,
{
    let entries = content::serializable(m, true);
    let blank = content::blank(m);
    private_has_no_id(m);
    assert forall|i: int| 0 <= i < blank.fields.len() implies content::field_set(
        #[trigger] blank.fields[i],
        entries,
    ).1 is None by {
        let f = m.fields[i];
        assert(blank.fields[i] == content::field_blank(f));
        assert(laws::field_well_formed(f));
        laws::shown_at(m.fields, true, i);
        match f.slot {
            SlotView::Sub(_, Some(sub)) => {
                private_fits_blank(*sub);
            },
            _ => {},
        }
    }
    fields_set_all(blank.fields, entries);
}

/// A model takes what is stored of one of its kind in: id, body, and field by field.
proof fn storage_fits(t: ModelView, m: ModelView)
    requires
        laws::well_formed(t),
        laws::well_formed(m),
        content::blank(t) == content::blank(m),
    ensures
        read_into(t, m).1 is None,
        read_into(t, m).0.id == m.id,
        read_into(t, m).0.body == m.body,
        read_into(t, m).0.fields.len() == m.fields.len(),
        t.fields.len() == m.fields.len(),
        forall|i: int|
            0 <= i < m.fields.len() ==> #[trigger] read_into(t, m).0.fields[i]
                == content::field_set(t.fields[i], content::serializable(m, false)).0,
    decreases m,
{
    let entries = content::serializable(m, false);
    same_fields(t, m);
    assert(entries.dom().contains("id"@) && entries.dom().contains("body"@));
    assert("id"@ != "body"@) by {
        reveal_strlit("id");
        reveal_strlit("body");
    }
    assert(entries["id"@] == content::text_json(m.id));
    assert(entries["body"@] == content::text_json(m.body));
    assert forall|i: int| 0 <= i < t.fields.len() implies content::field_set(
        #[trigger] t.fields[i],
        entries,
    ).1 is None by {
        let f = m.fields[i];
        let g = t.fields[i];
        assert(content::field_blank(g) == content::field_blank(f));
        assert(laws::field_well_formed(f));
        assert(laws::field_well_formed(g));
        public_at(m, i);
        match (g.slot, f.slot) {
            (SlotView::Sub(_, Some(x)), SlotView::Sub(_, Some(sub))) => {
                storage_fits(*x, *sub);
            },
            (SlotView::Sub(b, None), SlotView::Sub(_, Some(sub))) => {
                storage_fits(*b, *sub);
            },
            _ => {},
        }
    }
    fields_set_all(t.fields, entries);
}

/// Models of one kind have fields of one kind.
proof fn same_fields(t: ModelView, m: ModelView)
    requires
        content::blank(t) == content::blank(m),
    ensures
        t.fields.len() == m.fields.len(),
        t.name == m.name,
        t.model_type == m.model_type,
        forall|i: int|
            0 <= i < m.fields.len() ==> content::field_blank(#[trigger] t.fields[i])
                == content::field_blank(m.fields[i]),
{
    assert(content::blank(t).fields.len() == t.fields.len());
    assert(content::blank(m).fields.len() == m.fields.len());
    assert forall|i: int| 0 <= i < m.fields.len() implies content::field_blank(
        #[trigger] t.fields[i],
    ) == content::field_blank(m.fields[i]) by {
        assert(content::blank(t).fields[i] == content::field_blank(t.fields[i]));
        assert(content::blank(m).fields[i] == content::field_blank(m.fields[i]));
    }
}

/// A blank model is well-formed, of its kind, and has no submodel in it.
proof fn blank_is_ready(m: ModelView)
    requires
        laws::well_formed(m),
    ensures
        laws::well_formed(content::blank(m)),
        content::blank(content::blank(m)) == content::blank(m),
        storable(content::blank(m)),
{
    laws::building_starts_well_formed(m);
    laws::blank_is_blank(m);
    no_submodel_is_storable(content::blank(m));
}

/// A blank model takes what is stored of its kind in: id, body, and field by field.
proof fn storage_fits_blank(m: ModelView)
    requires
        laws::well_formed(m),
    ensures
        read_back(m).1 is None,
        read_back(m).0.id == m.id,
        read_back(m).0.body == m.body,
        read_back(m).0.fields.len() == m.fields.len(),
        forall|i: int|
            0 <= i < m.fields.len() ==> #[trigger] read_back(m).0.fields[i] == content::field_set(
                content::field_blank(m.fields[i]),
                content::serializable(m, false),
            ).0,
{
    let blank = content::blank(m);
    blank_is_ready(m);
    storage_fits(blank, m);
    assert forall|i: int| 0 <= i < m.fields.len() implies #[trigger] read_back(m).0.fields[i]
        == content::field_set(
        content::field_blank(m.fields[i]),
        content::serializable(m, false),
    ).0 by {
        assert(read_into(blank, m).0.fields[i] == content::field_set(
            blank.fields[i],
            content::serializable(m, false),
        ).0);
    }
}

/// A model that is blank has no submodel in it.
proof fn no_submodel_is_storable(b: ModelView)
    requires
        content::blank(b) == b,
    ensures
        storable(b),
{
    assert forall|i: int| 0 <= i < b.fields.len() implies field_storable(
        #[trigger] b.fields[i],
    ) by {
        assert(content::blank(b).fields[i] == content::field_blank(b.fields[i]));
    }
}

/// What a field shows in public stands under its JSON name in the storage.
proof fn public_at(m: ModelView, i: int)
    requires
        laws::well_formed(m),
        0 <= i < m.fields.len(),
    ensures
        content::serializable(m, false).dom().contains(content::json_name(m.fields[i].name)) == (
        content::shown(m.fields[i], false) is Some),
        content::shown(m.fields[i], false) matches Some(v) ==> content::serializable(
            m,
            false,
        )[content::json_name(m.fields[i].name)] == v,
{
    laws::shown_at(m.fields, false, i);
    assert(content::json_name(m.fields[i].name) != "id"@);
    assert(content::json_name(m.fields[i].name) != "body"@);
}

/// Two models agree in id, body and all fields that are not extra, and so on in their
/// submodels; null is as good as no value.
spec fn restored(d: ModelView, m: ModelView) -> bool
    decreases m,
{
    &&& d.id == m.id
    &&& d.body == m.body
    &&& d.fields.len() == m.fields.len()
    &&& forall|i: int|
        0 <= i < m.fields.len() ==> field_restored(#[trigger] d.fields[i], m.fields[i])
}

spec fn field_restored(g: FieldView, f: FieldView) -> bool
    decreases f,
{
    &&& g.name == f.name
    &&& g.class == f.class
    &&& f.class == Class::Extra || match (g.slot, f.slot) {
        (SlotView::Plain(k, v), SlotView::Plain(l, w)) => k == l && v == as_read(w),
        (SlotView::Sub(_, Some(d)), SlotView::Sub(_, Some(m))) => restored(*d, *m),
        (SlotView::Sub(_, None), SlotView::Sub(_, None)) => true,
        _ => false,
    }
}

/// Models that agree have the same data.
proof fn restored_data(d: ModelView, m: ModelView)
    requires
        restored(d, m),
    ensures
        content::data(d) == content::data(m),
    decreases m, 1int,
{
    restored_fields_data(d.fields, m.fields);
}

proof fn restored_fields_data(after: Seq<FieldView>, fields: Seq<FieldView>)
    requires
        after.len() == fields.len(),
        forall|i: int| 0 <= i < fields.len() ==> field_restored(#[trigger] after[i], fields[i]),
    ensures
        content::fields_data(after) == content::fields_data(fields),
    decreases fields, 0int,
{
    if fields.len() > 0 {
        let last = fields.len() - 1;
        let f = fields.last();
        let g = after.last();
        assert forall|i: int| 0 <= i < last implies field_restored(
            #[trigger] after.drop_last()[i],
            fields.drop_last()[i],
        ) by {
            assert(field_restored(after[i], fields[i]));
        }
        restored_fields_data(after.drop_last(), fields.drop_last());
        assert(field_restored(after[last], fields[last]));
        if f.class != Class::Extra {
            match (g.slot, f.slot) {
                (SlotView::Sub(_, Some(d)), SlotView::Sub(_, Some(m))) => {
                    restored_data(*d, *m);
                },
                _ => {},
            }
            assert(content::slot_data(g.slot) == content::slot_data(f.slot));
        }
    }
}

/// A model that agrees with another takes the private data of it in, and agrees with it
/// still.
proof fn private_again(d: ModelView, m: ModelView)
    requires
        laws::well_formed(m),
        restored(d, m),
    ensures
        content::set_multi(d, content::private_json(m)).1 is None,
        restored(content::set_multi(d, content::private_json(m)).0, m),
    decreases m,
{
    let entries = content::serializable(m, true);
    private_has_no_id(m);
    assert forall|i: int| 0 <= i < d.fields.len() implies content::field_set(
        #[trigger] d.fields[i],
        entries,
    ).1 is None && field_restored(content::field_set(d.fields[i], entries).0, m.fields[i]) by {
        field_private_again(d.fields[i], m, i);
    }
    fields_set_all(d.fields, entries);
    let r = content::set_multi(d, content::private_json(m)).0;
    assert forall|i: int| 0 <= i < m.fields.len() implies field_restored(
        #[trigger] r.fields[i],
        m.fields[i],
    ) by {
        assert(r.fields[i] == content::field_set(d.fields[i], entries).0);
    }
}

proof fn field_private_again(g: FieldView, m: ModelView, i: int)
    requires
        laws::well_formed(m),
        0 <= i < m.fields.len(),
        field_restored(g, m.fields[i]),
    ensures
        content::field_set(g, content::serializable(m, true)).1 is None,
        field_restored(content::field_set(g, content::serializable(m, true)).0, m.fields[i]),
    decreases m.fields[i],
{
    let f = m.fields[i];
    assert(laws::field_well_formed(f));
    laws::shown_at(m.fields, true, i);
    if f.class != Class::Extra {
        match (g.slot, f.slot) {
            (SlotView::Sub(_, Some(d)), SlotView::Sub(_, Some(sub))) => {
                private_again(*d, *sub);
            },
            _ => {},
        }
    }
}

/// The body of the model, and of every submodel in it that is not extra, holds its
/// private data under the key. A submodel that is absent is one named `type_`.
spec fn sealed(m: ModelView, key: Seq<u8>) -> bool
    decreases m,
{
    &&& m.body is Some
    &&& content::seals(m.body->0, key, content::private_json(m))
    &&& forall|i: int| 0 <= i < m.fields.len() ==> field_sealed(#[trigger] m.fields[i], key)
}

spec fn field_sealed(f: FieldView, key: Seq<u8>) -> bool
    decreases f,
{
    match f.slot {
        SlotView::Plain(_, _) => true,
        SlotView::Sub(_, None) => f.name == "type_"@,
        SlotView::Sub(_, Some(m)) => f.class == Class::Extra || sealed(*m, key),
    }
}

/// The model into which another was read, with the key.
spec fn reopening(t: ModelView, m: ModelView, key: Seq<u8>) -> ModelView {
    content::keyed(read_into(t, m).0, Some(key))
}

/// A value that is nested `n` deep at most is nested one more deep at most.
proof fn nested_more(j: JsonView, n: nat)
    requires
        json::nested_at_most(j, n),
    ensures
        json::nested_at_most(j, n + 1),
    decreases n,
{
    match j {
        JsonView::List(items) => {
            assert forall|i: int| 0 <= i < items.len() implies json::nested_at_most(
                #[trigger] items[i],
                n,
            ) by {
                nested_more(items[i], (n - 1) as nat);
            }
        },
        JsonView::Object(entries) => {
            assert forall|k: Seq<char>| entries.dom().contains(k) implies json::nested_at_most(
                #[trigger] entries[k],
                n,
            ) by {
                nested_more(entries[k], (n - 1) as nat);
            }
        },
        _ => {},
    }
}

/// What stands in an object is nested less deep than the object.
proof fn nested_inside(entries: Map<Seq<char>, JsonView>, name: Seq<char>, n: nat)
    requires
        json::nested_at_most(JsonView::Object(entries), n),
        entries.dom().contains(name),
    ensures
        json::nested_at_most(entries[name], n),
{
    assert(JsonView::Object(entries)->Object_0 == entries);
    assert(json::nested_at_most(entries[name], (n - 1) as nat));
    nested_more(entries[name], (n - 1) as nat);
}

/// A field of a model into which another was read, which got the key and was deserialized.
proof fn field_reopened(t: ModelView, m: ModelView, key: Seq<u8>, i: int)
    requires
        laws::well_formed(t),
        laws::well_formed(m),
        content::blank(t) == content::blank(m),
        storable(t),
        sealed(m, key),
        json::nested_at_most(content::private_json(m), json::MAX_NESTING as nat),
        0 <= i < m.fields.len(),
    ensures
        content::field_deserialized(reopening(t, m, key).fields[i], true).1 is None,
        inner_field(
            content::field_deserialized(reopening(t, m, key).fields[i], true).0,
            m.fields[i],
        ),
    decreases m.fields[i], 2int,
{
    let f = m.fields[i];
    let g = t.fields[i];
    let entries = content::serializable(m, false);
    same_fields(t, m);
    assert(content::field_blank(g) == content::field_blank(f));
    assert(laws::field_well_formed(f));
    assert(laws::field_well_formed(g));
    assert(field_storable(g));
    assert(field_sealed(f, key));
    storage_fits(t, m);
    public_at(m, i);
    laws::shown_at(m.fields, true, i);
    let read = content::field_set(g, entries).0;
    assert(read_into(t, m).0.fields[i] == read);
    assert(reopening(t, m, key).fields[i] == content::field_keyed(read, key));
    match f.slot {
        SlotView::Sub(b, Some(sub)) => {
            if f.class != Class::Extra {
                let inside = content::private_json(*sub);
                assert(content::shown(f, true) == Some(inside));
                let outer = content::serializable(m, true);
                let name = content::json_name(f.name);
                nested_inside(outer, name, json::MAX_NESTING as nat);
                assert(outer[name] == inside);
                match g.slot {
                    SlotView::Sub(_, Some(x)) => {
                        reopened(*x, *sub, key);
                        assert(read.slot->Sub_1->0 == Box::new(read_into(*x, *sub).0));
                    },
                    SlotView::Sub(c, None) => {
                        no_submodel_is_storable(*c);
                        reopened(*c, *sub, key);
                        assert(read.slot->Sub_1->0 == Box::new(read_into(*c, *sub).0));
                    },
                    _ => {},
                }
            }
        },
        _ => {},
    }
}

/// A model into which another was read can be deserialized with the key, and then agrees with
/// the model that was stored, whatever it held before.
proof fn reopened(t: ModelView, m: ModelView, key: Seq<u8>)
    requires
        laws::well_formed(t),
        laws::well_formed(m),
        content::blank(t) == content::blank(m),
        storable(t),
        sealed(m, key),
        json::nested_at_most(content::private_json(m), json::MAX_NESTING as nat),
    ensures
        content::deserialized(reopening(t, m, key), true).1 is None,
        restored(content::deserialized(reopening(t, m, key), true).0, m),
    decreases m, 3int,
{
    let n = reopening(t, m, key);
    storage_fits(t, m);
    assert(n.fields.len() == m.fields.len());
    assert(decreases_to!(m => m.fields));
    assert forall|i: int| 0 <= i < n.fields.len() implies content::field_deserialized(
        #[trigger] n.fields[i],
        true,
    ).1 is None by {
        assert(decreases_to!(m.fields => m.fields[i]));
        field_reopened(t, m, key, i);
    }
    fields_deserialized_all(n.fields);
    let inner = ModelView { fields: content::fields_deserialized(n.fields, true).0, ..n };
    let private = content::private_json(m);
    let text = json::json_written(private);
    assert(content::body_opened(inner, true) == Ok::<JsonView, ErrorView>(private)) by {
        encode_utf8_valid_utf8(text);
        encode_utf8_decode_utf8(text);
    }
    assert forall|i: int| 0 <= i < m.fields.len() implies inner_field(
        #[trigger] inner.fields[i],
        m.fields[i],
    ) by {
        assert(decreases_to!(m.fields => m.fields[i]));
        field_reopened(t, m, key, i);
        assert(inner.fields[i] == content::field_deserialized(n.fields[i], true).0);
    }
    private_set(inner, m);
}

/// A field as it is after the submodels were deserialized and before the private data are
/// set.
spec fn inner_field(g: FieldView, f: FieldView) -> bool {
    &&& g.name == f.name
    &&& g.class == f.class
    &&& match (g.slot, f.slot) {
        (SlotView::Plain(k, v), SlotView::Plain(l, w)) => k == l && (f.class == Class::Public
            ==> v == as_read(w)),
        (SlotView::Sub(b, Some(d)), SlotView::Sub(c, Some(s))) => f.class != Class::Extra
            && restored(*d, *s),
        (SlotView::Sub(b, None), SlotView::Sub(c, Some(s))) => f.class == Class::Extra && b == c,
        (SlotView::Sub(b, None), SlotView::Sub(c, None)) => f.name == "type_"@,
        _ => false,
    }
}

/// Setting the private data makes a model agree whose public data and submodels do.
proof fn private_set(inner: ModelView, m: ModelView)
    requires
        laws::well_formed(m),
        inner.id == m.id,
        inner.body == m.body,
        inner.fields.len() == m.fields.len(),
        forall|i: int|
            0 <= i < m.fields.len() ==> inner_field(#[trigger] inner.fields[i], m.fields[i]),
    ensures
        content::set_multi_recursive(inner, content::private_json(m)).1 is None,
        restored(content::set_multi_recursive(inner, content::private_json(m)).0, m),
{
    let entries = content::serializable(m, true);
    private_has_no_id(m);
    assert forall|i: int| 0 <= i < inner.fields.len() implies sub_taken(
        #[trigger] inner.fields[i],
        entries,
    ).1 is None by {
        field_private_taken(inner.fields[i], m, i);
    }
    assert(laws::distinct(inner.fields)) by {
        assert forall|i: int, j: int|
            #![trigger inner.fields[i], inner.fields[j]]
            0 <= i < j < inner.fields.len() implies content::json_name(inner.fields[i].name)
            != content::json_name(inner.fields[j].name) by {
            assert(inner_field(inner.fields[i], m.fields[i]));
            assert(inner_field(inner.fields[j], m.fields[j]));
        }
        assert forall|i: int| 0 <= i < inner.fields.len() implies content::json_name(
            (#[trigger] inner.fields[i]).name,
        ) != "id"@ && content::json_name(inner.fields[i].name) != "body"@ by {
            assert(inner_field(inner.fields[i], m.fields[i]));
        }
    }
    subs_set_all(inner.fields, entries);
    let (fields, left, _) = content::subs_set(inner.fields, entries);
    let taken = ModelView { fields, ..inner };
    assert(!left.dom().contains("id"@));
    assert(!left.dom().contains("body"@));
    assert forall|i: int| 0 <= i < fields.len() implies content::field_set(
        #[trigger] fields[i],
        left,
    ).1 is None && field_restored(content::field_set(fields[i], left).0, m.fields[i]) by {
        let f = m.fields[i];
        let g = inner.fields[i];
        let name = content::json_name(f.name);
        assert(inner_field(g, f));
        assert(fields[i] == sub_taken(g, entries).0);
        field_private_taken(g, m, i);
        laws::shown_at(m.fields, true, i);
        type_is_fixed(f.name);
        assert(left.dom().contains(name) == (entries.dom().contains(name) && !(g.slot is Sub
            && f.name != "type_"@))) by {
            if names_sub(inner.fields, name) {
                let j = choose|j: int|
                    0 <= j < inner.fields.len() && (#[trigger] inner.fields[j]).slot is Sub
                        && inner.fields[j].name == name;
                assert(inner_field(inner.fields[j], m.fields[j]));
                assert(m.fields[j].name == name);
                assert(content::json_name(m.fields[j].name) == name);
                assert(j == i) by {
                    if j < i {
                        assert(content::json_name(m.fields[j].name) != content::json_name(
                            m.fields[i].name,
                        ));
                    }
                    if i < j {
                        assert(content::json_name(m.fields[i].name) != content::json_name(
                            m.fields[j].name,
                        ));
                    }
                }
            } else if g.slot is Sub && f.name != "type_"@ {
                assert(inner.fields[i].name == name);
            }
        }
        if left.dom().contains(name) {
            assert(left[name] == entries[name]);
        }
        if f.class != Class::Extra {
            match (g.slot, f.slot) {
                (SlotView::Sub(_, Some(d)), SlotView::Sub(_, Some(sub))) => {
                    private_again(*d, *sub);
                },
                _ => {},
            }
        }
    }
    fields_set_all(fields, left);
    let r = content::set_multi(taken, JsonView::Object(left)).0;
    assert forall|i: int| 0 <= i < m.fields.len() implies field_restored(
        #[trigger] r.fields[i],
        m.fields[i],
    ) by {
        assert(r.fields[i] == content::field_set(fields[i], left).0);
    }
}

/// A submodel takes the private data of its name in.
proof fn field_private_taken(g: FieldView, m: ModelView, i: int)
    requires
        laws::well_formed(m),
        0 <= i < m.fields.len(),
        inner_field(g, m.fields[i]),
    ensures
        ({
            let entries = content::serializable(m, true);
            let f = m.fields[i];
            let (h, e) = sub_taken(g, entries);
            &&& e is None
            &&& h.name == f.name
            &&& h.class == f.class
            &&& f.name == "type_"@ || g.slot is Plain ==> h == g
            &&& f.class != Class::Extra && f.name != "type_"@ && g.slot is Sub ==> field_restored(
                h,
                f,
            )
        }),
{
    let f = m.fields[i];
    let entries = content::serializable(m, true);
    assert(laws::field_well_formed(f));
    laws::shown_at(m.fields, true, i);
    type_is_fixed(f.name);
    if f.name == "type_"@ {
        if entries.dom().contains(f.name) {
            let j = laws::shown_from(m.fields, true, f.name);
            type_is_fixed(m.fields[j].name);
        }
    } else {
        match (g.slot, f.slot) {
            (SlotView::Sub(_, Some(d)), SlotView::Sub(_, Some(sub))) => {
                private_again(*d, *sub);
            },
            (SlotView::Sub(_, None), SlotView::Sub(_, Some(sub))) => {
                private_fits_blank(*sub);
            },
            _ => {},
        }
    }
}

/// What has to hold of a model for its storage to give it back: the key is on it and on
/// every submodel in it that is not extra. No submodel is absent, unless it is named
/// `type_`: the body then holds null for it, which a submodel cannot be set from.
pub open spec fn restorable(m: ModelView, key: Seq<u8>) -> bool
    decreases m,
{
    &&& m.key == Some(key)
    &&& forall|i: int| 0 <= i < m.fields.len() ==> field_restorable(#[trigger] m.fields[i], key)
}

/// What has to hold of a field for the storage to give it back.
pub open spec fn field_restorable(f: FieldView, key: Seq<u8>) -> bool
    decreases f,
{
    match f.slot {
        SlotView::Plain(_, _) => true,
        SlotView::Sub(_, None) => f.name == "type_"@,
        SlotView::Sub(_, Some(m)) => f.class == Class::Extra || restorable(*m, key),
    }
}

/// Serializing a model without an error seals it.
proof fn serialized_seals(m: ModelView, n: ModelView, key: Seq<u8>)
    requires
        restorable(m, key),
        content::serialized(m, n, true),
        content::serialize_error(m, true) is None,
    ensures
        sealed(n, key),
        content::private_json(n) == content::private_json(m),
    decreases m,
{
    protected::private_kept(m.fields, n.fields, true);
    assert forall|i: int| 0 <= i < n.fields.len() implies field_sealed(
        #[trigger] n.fields[i],
        key,
    ) by {
        let f = m.fields[i];
        let g = n.fields[i];
        let upto = m.fields.take(i + 1);
        assert(field_restorable(f, key));
        if content::fields_error(upto, true) is Some {
            protected::fields_error_grows(m.fields, true, i + 1);
        }
        assert(upto.drop_last() =~= m.fields.take(i));
        assert(upto.last() == f);
        assert(content::fields_error(m.fields.take(i), true) is None);
        assert(content::field_error(f, true) is None);
        assert(content::field_serialized(f, g, true));
        match (f.slot, g.slot) {
            (SlotView::Sub(_, Some(sub)), SlotView::Sub(_, Some(after))) => {
                if f.class != Class::Extra {
                    serialized_seals(*sub, *after, key);
                }
            },
            _ => {},
        }
    }
}

/// Deserializing undoes serializing, whatever the model held into which the storage is read. A
/// model with a key is serialized, and what is stored of it afterwards is set into any model of
/// its kind in which no extra submodel is present; with the key, that model can be deserialized
/// where there is the cipher. It then has all data that the first has, private data too, and in
/// every field that is not extra the very value that stood there before the first was serialized
/// (null is read as no value). The private data may be nested as deep as the parser of JSON
/// accepts.
pub proof fn deserialize_undoes_serialize_in_any_model(
    m: ModelView,
    n: ModelView,
    t: ModelView,
    key: Seq<u8>,
)
    requires
        laws::well_formed(m),
        laws::well_formed(t),
        content::blank(t) == content::blank(m),
        storable(t),
        restorable(m, key),
        json::nested_at_most(content::private_json(m), json::MAX_NESTING as nat),
        content::serialized(m, n, true),
        content::serialize_error(m, true) is None,
    ensures
        content::set_multi(t, JsonView::Object(content::serializable(n, false))).1 is None,
        ({
            let read = content::set_multi(t, JsonView::Object(content::serializable(n, false))).0;
            let (d, e) = content::deserialized(content::keyed(read, Some(key)), true);
            &&& e is None
            &&& content::data(d) == content::data(n)
            &&& d.id == m.id
            &&& d.body == n.body
            &&& d.fields.len() == m.fields.len()
            &&& forall|i: int|
                0 <= i < m.fields.len() && m.fields[i].class != Class::Extra ==> {
                    let g = #[trigger] d.fields[i];
                    &&& g.name == m.fields[i].name
                    &&& g.class == m.fields[i].class
                    &&& m.fields[i].slot matches SlotView::Plain(kind, value) ==> g.slot
                        == SlotView::Plain(
                        kind,
                        if value == Some(JsonView::Null) {
                            None
                        } else {
                            value
                        },
                    )
                    &&& m.fields[i].slot matches SlotView::Sub(_, sub) ==> g.slot is Sub && (
                    g.slot->Sub_1 is Some <==> sub is Some)
                }
        }),
{
    laws::serialized_keeps(m, n, true);
    serialized_seals(m, n, key);
    storage_fits(t, n);
    reopened(t, n, key);
    let d = content::deserialized(reopening(t, n, key), true).0;
    restored_data(d, n);
    assert forall|i: int| 0 <= i < m.fields.len() && m.fields[i].class != Class::Extra implies {
        let g = #[trigger] d.fields[i];
        &&& g.name == m.fields[i].name
        &&& g.class == m.fields[i].class
        &&& m.fields[i].slot matches SlotView::Plain(kind, value) ==> g.slot == SlotView::Plain(
            kind,
            if value == Some(JsonView::Null) {
                None
            } else {
                value
            },
        )
        &&& m.fields[i].slot matches SlotView::Sub(_, sub) ==> g.slot is Sub && (
        g.slot->Sub_1 is Some <==> sub is Some)
    } by {
        assert(field_restored(d.fields[i], n.fields[i]));
        if content::fields_error(m.fields.take(i), true) is Some {
            protected::fields_error_grows(m.fields, true, i);
        }
        assert(content::field_serialized(m.fields[i], n.fields[i], true));
    }
}

/// Deserializing undoes serializing, read into a blank model.
pub proof fn deserialize_undoes_serialize(m: ModelView, n: ModelView, key: Seq<u8>)
    requires
        laws::well_formed(m),
        restorable(m, key),
        json::nested_at_most(content::private_json(m), json::MAX_NESTING as nat),
        content::serialized(m, n, true),
        content::serialize_error(m, true) is None,
    ensures
        read_back(n).1 is None,
        ({
            let (d, e) = content::deserialized(content::keyed(read_back(n).0, Some(key)), true);
            &&& e is None
            &&& content::data(d) == content::data(n)
            &&& d.id == m.id
            &&& forall|i: int|
                0 <= i < m.fields.len() && m.fields[i].class != Class::Extra ==> (
                m.fields[i].slot matches SlotView::Plain(kind, value) ==> (
                #[trigger] d.fields[i]).slot == SlotView::Plain(
                    kind,
                    if value == Some(JsonView::Null) {
                        None
                    } else {
                        value
                    },
                ))
        }),
{
    laws::serialized_keeps(m, n, true);
    blank_is_ready(n);
    deserialize_undoes_serialize_in_any_model(m, n, content::blank(n), key);
}

/// No submodel that is extra is present in the model, at any depth.
pub open spec fn storable(m: ModelView) -> bool
    decreases m,
{
    forall|i: int| 0 <= i < m.fields.len() ==> field_storable(#[trigger] m.fields[i])
}

/// The submodel of the field is not extra, and so on in it.
pub open spec fn field_storable(f: FieldView) -> bool
    decreases f,
{
    f.slot matches SlotView::Sub(_, Some(m)) ==> f.class != Class::Extra && storable(*m)
}

/// What is stored of a model reads back: a blank model of the kind takes it in, and what is
/// stored of that model is the same.
pub proof fn storage_reads_back(m: ModelView)
    requires
        laws::well_formed(m),
        storable(m),
    ensures
        read_back(m).1 is None,
        storage(read_back(m).0) == storage(m),
    decreases m,
{
    let entries = content::serializable(m, false);
    let n = read_back(m).0;
    storage_fits_blank(m);
    assert forall|i: int| 0 <= i < m.fields.len() implies shows_the_same(
        #[trigger] n.fields[i],
        m.fields[i],
        false,
    ) by {
        let f = m.fields[i];
        assert(laws::field_well_formed(f));
        assert(field_storable(f));
        public_at(m, i);
        assert(n.fields[i] == content::field_set(content::field_blank(f), entries).0);
        match f.slot {
            SlotView::Sub(_, Some(sub)) => {
                storage_reads_back(*sub);
                assert(n.fields[i].slot->Sub_1->0 == Box::new(read_back(*sub).0));
            },
            _ => {},
        }
    }
    fields_show_the_same(n.fields, m.fields, false);
}

/// Two fields show the same in private or in public.
spec fn shows_the_same(g: FieldView, f: FieldView, private: bool) -> bool {
    g.name == f.name && content::shown(g, private) == content::shown(f, private)
}

proof fn fields_show_the_same(others: Seq<FieldView>, fields: Seq<FieldView>, private: bool)
    requires
        others.len() == fields.len(),
        forall|i: int|
            0 <= i < fields.len() ==> shows_the_same(#[trigger] others[i], fields[i], private),
    ensures
        content::fields_shown(others, private) == content::fields_shown(fields, private),
    decreases fields.len(),
{
    if fields.len() > 0 {
        let last = fields.len() - 1;
        assert forall|i: int| 0 <= i < last implies shows_the_same(
            #[trigger] others.drop_last()[i],
            fields.drop_last()[i],
            private,
        ) by {
            assert(shows_the_same(others[i], fields[i], private));
        }
        fields_show_the_same(others.drop_last(), fields.drop_last(), private);
        assert(shows_the_same(others[last], fields[last], private));
    }
}

/// No submodel of the model is extra, at any depth.
pub open spec fn no_extra_submodels(m: ModelView) -> bool
    decreases m,
{
    forall|i: int| 0 <= i < m.fields.len() ==> field_no_extra_submodels(#[trigger] m.fields[i])
}

/// The field is not an extra one with a submodel, and so on in its submodel.
pub open spec fn field_no_extra_submodels(f: FieldView) -> bool
    decreases f,
{
    &&& f.slot is Sub ==> f.class != Class::Extra
    &&& f.slot matches SlotView::Sub(_, Some(m)) ==> no_extra_submodels(*m)
}

/// A model takes the private data of one of its kind in, and shows them then.
proof fn private_into(x: ModelView, m: ModelView)
    requires
        laws::well_formed(x),
        laws::well_formed(m),
        content::blank(x) == content::blank(m),
        no_extra_submodels(m),
    ensures
        content::set_multi(x, content::private_json(m)).1 is None,
        content::serializable(content::set_multi(x, content::private_json(m)).0, true)
            == content::serializable(m, true),
    decreases m, 1int,
{
    let entries = content::serializable(m, true);
    private_has_no_id(m);
    same_fields(x, m);
    assert(decreases_to!(m => m.fields));
    assert forall|i: int| 0 <= i < x.fields.len() implies content::field_set(
        #[trigger] x.fields[i],
        entries,
    ).1 is None && shows_the_same(
        content::field_set(x.fields[i], entries).0,
        m.fields[i],
        true,
    ) by {
        assert(content::field_blank(x.fields[i]) == content::field_blank(m.fields[i]));
        assert(laws::field_well_formed(x.fields[i]));
        assert(decreases_to!(m.fields => m.fields[i]));
        field_private_into(x.fields[i], m, i);
    }
    fields_set_all(x.fields, entries);
    let r = content::set_multi(x, content::private_json(m)).0;
    assert forall|i: int| 0 <= i < m.fields.len() implies shows_the_same(
        #[trigger] r.fields[i],
        m.fields[i],
        true,
    ) by {
        assert(r.fields[i] == content::field_set(x.fields[i], entries).0);
    }
    fields_show_the_same(r.fields, m.fields, true);
}

proof fn field_private_into(g: FieldView, m: ModelView, i: int)
    requires
        laws::well_formed(m),
        no_extra_submodels(m),
        0 <= i < m.fields.len(),
        laws::field_well_formed(g),
        content::field_blank(g) == content::field_blank(m.fields[i]),
    ensures
        content::field_set(g, content::serializable(m, true)).1 is None,
        shows_the_same(
            content::field_set(g, content::serializable(m, true)).0,
            m.fields[i],
            true,
        ),
    decreases m.fields[i], 0int,
{
    let f = m.fields[i];
    assert(laws::field_well_formed(f));
    assert(field_no_extra_submodels(f));
    laws::shown_at(m.fields, true, i);
    match (g.slot, f.slot) {
        (SlotView::Sub(_, Some(x)), SlotView::Sub(_, Some(sub))) => {
            private_into(*x, *sub);
        },
        (SlotView::Sub(b, None), SlotView::Sub(_, Some(sub))) => {
            private_into(*b, *sub);
        },
        _ => {},
    }
    let h = content::field_set(g, content::serializable(m, true)).0;
    assert(content::shown(h, true) == content::shown(f, true));
}

/// A submodel takes the private data of its name in, and shows them then.
proof fn field_private_taken_into(g: FieldView, m: ModelView, i: int)
    requires
        laws::well_formed(m),
        no_extra_submodels(m),
        0 <= i < m.fields.len(),
        laws::field_well_formed(g),
        content::field_blank(g) == content::field_blank(m.fields[i]),
        m.fields[i].slot matches SlotView::Sub(_, None) ==> m.fields[i].name == "type_"@,
    ensures
        ({
            let (h, e) = sub_taken(g, content::serializable(m, true));
            &&& e is None
            &&& m.fields[i].name == "type_"@ || g.slot is Plain ==> h == g
            &&& m.fields[i].name != "type_"@ && g.slot is Sub ==> shows_the_same(
                h,
                m.fields[i],
                true,
            )
        }),
{
    let f = m.fields[i];
    let entries = content::serializable(m, true);
    assert(laws::field_well_formed(f));
    assert(field_no_extra_submodels(f));
    laws::shown_at(m.fields, true, i);
    type_is_fixed(f.name);
    if f.name == "type_"@ {
        if entries.dom().contains(f.name) {
            let j = laws::shown_from(m.fields, true, f.name);
            type_is_fixed(m.fields[j].name);
        }
    } else {
        match (g.slot, f.slot) {
            (SlotView::Sub(_, Some(x)), SlotView::Sub(_, Some(sub))) => {
                private_into(*x, *sub);
            },
            (SlotView::Sub(b, None), SlotView::Sub(_, Some(sub))) => {
                private_into(*b, *sub);
            },
            _ => {},
        }
        let h = sub_taken(g, entries).0;
        if g.slot is Sub {
            assert(content::shown(h, true) == content::shown(f, true));
        }
    }
}

/// Deserializing sets what the body holds, whatever the model held before. A model has a key, its
/// submodels can be deserialized, and its body opens under the key to the private data of any
/// model of its kind. Then it can be deserialized, and its private data are those that the body
/// held: each private field has the very value from there (null is read as no value). Values that
/// are not private, id, body and key stay as they were.
pub proof fn deserialize_sets_what_the_body_holds(
    t: ModelView,
    m: ModelView,
    key: Seq<u8>,
    bytes: Seq<u8>,
    message: Seq<u8>,
)
    requires
        laws::well_formed(t),
        laws::well_formed(m),
        content::blank(t) == content::blank(m),
        no_extra_submodels(m),
        forall|i: int|
            0 <= i < m.fields.len() ==> ((#[trigger] m.fields[i]).slot matches SlotView::Sub(
                _,
                None,
            ) ==> m.fields[i].name == "type_"@),
        forall|i: int|
            0 <= i < t.fields.len() ==> ((#[trigger] t.fields[i]).slot matches SlotView::Sub(
                _,
                Some(sub),
            ) ==> content::deserialized(*sub, true).1 is None),
        t.key == Some(key),
        t.body is Some,
        crate::crypto::base64_read(t.body->0) == Some(bytes),
        crate::crypto::decrypted(key, bytes, true) == Ok::<Seq<u8>, crate::error::CryptoError>(
            message,
        ),
        valid_utf8(message),
        json::json_read(decode_utf8(message)) == Some(
            JsonView::Object(content::serializable(m, true)),
        ),
    ensures
        ({
            let (d, e) = content::deserialized(t, true);
            &&& e is None
            &&& content::serializable(d, true) == content::serializable(m, true)
            &&& d.id == t.id && d.body == t.body && d.key == t.key
            &&& d.fields.len() == m.fields.len()
            &&& forall|i: int|
                0 <= i < m.fields.len() ==> (m.fields[i].slot matches SlotView::Plain(kind, value)
                    ==> (#[trigger] d.fields[i]).slot == (if m.fields[i].class == Class::Private {
                    SlotView::Plain(
                        kind,
                        if value == Some(JsonView::Null) {
                            None
                        } else {
                            value
                        },
                    )
                } else {
                    t.fields[i].slot
                }))
        }),
{
    let entries = content::serializable(m, true);
    let private = JsonView::Object(entries);
    same_fields(t, m);
    assert forall|i: int| 0 <= i < t.fields.len() implies content::field_deserialized(
        #[trigger] t.fields[i],
        true,
    ).1 is None by {}
    fields_deserialized_all(t.fields);
    laws::fields_deserialized_keeps(t.fields, true);
    let inner = ModelView { fields: content::fields_deserialized(t.fields, true).0, ..t };
    assert(content::body_opened(inner, true) == Ok::<JsonView, ErrorView>(private));
    private_has_no_id(m);
    assert forall|i: int| 0 <= i < m.fields.len() implies {
        let g = #[trigger] inner.fields[i];
        &&& content::field_blank(g) == content::field_blank(m.fields[i])
        &&& laws::field_well_formed(g)
        &&& g.slot is Plain ==> g == t.fields[i]
    } by {
        assert(content::field_blank(t.fields[i]) == content::field_blank(m.fields[i]));
        assert(inner.fields[i] == content::field_deserialized(t.fields[i], true).0);
    }
    assert forall|i: int| 0 <= i < inner.fields.len() implies sub_taken(
        #[trigger] inner.fields[i],
        entries,
    ).1 is None by {
        assert(m.fields[i].slot matches SlotView::Sub(_, None) ==> m.fields[i].name == "type_"@);
        field_private_taken_into(inner.fields[i], m, i);
    }
    laws::kind_of_fields(m, ModelView { fields: inner.fields, ..m });
    subs_set_all(inner.fields, entries);
    let (fields, left, _) = content::subs_set(inner.fields, entries);
    let taken = ModelView { fields, ..inner };
    assert(!left.dom().contains("id"@));
    assert(!left.dom().contains("body"@));
    assert forall|i: int| 0 <= i < fields.len() implies content::field_set(
        #[trigger] fields[i],
        left,
    ).1 is None && shows_the_same(content::field_set(fields[i], left).0, m.fields[i], true) && (
    m.fields[i].slot matches SlotView::Plain(kind, value) ==> content::field_set(
        fields[i],
        left,
    ).0.slot == (if m.fields[i].class == Class::Private {
        SlotView::Plain(kind, as_read(value))
    } else {
        t.fields[i].slot
    })) by {
        let f = m.fields[i];
        let g = inner.fields[i];
        let name = content::json_name(f.name);
        assert(g.name == f.name) by {
            assert(content::field_blank(g).name == content::field_blank(f).name);
        }
        assert(fields[i] == sub_taken(g, entries).0);
        assert(f.slot matches SlotView::Sub(_, None) ==> f.name == "type_"@);
        field_private_taken_into(g, m, i);
        field_private_into(g, m, i);
        assert(laws::field_well_formed(f));
        laws::shown_at(m.fields, true, i);
        type_is_fixed(f.name);
        left_for_field(inner.fields, m, i);
        if left.dom().contains(name) {
            assert(left[name] == entries[name]);
        }
    }
    fields_set_all(fields, left);
    let r = content::set_multi(taken, JsonView::Object(left)).0;
    assert forall|i: int| 0 <= i < m.fields.len() implies shows_the_same(
        #[trigger] r.fields[i],
        m.fields[i],
        true,
    ) && (m.fields[i].slot matches SlotView::Plain(kind, value) ==> r.fields[i].slot == (
    if m.fields[i].class == Class::Private {
        SlotView::Plain(kind, as_read(value))
    } else {
        t.fields[i].slot
    })) by {
        assert(r.fields[i] == content::field_set(fields[i], left).0);
    }
    fields_show_the_same(r.fields, m.fields, true);
}

/// The entry of a field is left when the submodels have taken theirs, unless it is one of
/// theirs.
pub(crate) proof fn left_for_field(fields: Seq<FieldView>, m: ModelView, i: int)
    requires
        laws::distinct(fields),
        laws::same_kind(m.fields, fields),
        0 <= i < m.fields.len(),
    ensures
        names_sub(fields, content::json_name(m.fields[i].name)) == (fields[i].slot is Sub
            && m.fields[i].name != "type_"@),
{
    let f = m.fields[i];
    let name = content::json_name(f.name);
    type_is_fixed(f.name);
    assert(content::field_blank(fields[i]).name == content::field_blank(f).name);
    if names_sub(fields, name) {
        let j = choose|j: int|
            0 <= j < fields.len() && (#[trigger] fields[j]).slot is Sub && fields[j].name == name;
        type_is_fixed(fields[j].name);
        assert(content::json_name(fields[j].name) == name);
        assert(j == i) by {
            if j < i {
                assert(content::json_name(fields[j].name) != content::json_name(fields[i].name));
            }
            if i < j {
                assert(content::json_name(fields[i].name) != content::json_name(fields[j].name));
            }
        }
    } else if fields[i].slot is Sub && f.name != "type_"@ {
        assert(fields[i].name == name);
    }
}

} // verus!
