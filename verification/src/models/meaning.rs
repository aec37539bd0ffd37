//! What each operation on a model does, said of its parts: the values that go in and the values
//! that come out.

use vstd::prelude::*;
use vstd::utf8::*;

use crate::error::{CryptoError, ErrorView, TResult};
use crate::json;
use crate::json::{Json, JsonView};
use crate::models::content;
use crate::models::content::{Class, FieldView, Kind, ModelView, SlotView};
use crate::models::laws;
use crate::models::model;
use crate::models::protected;
use crate::models::roundtrip;

verus! {

/// Only the field `type_` has another name in JSON, which is that name without its last
/// character.
pub proof fn names_are_kept_but_type(name: Seq<char>)
    ensures
        name != "type_"@ ==> content::json_name(name) == name,
        content::json_name("type_"@) == "type_"@.take(4),
        content::json_name("type_"@) == seq!['t', 'y', 'p', 'e'],
{
    reveal_strlit("type_");
    reveal_strlit("type");
    assert("type"@ =~= "type_"@.take(4));
    assert("type"@ =~= seq!['t', 'y', 'p', 'e']);
}

/// Which values are of which type.
pub proof fn types_admit(
    b: bool,
    n: serde_json::Number,
    s: Seq<char>,
    items: Seq<JsonView>,
    j: JsonView,
    of: Kind,
)
    ensures
        content::fits(Kind::Any, j),
        content::fits(Kind::Bool, JsonView::Bool(b)),
        content::fits(Kind::Text, JsonView::Text(s)),
        content::fits(Kind::Int, JsonView::Number(n)) <==> json::number_i64(n) is Some,
        content::fits(Kind::List(Box::new(of)), JsonView::List(items)) <==> forall|i: int|
            0 <= i < items.len() ==> content::fits(of, #[trigger] items[i]),
        content::fits(Kind::Bool, j) ==> j is Bool,
        content::fits(Kind::Text, j) ==> j is Text,
        content::fits(Kind::Int, j) ==> j is Number,
        content::fits(Kind::List(Box::new(of)), j) ==> j is List,
        content::value_fits(of, None),
        content::value_fits(of, Some(j)) <==> content::fits(of, j),
{
    assert(JsonView::List(items)->List_0 == items);
}

/// A model is well-formed exactly when the names of its fields differ in JSON and are neither
/// `id` nor `body`, its values are of the types of their fields, and its submodels are well-formed
/// and of the kind of theirs.
pub proof fn well_formed_models(m: ModelView)
    ensures
        laws::well_formed(m) <==> {
            &&& forall|i: int, j: int|
                #![trigger m.fields[i], m.fields[j]]
                0 <= i < j < m.fields.len() ==> content::json_name(m.fields[i].name)
                    != content::json_name(m.fields[j].name)
            &&& forall|i: int|
                0 <= i < m.fields.len() ==> content::json_name((#[trigger] m.fields[i]).name)
                    != "id"@ && content::json_name(m.fields[i].name) != "body"@
            &&& forall|i: int|
                0 <= i < m.fields.len() ==> match (#[trigger] m.fields[i]).slot {
                    SlotView::Plain(_, None) => true,
                    SlotView::Plain(kind, Some(v)) => content::fits(kind, v),
                    SlotView::Sub(b, None) => laws::well_formed(*b) && content::blank(*b) == *b,
                    SlotView::Sub(b, Some(s)) => laws::well_formed(*b) && content::blank(*b) == *b
                        && laws::well_formed(*s) && content::blank(*s) == *b,
                }
        },
{
    if forall|i: int|
        0 <= i < m.fields.len() ==> match (#[trigger] m.fields[i]).slot {
            SlotView::Plain(_, None) => true,
            SlotView::Plain(kind, Some(v)) => content::fits(kind, v),
            SlotView::Sub(b, None) => laws::well_formed(*b) && content::blank(*b) == *b,
            SlotView::Sub(b, Some(s)) => laws::well_formed(*b) && content::blank(*b) == *b
                && laws::well_formed(*s) && content::blank(*s) == *b,
        } {
        assert forall|i: int| 0 <= i < m.fields.len() implies laws::field_well_formed(
            #[trigger] m.fields[i],
        ) by {}
    }
    if laws::well_formed(m) {
        assert forall|i: int| 0 <= i < m.fields.len() implies match (#[trigger] m.fields[i]).slot {
            SlotView::Plain(_, None) => true,
            SlotView::Plain(kind, Some(v)) => content::fits(kind, v),
            SlotView::Sub(b, None) => laws::well_formed(*b) && content::blank(*b) == *b,
            SlotView::Sub(b, Some(s)) => laws::well_formed(*b) && content::blank(*b) == *b
                && laws::well_formed(*s) && content::blank(*s) == *b,
        } by {
            assert(laws::field_well_formed(m.fields[i]));
        }
    }
}

/// All data of a model are its id, its body, and of each field that is not extra the very value
/// in it, or all data of the submodel in it; null stands for what is absent. There is nothing
/// else.
pub proof fn data_are_the_values(m: ModelView, i: int, name: Seq<char>)
    requires
        forall|i: int, j: int|
            #![trigger m.fields[i], m.fields[j]]
            0 <= i < j < m.fields.len() ==> content::json_name(m.fields[i].name)
                != content::json_name(m.fields[j].name),
        forall|i: int|
            0 <= i < m.fields.len() ==> content::json_name((#[trigger] m.fields[i]).name) != "id"@
                && content::json_name(m.fields[i].name) != "body"@,
    ensures
        content::data(m).dom().contains("id"@),
        content::data(m).dom().contains("body"@),
        match m.id {
            Some(s) => content::data(m)["id"@] == JsonView::Text(s),
            None => content::data(m)["id"@] == JsonView::Null,
        },
        match m.body {
            Some(s) => content::data(m)["body"@] == JsonView::Text(s),
            None => content::data(m)["body"@] == JsonView::Null,
        },
        0 <= i < m.fields.len() ==> {
            let key = content::json_name(m.fields[i].name);
            if m.fields[i].class == Class::Extra {
                !content::data(m).dom().contains(key)
            } else {
                &&& content::data(m).dom().contains(key)
                &&& match m.fields[i].slot {
                    SlotView::Plain(_, Some(v)) => content::data(m)[key] == v,
                    SlotView::Plain(_, None) => content::data(m)[key] == JsonView::Null,
                    SlotView::Sub(_, Some(s)) => content::data(m)[key] == JsonView::Object(
                        content::data(*s),
                    ),
                    SlotView::Sub(_, None) => content::data(m)[key] == JsonView::Null,
                }
            }
        },
        content::data(m).dom().contains(name) && name != "id"@ && name != "body"@ ==> exists|k: int|
            0 <= k < m.fields.len() && content::json_name((#[trigger] m.fields[k]).name) == name
                && m.fields[k].class != Class::Extra,
{
    assert(laws::distinct(m.fields));
    id_is_not_body();
    if 0 <= i < m.fields.len() {
        laws::data_at(m.fields, i);
    }
    if content::fields_data(m.fields).dom().contains(name) {
        let k = laws::data_from(m.fields, name);
        assert(content::json_name(m.fields[k].name) == name);
    }
}

proof fn id_is_not_body()
    ensures
        "id"@ != "body"@,
{
    reveal_strlit("id");
    reveal_strlit("body");
    assert("id"@.len() != "body"@.len());
}

/// The private data of a model are the very values of its private fields, and its public data
/// those of its public fields with id and body. In both, a submodel shows its own private or
/// public data; null stands for what is absent. There is nothing else.
pub proof fn shown_are_the_values(m: ModelView, private: bool, i: int, name: Seq<char>)
    requires
        forall|i: int, j: int|
            #![trigger m.fields[i], m.fields[j]]
            0 <= i < j < m.fields.len() ==> content::json_name(m.fields[i].name)
                != content::json_name(m.fields[j].name),
        forall|i: int|
            0 <= i < m.fields.len() ==> content::json_name((#[trigger] m.fields[i]).name) != "id"@
                && content::json_name(m.fields[i].name) != "body"@,
    ensures
        content::private_json(m) == JsonView::Object(content::serializable(m, true)),
        private ==> !content::serializable(m, true).dom().contains("id"@)
            && !content::serializable(m, true).dom().contains("body"@),
        !private ==> {
            let all = content::serializable(m, false);
            &&& all.dom().contains("id"@) && all.dom().contains("body"@)
            &&& match m.id {
                Some(s) => all["id"@] == JsonView::Text(s),
                None => all["id"@] == JsonView::Null,
            }
            &&& match m.body {
                Some(s) => all["body"@] == JsonView::Text(s),
                None => all["body"@] == JsonView::Null,
            }
        },
        0 <= i < m.fields.len() ==> {
            let all = content::serializable(m, private);
            let key = content::json_name(m.fields[i].name);
            match m.fields[i].slot {
                SlotView::Plain(_, value) => if m.fields[i].class == (if private {
                    Class::Private
                } else {
                    Class::Public
                }) {
                    &&& all.dom().contains(key)
                    &&& value matches Some(v) ==> all[key] == v
                    &&& value is None ==> all[key] == JsonView::Null
                } else {
                    !all.dom().contains(key)
                },
                SlotView::Sub(_, Some(s)) => all.dom().contains(key) && all[key]
                    == JsonView::Object(content::serializable(*s, private)),
                SlotView::Sub(_, None) => all.dom().contains(key) && all[key] == JsonView::Null,
            }
        },
        content::serializable(m, private).dom().contains(name) && name != "id"@ && name != "body"@
            ==> exists|k: int|
            0 <= k < m.fields.len() && content::json_name((#[trigger] m.fields[k]).name) == name,
{
    assert(laws::distinct(m.fields));
    id_is_not_body();
    if 0 <= i < m.fields.len() {
        laws::shown_at(m.fields, private, i);
    }
    if content::fields_shown(m.fields, private).dom().contains(name) {
        let k = laws::shown_from(m.fields, private, name);
        assert(content::json_name(m.fields[k].name) == name);
    }
    if content::fields_shown(m.fields, true).dom().contains("id"@) {
        let k = laws::shown_from(m.fields, true, "id"@);
        assert(content::json_name(m.fields[k].name) == "id"@);
    }
    if content::fields_shown(m.fields, true).dom().contains("body"@) {
        let k = laws::shown_from(m.fields, true, "body"@);
        assert(content::json_name(m.fields[k].name) == "body"@);
    }
}

/// What a submodel shows by its name is its own private or public data, or null where it is
/// absent; by a name that no submodel has, nothing is shown.
pub proof fn submodels_show_their_own(m: ModelView, private: bool, i: int, name: Seq<char>)
    requires
        forall|i: int, j: int|
            #![trigger m.fields[i], m.fields[j]]
            0 <= i < j < m.fields.len() ==> content::json_name(m.fields[i].name)
                != content::json_name(m.fields[j].name),
        forall|i: int|
            0 <= i < m.fields.len() ==> content::json_name((#[trigger] m.fields[i]).name) != "id"@
                && content::json_name(m.fields[i].name) != "body"@,
    ensures
        0 <= i < m.fields.len() ==> {
            let got = content::sub_shown(
                m.fields,
                content::json_name(m.fields[i].name),
                private,
            );
            match m.fields[i].slot {
                SlotView::Sub(_, Some(s)) => got == Some(
                    JsonView::Object(content::serializable(*s, private)),
                ),
                SlotView::Sub(_, None) => got == Some(JsonView::Null),
                SlotView::Plain(_, _) => got is None,
            }
        },
        content::sub_shown(m.fields, name, private) is Some ==> exists|k: int|
            0 <= k < m.fields.len() && content::json_name((#[trigger] m.fields[k]).name) == name
                && m.fields[k].slot is Sub,
{
    assert(laws::distinct(m.fields));
    if 0 <= i < m.fields.len() {
        let key = content::json_name(m.fields[i].name);
        if m.fields[i].slot is Sub {
            laws::sub_shown_at(m.fields, private, i);
        } else if content::sub_shown(m.fields, key, private) is Some {
            let k = laws::sub_shown_from(m.fields, key, private);
            assert(k == i) by {
                if k < i {
                    assert(content::json_name(m.fields[k].name) != content::json_name(
                        m.fields[i].name,
                    ));
                }
                if i < k {
                    assert(content::json_name(m.fields[i].name) != content::json_name(
                        m.fields[k].name,
                    ));
                }
            }
        }
    }
    if content::sub_shown(m.fields, name, private) is Some {
        let k = laws::sub_shown_from(m.fields, name, private);
        assert(content::json_name(m.fields[k].name) == name);
    }
}

/// Setting a key, or that there is none, sets it and leaves all else: id, body, names, classes,
/// values, and which submodels there are. A key goes to each submodel in the same way; that there
/// is none does not.
pub proof fn setting_a_key_sets_it(m: ModelView, key: Option<Seq<u8>>, i: int)
    ensures
        ({
            let n = content::keyed(m, key);
            &&& n.key == key
            &&& n.name == m.name && n.model_type == m.model_type && n.id == m.id && n.body == m.body
            &&& n.fields.len() == m.fields.len()
            &&& key is None ==> n.fields == m.fields
            &&& 0 <= i < m.fields.len() && key is Some ==> {
                &&& n.fields[i].name == m.fields[i].name
                &&& n.fields[i].class == m.fields[i].class
                &&& match m.fields[i].slot {
                    SlotView::Plain(_, _) => n.fields[i].slot == m.fields[i].slot,
                    SlotView::Sub(_, None) => n.fields[i].slot == m.fields[i].slot,
                    SlotView::Sub(b, Some(s)) => n.fields[i].slot == SlotView::Sub(
                        b,
                        Some(Box::new(content::keyed(*s, key))),
                    ),
                }
            }
            &&& key matches Some(k) ==> n.fields == content::fields_keyed(m.fields, k)
        }),
{
    if 0 <= i < m.fields.len() && key is Some {
        assert(content::keyed(m, key).fields[i] == content::field_keyed(m.fields[i], key->0));
    }
}

/// A blank model has the fields of the model, each without a value or a submodel, and has no id,
/// no body and no key.
pub proof fn blank_has_nothing_set(m: ModelView, i: int)
    ensures
        ({
            let n = content::blank(m);
            &&& n.name == m.name && n.model_type == m.model_type
            &&& n.id is None && n.body is None && n.key is None
            &&& n.fields.len() == m.fields.len()
            &&& 0 <= i < m.fields.len() ==> {
                &&& n.fields[i].name == m.fields[i].name
                &&& n.fields[i].class == m.fields[i].class
                &&& m.fields[i].slot matches SlotView::Plain(kind, _) ==> n.fields[i].slot
                    == SlotView::Plain(kind, None)
                &&& m.fields[i].slot matches SlotView::Sub(b, _) ==> n.fields[i].slot
                    == SlotView::Sub(b, None)
            }
        }),
{
    if 0 <= i < m.fields.len() {
        assert(content::blank(m).fields[i] == content::field_blank(m.fields[i]));
    }
}

/// Setting fields goes well exactly when setting each does.
proof fn fields_set_each(fields: Seq<FieldView>, entries: Map<Seq<char>, JsonView>)
    ensures
        content::fields_set(fields, entries).0.len() == fields.len(),
        content::fields_set(fields, entries).1 is None <==> forall|i: int|
            0 <= i < fields.len() ==> content::field_set(#[trigger] fields[i], entries).1 is None,
        content::fields_set(fields, entries).1 is None ==> forall|i: int|
            0 <= i < fields.len() ==> #[trigger] content::fields_set(fields, entries).0[i]
                == content::field_set(fields[i], entries).0,
    decreases fields.len(),
{
    if fields.len() > 0 {
        let rest = fields.drop_last();
        let last = fields.len() - 1;
        fields_set_each(rest, entries);
        assert(fields[last] == fields.last());
        if content::fields_set(fields, entries).1 is None {
            assert forall|i: int| 0 <= i < fields.len() implies content::field_set(
                #[trigger] fields[i],
                entries,
            ).1 is None && content::fields_set(fields, entries).0[i] == content::field_set(
                fields[i],
                entries,
            ).0 by {
                if i < last {
                    assert(rest[i] == fields[i]);
                    assert(content::fields_set(rest, entries).0[i] == content::field_set(
                        rest[i],
                        entries,
                    ).0);
                }
            }
        } else if forall|i: int|
            0 <= i < fields.len() ==> content::field_set(#[trigger] fields[i], entries).1 is None {
            assert forall|i: int| 0 <= i < rest.len() implies content::field_set(
                #[trigger] rest[i],
                entries,
            ).1 is None by {
                assert(rest[i] == fields[i]);
            }
            assert(content::field_set(fields[last], entries).1 is None);
        }
    }
}

/// Setting fields that stops stops at one of them.
proof fn fields_set_first(fields: Seq<FieldView>, entries: Map<Seq<char>, JsonView>) -> (k: int)
    requires
        content::fields_set(fields, entries).1 is Some,
    ensures
        0 <= k < fields.len(),
        content::fields_set(fields, entries).0.len() == fields.len(),
        content::field_set(fields[k], entries).1 == content::fields_set(fields, entries).1,
        content::fields_set(fields, entries).0[k] == content::field_set(fields[k], entries).0,
        forall|j: int|
            0 <= j < k ==> content::field_set(#[trigger] fields[j], entries).1 is None
                && content::fields_set(fields, entries).0[j] == content::field_set(
                fields[j],
                entries,
            ).0,
        forall|j: int|
            k < j < fields.len() ==> content::fields_set(fields, entries).0[j]
                == #[trigger] fields[j],
    decreases fields.len(),
{
    let rest = fields.drop_last();
    let last = fields.len() - 1;
    assert(fields[last] == fields.last());
    fields_set_each(fields, entries);
    fields_set_each(rest, entries);
    if content::fields_set(rest, entries).1 is Some {
        let k = fields_set_first(rest, entries);
        assert(rest[k] == fields[k]);
        assert forall|j: int| 0 <= j < k implies content::field_set(
            #[trigger] fields[j],
            entries,
        ).1 is None && content::fields_set(fields, entries).0[j] == content::field_set(
            fields[j],
            entries,
        ).0 by {
            assert(rest[j] == fields[j]);
        }
        assert forall|j: int| k < j < fields.len() implies content::fields_set(fields, entries).0[j]
            == #[trigger] fields[j] by {
            if j < last {
                assert(rest[j] == fields[j]);
            }
        }
        k
    } else {
        assert forall|j: int| 0 <= j < last implies content::field_set(
            #[trigger] fields[j],
            entries,
        ).1 is None && content::fields_set(fields, entries).0[j] == content::field_set(
            fields[j],
            entries,
        ).0 by {
            assert(rest[j] == fields[j]);
            assert(content::fields_set(rest, entries).0[j] == content::field_set(
                rest[j],
                entries,
            ).0);
        }
        last
    }
}

/// A model can be set from an object exactly when id and body are given as texts or null, or
/// not at all, each value that is given for a field that is not extra is null or of the field's
/// type, and each submodel can be set from what is given for it. It cannot be set from anything
/// else.
pub proof fn when_a_model_can_be_set(m: ModelView, value: JsonView)
    ensures
        !(value is Object) ==> content::set_multi(m, value) == (
            m,
            Some(ErrorView::BadValue("Model::set_multi() -- invalid JSON object"@)),
        ),
        value matches JsonView::Object(entries) ==> (content::set_multi(m, value).1 is None <==> {
            &&& entries.dom().contains("id"@) ==> entries["id"@] is Null || entries["id"@] is Text
            &&& entries.dom().contains("body"@) ==> entries["body"@] is Null
                || entries["body"@] is Text
            &&& forall|i: int|
                0 <= i < m.fields.len() && (#[trigger] m.fields[i]).class != Class::Extra
                    && entries.dom().contains(content::json_name(m.fields[i].name)) ==> {
                    let v = entries[content::json_name(m.fields[i].name)];
                    v is Null || match m.fields[i].slot {
                        SlotView::Plain(kind, _) => content::fits(kind, v),
                        SlotView::Sub(_, Some(s)) => content::set_multi(*s, v).1 is None,
                        SlotView::Sub(b, None) => content::set_multi(*b, v).1 is None,
                    }
                }
        }),
{
    match value {
        JsonView::Object(entries) => {
            fields_set_each(m.fields, entries);
            if forall|i: int|
                0 <= i < m.fields.len() && (#[trigger] m.fields[i]).class != Class::Extra
                    && entries.dom().contains(content::json_name(m.fields[i].name)) ==> {
                    let v = entries[content::json_name(m.fields[i].name)];
                    v is Null || match m.fields[i].slot {
                        SlotView::Plain(kind, _) => content::fits(kind, v),
                        SlotView::Sub(_, Some(s)) => content::set_multi(*s, v).1 is None,
                        SlotView::Sub(b, None) => content::set_multi(*b, v).1 is None,
                    }
                } {
                assert forall|i: int| 0 <= i < m.fields.len() implies content::field_set(
                    #[trigger] m.fields[i],
                    entries,
                ).1 is None by {}
            }
            if content::set_multi(m, value).1 is None {
                assert forall|i: int|
                    0 <= i < m.fields.len() && (#[trigger] m.fields[i]).class != Class::Extra
                        && entries.dom().contains(
                        content::json_name(m.fields[i].name),
                    ) implies {
                    let v = entries[content::json_name(m.fields[i].name)];
                    v is Null || match m.fields[i].slot {
                        SlotView::Plain(kind, _) => content::fits(kind, v),
                        SlotView::Sub(_, Some(s)) => content::set_multi(*s, v).1 is None,
                        SlotView::Sub(b, None) => content::set_multi(*b, v).1 is None,
                    }
                } by {
                    assert(content::field_set(m.fields[i], entries).1 is None);
                }
            }
        },
        _ => {},
    }
}

/// A model that was set from an object has what the object gives: id, body, and in each field
/// that is not extra the very value, or the submodel set from it, a new one where there was none;
/// null takes away what was there. What the object does not give, extra fields and the key stay
/// as they were.
pub proof fn set_model_has_what_was_given(
    m: ModelView,
    entries: Map<Seq<char>, JsonView>,
    i: int,
)
    requires
        content::set_multi(m, JsonView::Object(entries)).1 is None,
    ensures
        ({
            let n = content::set_multi(m, JsonView::Object(entries)).0;
            &&& n.name == m.name && n.model_type == m.model_type && n.key == m.key
            &&& n.fields.len() == m.fields.len()
            &&& if entries.dom().contains("id"@) {
                n.id == (match entries["id"@] {
                    JsonView::Text(s) => Some(s),
                    _ => None,
                })
            } else {
                n.id == m.id
            }
            &&& if entries.dom().contains("body"@) {
                n.body == (match entries["body"@] {
                    JsonView::Text(s) => Some(s),
                    _ => None,
                })
            } else {
                n.body == m.body
            }
            &&& 0 <= i < m.fields.len() ==> {
                let f = m.fields[i];
                let g = n.fields[i];
                let key = content::json_name(f.name);
                &&& g.name == f.name && g.class == f.class
                &&& if f.class == Class::Extra || !entries.dom().contains(key) {
                    g == f
                } else {
                    match f.slot {
                        SlotView::Plain(kind, _) => g.slot == SlotView::Plain(
                            kind,
                            if entries[key] is Null {
                                None
                            } else {
                                Some(entries[key])
                            },
                        ),
                        SlotView::Sub(b, current) => if entries[key] is Null {
                            g.slot == SlotView::Sub(b, None)
                        } else {
                            let s = match current {
                                Some(s) => s,
                                None => b,
                            };
                            g.slot == SlotView::Sub(
                                b,
                                Some(Box::new(content::set_multi(*s, entries[key]).0)),
                            )
                        },
                    }
                }
            }
        }),
{
    fields_set_each(m.fields, entries);
    if 0 <= i < m.fields.len() {
        assert(content::set_multi(m, JsonView::Object(entries)).0.fields[i] == content::field_set(
            m.fields[i],
            entries,
        ).0);
    }
}

/// A model that could not be set tells why: the id is no text, the body is none, or a value is
/// refused by its field. What comes before is set as if it were all there is; the fields after
/// that one stay as they were, and so does the key.
pub proof fn refused_model_tells_the_first(m: ModelView, entries: Map<Seq<char>, JsonView>)
    requires
        content::set_multi(m, JsonView::Object(entries)).1 is Some,
    ensures
        ({
            let (n, e) = content::set_multi(m, JsonView::Object(entries));
            let bad_id = entries.dom().contains("id"@) && !(entries["id"@] is Null)
                && !(entries["id"@] is Text);
            let bad_body = entries.dom().contains("body"@) && !(entries["body"@] is Null)
                && !(entries["body"@] is Text);
            &&& n.name == m.name && n.model_type == m.model_type && n.key == m.key
            &&& n.fields.len() == m.fields.len()
            &&& bad_id ==> n == m && e == Some(
                ErrorView::BadValue("Model::set_multi() -- invalid text field "@ + "id"@),
            )
            &&& !bad_id && bad_body ==> n.body == m.body && n.fields == m.fields && e == Some(
                ErrorView::BadValue("Model::set_multi() -- invalid text field "@ + "body"@),
            )
            &&& !bad_id ==> n.id == (if !entries.dom().contains("id"@) {
                m.id
            } else {
                match entries["id"@] {
                    JsonView::Text(s) => Some(s),
                    _ => None,
                }
            })
            &&& !bad_id && !bad_body ==> exists|k: int| {
                &&& 0 <= k < m.fields.len()
                &&& m.fields[k].class != Class::Extra
                &&& entries.dom().contains(content::json_name(m.fields[k].name))
                &&& match (#[trigger] m.fields[k]).slot {
                    SlotView::Plain(_, _) => n.fields[k] == m.fields[k] && e == Some(
                        ErrorView::BadValue(
                            "Model::set_multi() -- invalid value for field "@ + content::json_name(
                                m.fields[k].name,
                            ),
                        ),
                    ),
                    SlotView::Sub(b, current) => {
                        let s = match current {
                            Some(s) => s,
                            None => b,
                        };
                        let (after, why) = content::set_multi(
                            *s,
                            entries[content::json_name(m.fields[k].name)],
                        );
                        e == why && n.fields[k].slot == SlotView::Sub(b, Some(Box::new(after)))
                    },
                }
                &&& ({
                    let part = ModelView { fields: m.fields.take(k), ..m };
                    let (set, why) = content::set_multi(part, JsonView::Object(entries));
                    &&& why is None
                    &&& set.id == n.id && set.body == n.body && set.fields == n.fields.take(k)
                })
                &&& forall|j: int| k < j < m.fields.len() ==> n.fields[j] == #[trigger] m.fields[j]
            }
        }),
{
    let (n, e) = content::set_multi(m, JsonView::Object(entries));
    fields_set_each(m.fields, entries);
    if content::text_set(m.id, entries, "id"@).1 is None && content::text_set(
        m.body,
        entries,
        "body"@,
    ).1 is None {
        let k = fields_set_first(m.fields, entries);
        assert(content::field_set(m.fields[k], entries).1 == e);
        assert(m.fields[k].slot is Plain ==> n.fields[k] == m.fields[k]);
        let part = m.fields.take(k);
        fields_set_each(part, entries);
        assert forall|j: int| 0 <= j < part.len() implies content::field_set(
            #[trigger] part[j],
            entries,
        ).1 is None by {
            assert(part[j] == m.fields[j]);
        }
        assert(content::fields_set(part, entries).0 =~= n.fields.take(k)) by {
            assert forall|j: int| 0 <= j < k implies #[trigger] content::fields_set(
                part,
                entries,
            ).0[j] == n.fields.take(k)[j] by {
                assert(part[j] == m.fields[j]);
                assert(content::field_set(m.fields[j], entries).1 is None);
            }
        }
    }
}

/// The field is of the class, or holds a submodel.
pub open spec fn of_sort(f: FieldView, class: Option<Class>) -> bool {
    match class {
        Some(c) => f.class == c,
        None => f.slot is Sub,
    }
}

/// A name in a list of names, and the fields that it comes from, in order: a place for each name,
/// one after the other, and no field of the sort left out.
pub open spec fn listed_in_order(
    fields: Seq<FieldView>,
    class: Option<Class>,
    names: Seq<Seq<char>>,
    places: Seq<int>,
) -> bool {
    &&& places.len() == names.len()
    &&& forall|a: int, b: int| 0 <= a < b < places.len() ==> places[a] < places[b]
    &&& forall|a: int|
        0 <= a < places.len() ==> {
            &&& 0 <= #[trigger] places[a] < fields.len()
            &&& of_sort(fields[places[a]], class)
            &&& names[a] == content::json_name(fields[places[a]].name)
        }
    &&& forall|i: int|
        0 <= i < fields.len() && of_sort(#[trigger] fields[i], class) ==> places.contains(i)
}

/// One more field, of the sort or not, at the end of a list.
proof fn listed_one_more(
    fields: Seq<FieldView>,
    class: Option<Class>,
    names: Seq<Seq<char>>,
    places: Seq<int>,
)
    requires
        fields.len() > 0,
        listed_in_order(fields.drop_last(), class, names, places),
    ensures
        of_sort(fields.last(), class) ==> listed_in_order(
            fields,
            class,
            names.push(content::json_name(fields.last().name)),
            places.push(fields.len() - 1),
        ),
        !of_sort(fields.last(), class) ==> listed_in_order(fields, class, names, places),
{
    let rest = fields.drop_last();
    let last = fields.len() - 1;
    assert(fields[last] == fields.last());
    let more = if of_sort(fields.last(), class) {
        places.push(last)
    } else {
        places
    };
    let longer = if of_sort(fields.last(), class) {
        names.push(content::json_name(fields.last().name))
    } else {
        names
    };
    assert forall|a: int| 0 <= a < more.len() implies {
        &&& 0 <= #[trigger] more[a] < fields.len()
        &&& of_sort(fields[more[a]], class)
        &&& longer[a] == content::json_name(fields[more[a]].name)
    } by {
        if a < places.len() {
            assert(more[a] == places[a]);
            assert(rest[places[a]] == fields[places[a]]);
        }
    }
    assert forall|i: int|
        0 <= i < fields.len() && of_sort(#[trigger] fields[i], class) implies more.contains(i) by {
        if i < last {
            assert(rest[i] == fields[i]);
            let a = choose|a: int| 0 <= a < places.len() && places[a] == i;
            assert(more[a] == i);
        } else {
            assert(more[places.len() as int] == i);
        }
    }
    assert forall|a: int, b: int| 0 <= a < b < more.len() implies more[a] < more[b] by {
        assert(more[a] == places[a]);
        if b < places.len() {
            assert(more[b] == places[b]);
        }
    }
}

/// The names of the public fields are `id`, `body`, and the JSON names of the fields of the
/// class in their order, and so are those of the private fields without the first two; each field
/// of the class is in the list once. The same holds of the fields with submodels.
pub proof fn names_come_in_order(m: ModelView)
    ensures
        protected::public_names(m).len() >= 2,
        protected::public_names(m)[0] == "id"@,
        protected::public_names(m)[1] == "body"@,
        exists|places: Seq<int>|
            listed_in_order(
                m.fields,
                Some(Class::Public),
                protected::public_names(m).skip(2),
                places,
            ),
        exists|places: Seq<int>|
            listed_in_order(
                m.fields,
                Some(Class::Private),
                protected::private_names(m),
                places,
            ),
        exists|places: Seq<int>|
            listed_in_order(
                m.fields,
                None,
                content::sub_names(m.fields),
                places,
            ),
{
    let p = class_listed(m.fields, Class::Public);
    assert(protected::public_names(m).skip(2) =~= content::class_names(m.fields, Class::Public));
    let q = class_listed(m.fields, Class::Private);
    assert(listed_in_order(m.fields, Some(Class::Private), protected::private_names(m), q));
    let s = subs_listed(m.fields);
}

proof fn class_listed(fields: Seq<FieldView>, class: Class) -> (places: Seq<int>)
    ensures
        listed_in_order(
            fields,
            Some(class),
            content::class_names(fields, class),
            places,
        ),
    decreases fields.len(),
{
    if fields.len() == 0 {
        Seq::empty()
    } else {
        let places = class_listed(fields.drop_last(), class);
        listed_one_more(
            fields,
            Some(class),
            content::class_names(fields.drop_last(), class),
            places,
        );
        if fields.last().class == class {
            places.push(fields.len() - 1)
        } else {
            places
        }
    }
}

proof fn subs_listed(fields: Seq<FieldView>) -> (places: Seq<int>)
    ensures
        listed_in_order(
            fields,
            None,
            content::sub_names(fields),
            places,
        ),
    decreases fields.len(),
{
    if fields.len() == 0 {
        Seq::empty()
    } else {
        let places = subs_listed(fields.drop_last());
        listed_one_more(
            fields,
            None,
            content::sub_names(fields.drop_last()),
            places,
        );
        if fields.last().slot is Sub {
            places.push(fields.len() - 1)
        } else {
            places
        }
    }
}

/// Of a model's data, those under the names asked for are given, as they are, and no others.
pub proof fn asked_data_are_given(
    entries: Map<Seq<char>, JsonView>,
    names: Seq<Seq<char>>,
    name: Seq<char>,
)
    ensures
        protected::selected(entries, names).dom().contains(name) <==> names.contains(name)
            && entries.dom().contains(name),
        names.contains(name) && entries.dom().contains(name) ==> protected::selected(
            entries,
            names,
        )[name] == entries[name],
{
}

/// The texts of strings are the texts of each, in order.
pub proof fn texts_of_strings(strings: Seq<String>)
    ensures
        protected::texts(strings).len() == strings.len(),
        forall|i: int|
            0 <= i < strings.len() ==> #[trigger] protected::texts(strings)[i] == strings[i]@,
{
}

/// A model is printed as its type, its id in brackets after a colon and a space, and nothing
/// else; one without an id says so.
pub proof fn printed_models(m: ModelView)
    ensures
        ({
            let id = match m.id {
                Some(id) => id,
                None => seq!['<', 'n', 'o', ' ', 'i', 'd', '>'],
            };
            let n = m.model_type.len() as int;
            let text = content::debug(m);
            &&& text.len() == n + id.len() + 4
            &&& text.take(n) == m.model_type
            &&& text.subrange(n, n + 3) == seq![':', ' ', '(']
            &&& text.subrange(n + 3, n + 3 + id.len()) == id
            &&& text.last() == ')'
        }),
{
    reveal_strlit("<no id>");
    reveal_strlit(": (");
    reveal_strlit(")");
    let id = content::id_text(m);
    let n = m.model_type.len() as int;
    let text = content::debug(m);
    assert("<no id>"@ =~= seq!['<', 'n', 'o', ' ', 'i', 'd', '>']);
    assert(text.take(n) =~= m.model_type);
    assert(text.subrange(n, n + 3) =~= seq![':', ' ', '(']);
    assert(text.subrange(n + 3, n + 3 + id.len()) =~= id);
}

/// A field is found by its own name, the first of those that hold a value or of those that hold a
/// submodel.
pub proof fn fields_are_found_by_name(fields: Seq<FieldView>, name: Seq<char>, sub: bool)
    ensures
        match model::field_index(fields, name, sub) {
            Some(i) => {
                &&& 0 <= i < fields.len()
                &&& fields[i].name == name
                &&& (fields[i].slot is Sub) == sub
                &&& forall|j: int|
                    0 <= j < i ==> !((#[trigger] fields[j]).name == name && (fields[j].slot is Sub)
                        == sub)
            },
            None => forall|j: int|
                0 <= j < fields.len() ==> !((#[trigger] fields[j]).name == name && (
                fields[j].slot is Sub) == sub),
        },
    decreases fields.len(),
{
    if fields.len() > 0 {
        let rest = fields.drop_last();
        let last = fields.len() - 1;
        fields_are_found_by_name(rest, name, sub);
        assert(fields[last] == fields.last());
        match model::field_index(rest, name, sub) {
            Some(i) => {
                assert(rest[i] == fields[i]);
                assert forall|j: int| 0 <= j < i implies !((#[trigger] fields[j]).name == name && (
                fields[j].slot is Sub) == sub) by {
                    assert(rest[j] == fields[j]);
                }
            },
            None => {
                assert forall|j: int| 0 <= j < last implies !((#[trigger] fields[j]).name == name
                    && (fields[j].slot is Sub) == sub) by {
                    assert(rest[j] == fields[j]);
                }
            },
        }
    }
}

/// A value that is set stands in its field, and nothing else changes.
pub proof fn set_value_stands_in_its_field(
    m: ModelView,
    i: int,
    value: Option<JsonView>,
    j: int,
)
    requires
        0 <= i < m.fields.len(),
        m.fields[i].slot is Plain,
        0 <= j < m.fields.len(),
    ensures
        ({
            let n = content::value_set(m, i, value);
            &&& n.name == m.name && n.model_type == m.model_type && n.id == m.id && n.body == m.body
                && n.key == m.key && n.fields.len() == m.fields.len()
            &&& n.fields[i].name == m.fields[i].name && n.fields[i].class == m.fields[i].class
            &&& n.fields[i].slot == SlotView::Plain(m.fields[i].slot->Plain_0, value)
            &&& j != i ==> n.fields[j] == m.fields[j]
        }),
{
}

/// Handing out entries goes well exactly when it does for each submodel.
proof fn subs_set_each(fields: Seq<FieldView>, entries: Map<Seq<char>, JsonView>)
    requires
        laws::distinct(fields),
    ensures
        content::subs_set(fields, entries).2 is None <==> forall|i: int|
            0 <= i < fields.len() ==> roundtrip::sub_taken(#[trigger] fields[i], entries).1 is None,
    decreases fields.len(),
{
    if fields.len() > 0 {
        let rest = fields.drop_last();
        let last = fields.len() - 1;
        let f = fields.last();
        assert(fields[last] == f);
        assert(laws::distinct(rest));
        subs_set_each(rest, entries);
        if content::subs_set(fields, entries).2 is None {
            roundtrip::subs_set_all(rest, entries);
            let left = content::subs_set(rest, entries).1;
            assert(!roundtrip::names_sub(rest, f.name)) by {
                if roundtrip::names_sub(rest, f.name) {
                    let i = choose|i: int|
                        0 <= i < rest.len() && (#[trigger] rest[i]).slot is Sub && rest[i].name
                            == f.name;
                    assert(fields[i] == rest[i]);
                    assert(content::json_name(fields[i].name) != content::json_name(
                        fields[last].name,
                    ));
                }
            }
            assert(left.dom().contains(f.name) == entries.dom().contains(f.name));
            assert(left.dom().contains(f.name) ==> left[f.name] == entries[f.name]);
            assert forall|i: int| 0 <= i < fields.len() implies roundtrip::sub_taken(
                #[trigger] fields[i],
                entries,
            ).1 is None by {
                if i < last {
                    assert(rest[i] == fields[i]);
                }
            }
        } else if forall|i: int|
            0 <= i < fields.len() ==> roundtrip::sub_taken(
                #[trigger] fields[i],
                entries,
            ).1 is None {
            roundtrip::subs_set_all(fields, entries);
        }
    }
}

/// A model with its submodels can be set from an object exactly when it could be set from it, but
/// that each submodel has to be set from the entry of its name, null or not. It then has what the
/// object gives: what it has when it is set, but that each submodel is set from the entry of its
/// name, a new one where there was none. It cannot be set from anything else.
#[verifier::rlimit(50)]
pub proof fn set_with_submodels_has_what_was_given(
    m: ModelView,
    entries: Map<Seq<char>, JsonView>,
    other: JsonView,
)
    requires
        forall|i: int, j: int|
            #![trigger m.fields[i], m.fields[j]]
            0 <= i < j < m.fields.len() ==> content::json_name(m.fields[i].name)
                != content::json_name(m.fields[j].name),
        forall|i: int|
            0 <= i < m.fields.len() ==> content::json_name((#[trigger] m.fields[i]).name) != "id"@
                && content::json_name(m.fields[i].name) != "body"@,
        !entries.dom().contains("type_"@),
        !(other is Object),
    ensures
        content::set_multi_recursive(m, other) == (
            m,
            Some(ErrorView::BadValue("protected.set_multi() -- invalid JSON object"@)),
        ),
        content::set_multi_recursive(m, JsonView::Object(entries)).1 is None <==> {
            &&& entries.dom().contains("id"@) ==> entries["id"@] is Null || entries["id"@] is Text
            &&& entries.dom().contains("body"@) ==> entries["body"@] is Null
                || entries["body"@] is Text
            &&& forall|i: int|
                0 <= i < m.fields.len() ==> {
                    let f = #[trigger] m.fields[i];
                    let key = content::json_name(f.name);
                    let v = entries[key];
                    entries.dom().contains(key) ==> match f.slot {
                        SlotView::Plain(kind, _) => f.class == Class::Extra || v is Null
                            || content::fits(kind, v),
                        SlotView::Sub(b, current) => {
                            let s = match current {
                                Some(s) => s,
                                None => b,
                            };
                            ||| content::set_multi(*s, v).1 is None
                            ||| f.name == "type_"@ && (f.class == Class::Extra || v is Null)
                        },
                    }
                }
        },
        content::set_multi_recursive(m, JsonView::Object(entries)).1 is None ==> {
            let n = content::set_multi_recursive(m, JsonView::Object(entries)).0;
            &&& n.name == m.name && n.model_type == m.model_type && n.key == m.key
            &&& n.fields.len() == m.fields.len()
            &&& if entries.dom().contains("id"@) {
                n.id == (match entries["id"@] {
                    JsonView::Text(s) => Some(s),
                    _ => None,
                })
            } else {
                n.id == m.id
            }
            &&& if entries.dom().contains("body"@) {
                n.body == (match entries["body"@] {
                    JsonView::Text(s) => Some(s),
                    _ => None,
                })
            } else {
                n.body == m.body
            }
            &&& forall|i: int|
                0 <= i < m.fields.len() ==> {
                    let f = m.fields[i];
                    let g = #[trigger] n.fields[i];
                    let key = content::json_name(f.name);
                    let v = entries[key];
                    if !entries.dom().contains(key) {
                        g == f
                    } else {
                        match f.slot {
                            SlotView::Plain(kind, _) => if f.class == Class::Extra {
                                g == f
                            } else {
                                g == FieldView {
                                    slot: SlotView::Plain(
                                        kind,
                                        if v is Null {
                                            None
                                        } else {
                                            Some(v)
                                        },
                                    ),
                                    ..f
                                }
                            },
                            SlotView::Sub(b, current) => if f.name == "type_"@ && f.class
                                == Class::Extra {
                                g == f
                            } else if f.name == "type_"@ && v is Null {
                                g == FieldView { slot: SlotView::Sub(b, None), ..f }
                            } else {
                                let s = match current {
                                    Some(s) => s,
                                    None => b,
                                };
                                g == FieldView {
                                    slot: SlotView::Sub(
                                        b,
                                        Some(Box::new(content::set_multi(*s, v).0)),
                                    ),
                                    ..f
                                }
                            },
                        }
                    }
                }
        },
{
    let fields = m.fields;
    assert(laws::distinct(fields));
    assert(laws::same_kind(fields, fields));
    subs_set_each(fields, entries);
    let (taken, left, e) = content::subs_set(fields, entries);
    if e is None {
        roundtrip::subs_set_all(fields, entries);
        no_sub_is_id(fields);
        assert(left.dom().contains("id"@) == entries.dom().contains("id"@));
        assert(left.dom().contains("body"@) == entries.dom().contains("body"@));
        assert(left.dom().contains("id"@) ==> left["id"@] == entries["id"@]);
        assert(left.dom().contains("body"@) ==> left["body"@] == entries["body"@]);
        fields_set_each(taken, left);
    }
    assert forall|i: int| 0 <= i < fields.len() implies {
        let f = #[trigger] fields[i];
        let key = content::json_name(f.name);
        &&& f.slot is Plain || f.name == "type_"@ ==> roundtrip::sub_taken(f, entries) == (
            f,
            None::<ErrorView>,
        )
        &&& e is None ==> {
            &&& taken[i] == roundtrip::sub_taken(f, entries).0
            &&& left.dom().contains(key) == (entries.dom().contains(key) && !(f.slot is Sub
                && f.name != "type_"@))
            &&& left.dom().contains(key) ==> left[key] == entries[key]
        }
    } by {
        let f = fields[i];
        if e is None {
            roundtrip::left_for_field(fields, m, i);
            assert(taken[i] == roundtrip::sub_taken(fields[i], entries).0);
            assert(left.dom().contains(content::json_name(f.name)) ==> left[content::json_name(
                f.name,
            )] == entries[content::json_name(f.name)]);
        }
    }
    let r = content::set_multi_recursive(m, JsonView::Object(entries));
    if r.1 is None {
        assert forall|i: int| 0 <= i < fields.len() implies roundtrip::sub_taken(
            #[trigger] fields[i],
            entries,
        ).1 is None && content::field_set(taken[i], left).1 is None && r.0.fields[i]
            == content::field_set(taken[i], left).0 by {
            assert(content::field_set(taken[i], left).1 is None);
            assert(content::fields_set(taken, left).0[i] == content::field_set(taken[i], left).0);
        }
        assert forall|i: int| 0 <= i < fields.len() implies {
            let f = #[trigger] fields[i];
            let key = content::json_name(f.name);
            let v = entries[key];
            entries.dom().contains(key) ==> match f.slot {
                SlotView::Plain(kind, _) => f.class == Class::Extra || v is Null || content::fits(
                    kind,
                    v,
                ),
                SlotView::Sub(b, current) => {
                    let s = match current {
                        Some(s) => s,
                        None => b,
                    };
                    ||| content::set_multi(*s, v).1 is None
                    ||| f.name == "type_"@ && (f.class == Class::Extra || v is Null)
                },
            }
        } by {
            assert(roundtrip::sub_taken(fields[i], entries).1 is None);
        }
    } else {
        if forall|i: int|
            0 <= i < fields.len() ==> {
                let f = #[trigger] fields[i];
                let key = content::json_name(f.name);
                let v = entries[key];
                entries.dom().contains(key) ==> match f.slot {
                    SlotView::Plain(kind, _) => f.class == Class::Extra || v is Null
                        || content::fits(kind, v),
                    SlotView::Sub(b, current) => {
                        let s = match current {
                            Some(s) => s,
                            None => b,
                        };
                        ||| content::set_multi(*s, v).1 is None
                        ||| f.name == "type_"@ && (f.class == Class::Extra || v is Null)
                    },
                }
            } {
            assert forall|i: int| 0 <= i < fields.len() implies roundtrip::sub_taken(
                #[trigger] fields[i],
                entries,
            ).1 is None by {}
            assert(e is None);
            assert forall|i: int| 0 <= i < taken.len() implies content::field_set(
                #[trigger] taken[i],
                left,
            ).1 is None by {
                let f = fields[i];
                assert(taken[i] == roundtrip::sub_taken(f, entries).0);
            }
        }
    }
}

/// No field with a submodel is named `id` or `body`.
proof fn no_sub_is_id(fields: Seq<FieldView>)
    requires
        laws::distinct(fields),
    ensures
        !roundtrip::names_sub(fields, "id"@),
        !roundtrip::names_sub(fields, "body"@),
{
    reveal_strlit("id");
    reveal_strlit("body");
    reveal_strlit("type_");
    assert("id"@.len() == 2 && "body"@.len() == 4 && "type_"@.len() == 5);
    if roundtrip::names_sub(fields, "id"@) {
        let i = choose|i: int|
            0 <= i < fields.len() && (#[trigger] fields[i]).slot is Sub && fields[i].name == "id"@;
        assert(content::json_name(fields[i].name) == "id"@);
    }
    if roundtrip::names_sub(fields, "body"@) {
        let i = choose|i: int|
            0 <= i < fields.len() && (#[trigger] fields[i]).slot is Sub && fields[i].name
                == "body"@;
        assert(content::json_name(fields[i].name) == "body"@);
    }
}

/// Serializing submodels goes well exactly when it does for each.
proof fn fields_error_each(fields: Seq<FieldView>, available: bool)
    ensures
        content::fields_error(fields, available) is None <==> forall|i: int|
            0 <= i < fields.len() ==> content::field_error(#[trigger] fields[i], available) is None,
    decreases fields.len(),
{
    if fields.len() > 0 {
        let rest = fields.drop_last();
        let last = fields.len() - 1;
        fields_error_each(rest, available);
        assert(fields[last] == fields.last());
        if content::fields_error(fields, available) is None {
            assert forall|i: int| 0 <= i < fields.len() implies content::field_error(
                #[trigger] fields[i],
                available,
            ) is None by {
                if i < last {
                    assert(rest[i] == fields[i]);
                }
            }
        } else if forall|i: int|
            0 <= i < fields.len() ==> content::field_error(
                #[trigger] fields[i],
                available,
            ) is None {
            assert forall|i: int| 0 <= i < rest.len() implies content::field_error(
                #[trigger] rest[i],
                available,
            ) is None by {
                assert(rest[i] == fields[i]);
            }
            assert(content::field_error(fields[last], available) is None);
        }
    }
}

/// A model can be serialized exactly when each of its submodels can, and it has a key of
/// thirty-two bytes, and there is the cipher, and the JSON text of its private data is not longer
/// than the cipher takes. The submodels come first: the first that cannot be serialized says why
/// the model cannot. After that, each reason is told, a missing key first.
pub proof fn when_a_model_is_serialized(m: ModelView, available: bool, k: int)
    ensures
        ({
            let text = json::json_written(JsonView::Object(content::serializable(m, true)));
            let fine = forall|i: int|
                0 <= i < m.fields.len() ==> ((#[trigger] m.fields[i]).slot matches SlotView::Sub(
                    _,
                    Some(s),
                ) ==> content::serialize_error(*s, available) is None);
            let id = match m.id {
                Some(id) => id,
                None => "<no id>"@,
            };
            let e = content::serialize_error(m, available);
            &&& e is None <==> fine && m.key is Some && available && m.key->0.len() == 32
                && encode_utf8(text).len() <= 68_719_476_704
            &&& fine && m.key is None ==> e == Some(
                ErrorView::BadValue(
                    "Protected::serialize() - missing `key` field for "@ + m.model_type
                        + " model "@ + id,
                ),
            )
            &&& fine && m.key is Some && !available ==> e == Some(
                ErrorView::Crypto(CryptoError::Unavailable),
            )
            &&& fine && m.key is Some && available && m.key->0.len() != 32 ==> e == Some(
                ErrorView::Crypto(CryptoError::BadKey),
            )
            &&& fine && m.key is Some && available && m.key->0.len() == 32 && encode_utf8(
                text,
            ).len() > 68_719_476_704 ==> e == Some(ErrorView::Crypto(CryptoError::TooLong))
            &&& 0 <= k < m.fields.len() && (forall|j: int|
                0 <= j < k ==> ((#[trigger] m.fields[j]).slot matches SlotView::Sub(_, Some(s))
                    ==> content::serialize_error(*s, available) is None)) ==> (
            m.fields[k].slot matches SlotView::Sub(_, Some(s)) ==> (content::serialize_error(
                *s,
                available,
            ) is Some ==> e == content::serialize_error(*s, available)))
        }),
{
    fields_error_each(m.fields, available);
    assert forall|i: int| 0 <= i < m.fields.len() implies (content::field_error(
        #[trigger] m.fields[i],
        available,
    ) is None <==> (m.fields[i].slot matches SlotView::Sub(_, Some(s))
        ==> content::serialize_error(*s, available) is None)) by {}
    if forall|i: int|
        0 <= i < m.fields.len() ==> ((#[trigger] m.fields[i]).slot matches SlotView::Sub(_, Some(s))
            ==> content::serialize_error(*s, available) is None) {
        assert forall|i: int| 0 <= i < m.fields.len() implies content::field_error(
            #[trigger] m.fields[i],
            available,
        ) is None by {}
    }
    if content::fields_error(m.fields, available) is None {
        assert forall|i: int| 0 <= i < m.fields.len() implies ((
        #[trigger] m.fields[i]).slot matches SlotView::Sub(_, Some(s)) ==> content::serialize_error(
            *s,
            available,
        ) is None) by {
            assert(content::field_error(m.fields[i], available) is None);
        }
    }
    if 0 <= k < m.fields.len() && (forall|j: int|
        0 <= j < k ==> ((#[trigger] m.fields[j]).slot matches SlotView::Sub(_, Some(s))
            ==> content::serialize_error(*s, available) is None)) {
        let upto = m.fields.take(k + 1);
        let before = m.fields.take(k);
        assert(upto.drop_last() =~= before);
        assert(upto.last() == m.fields[k]);
        fields_error_each(before, available);
        assert forall|j: int| 0 <= j < before.len() implies content::field_error(
            #[trigger] before[j],
            available,
        ) is None by {
            assert(before[j] == m.fields[j]);
        }
        assert(content::fields_error(upto, available) == content::field_error(
            m.fields[k],
            available,
        ));
        if content::field_error(m.fields[k], available) is Some {
            protected::fields_error_grows(m.fields, available, k + 1);
        }
    }
}

/// What serializing makes of a model. Name, type, id, key, and the names, classes and values of
/// its fields stay. Where it went well, each submodel was serialized in the same way, and the
/// body is the base64 text of twelve bytes and, after them, what the cipher makes of the JSON text
/// of the private data under the key and those bytes. Where it did not, the body stays.
pub proof fn what_serializing_makes(m: ModelView, n: ModelView, available: bool, i: int)
    requires
        content::serialized(m, n, available),
    ensures
        n.name == m.name && n.model_type == m.model_type && n.id == m.id && n.key == m.key,
        n.fields.len() == m.fields.len(),
        content::serialize_error(m, available) is Some ==> n.body == m.body,
        content::serialize_error(m, available) is None ==> {
            let text = json::json_written(JsonView::Object(content::serializable(m, true)));
            &&& n.body is Some
            &&& m.key is Some
            &&& exists|nonce: Seq<u8>|
                nonce.len() == 12 && n.body->0 == crate::crypto::base64_written(
                    nonce + #[trigger] crate::crypto::aes_sealed(
                        m.key->0,
                        nonce,
                        encode_utf8(text),
                    ),
                )
            &&& crate::crypto::base64_read(n.body->0) is Some
            &&& crate::crypto::decrypted(
                m.key->0,
                crate::crypto::base64_read(n.body->0)->0,
                true,
            ) == Ok::<Seq<u8>, CryptoError>(encode_utf8(text))
        },
        0 <= i < m.fields.len() ==> {
            &&& n.fields[i].name == m.fields[i].name
            &&& n.fields[i].class == m.fields[i].class
            &&& m.fields[i].slot is Plain ==> n.fields[i] == m.fields[i]
            &&& m.fields[i].slot matches SlotView::Sub(_, None) ==> n.fields[i] == m.fields[i]
            &&& m.fields[i].slot matches SlotView::Sub(b, Some(s)) ==> {
                &&& n.fields[i].slot matches SlotView::Sub(c, Some(t)) && c == b
                &&& content::serialize_error(m, available) is None ==> content::serialized(
                    *s,
                    *(n.fields[i].slot->Sub_1->0),
                    available,
                )
            }
        },
{
    if content::serialize_error(m, available) is None {
        let text = json::json_written(JsonView::Object(content::serializable(m, true)));
        let bytes = content::json_bytes(content::private_json(m));
        let key = m.key->0;
        let nonce = choose|nonce: Seq<u8>|
            nonce.len() == crate::crypto::NONCE_LEN && n.body->0 == crate::crypto::base64_written(
                #[trigger] crate::crypto::encrypted(key, nonce, bytes),
            );
        crate::crypto::nonce_comes_first(key, nonce, bytes);
        let sealed = crate::crypto::aes_sealed(key, nonce, encode_utf8(text));
        assert(crate::crypto::encrypted(key, nonce, bytes) =~= nonce + sealed);
    }
    if 0 <= i < m.fields.len() {
        if content::fields_error(m.fields.take(i), available) is Some {
            protected::fields_error_grows(m.fields, available, i);
        }
    }
}

/// Deserializing submodels goes well exactly when it does for each.
proof fn fields_deserialized_each(fields: Seq<FieldView>, available: bool)
    ensures
        content::fields_deserialized(fields, available).0.len() == fields.len(),
        content::fields_deserialized(fields, available).1 is None <==> forall|i: int|
            0 <= i < fields.len() ==> content::field_deserialized(
                #[trigger] fields[i],
                available,
            ).1 is None,
        content::fields_deserialized(fields, available).1 is None ==> forall|i: int|
            0 <= i < fields.len() ==> #[trigger] content::fields_deserialized(
                fields,
                available,
            ).0[i] == content::field_deserialized(fields[i], available).0,
    decreases fields.len(),
{
    if fields.len() > 0 {
        let rest = fields.drop_last();
        let last = fields.len() - 1;
        fields_deserialized_each(rest, available);
        assert(fields[last] == fields.last());
        if content::fields_deserialized(fields, available).1 is None {
            assert forall|i: int| 0 <= i < fields.len() implies content::field_deserialized(
                #[trigger] fields[i],
                available,
            ).1 is None && content::fields_deserialized(fields, available).0[i]
                == content::field_deserialized(fields[i], available).0 by {
                if i < last {
                    assert(rest[i] == fields[i]);
                    assert(content::fields_deserialized(rest, available).0[i]
                        == content::field_deserialized(rest[i], available).0);
                }
            }
        } else if forall|i: int|
            0 <= i < fields.len() ==> content::field_deserialized(
                #[trigger] fields[i],
                available,
            ).1 is None {
            assert forall|i: int| 0 <= i < rest.len() implies content::field_deserialized(
                #[trigger] rest[i],
                available,
            ).1 is None by {
                assert(rest[i] == fields[i]);
            }
            assert(content::field_deserialized(fields[last], available).1 is None);
        }
    }
}

/// What deserializing makes of a model whose submodels can be deserialized, where `inner` is the
/// model with each of them deserialized: the body is read as base64, opened under the key, read as
/// text and as JSON, and `inner` with its submodels is set from that. Each of the steps that fails
/// says why, and leaves `inner` as it is.
pub proof fn what_deserializing_makes(m: ModelView, inner: ModelView, available: bool)
    requires
        inner == (ModelView { fields: inner.fields, ..m }),
        inner.fields.len() == m.fields.len(),
        forall|i: int|
            0 <= i < m.fields.len() ==> match m.fields[i].slot {
                SlotView::Sub(b, Some(s)) => {
                    &&& content::deserialized(*s, available).1 is None
                    &&& (#[trigger] inner.fields[i]) == FieldView {
                        slot: SlotView::Sub(
                            b,
                            Some(Box::new(content::deserialized(*s, available).0)),
                        ),
                        ..m.fields[i]
                    }
                },
                _ => inner.fields[i] == m.fields[i],
            },
    ensures
        ({
            let (n, e) = content::deserialized(m, available);
            let id = match m.id {
                Some(id) => id,
                None => "<no id>"@,
            };
            match m.body {
                None => n == inner && e == Some(
                    ErrorView::MissingField(
                        "Protected::deserialize() - missing `body` field for "@ + m.model_type
                            + " model "@ + id,
                    ),
                ),
                Some(body) => match crate::crypto::base64_read(body) {
                    None => n == inner && e == Some(ErrorView::Crypto(CryptoError::Base64)),
                    Some(bytes) => match m.key {
                        None => n == inner && e == Some(
                            ErrorView::BadValue(
                                "Protected::deserialize() - missing `key` field for "@
                                    + m.model_type + " model "@ + id,
                            ),
                        ),
                        Some(key) => match crate::crypto::decrypted(key, bytes, available) {
                            Err(why) => n == inner && e == Some(ErrorView::Crypto(why)),
                            Ok(message) => if !valid_utf8(message) {
                                n == inner && e == Some(ErrorView::Utf8)
                            } else {
                                match json::json_read(decode_utf8(message)) {
                                    None => n == inner && e == Some(ErrorView::JsonParse),
                                    Some(j) => (n, e) == content::set_multi_recursive(inner, j),
                                }
                            },
                        },
                    },
                },
            }
        }),
{
    fields_deserialized_each(m.fields, available);
    assert forall|i: int| 0 <= i < m.fields.len() implies content::field_deserialized(
        #[trigger] m.fields[i],
        available,
    ).1 is None && inner.fields[i] == content::field_deserialized(m.fields[i], available).0 by {
        let g = inner.fields[i];
        match m.fields[i].slot {
            SlotView::Sub(b, Some(s)) => {
                assert(content::deserialized(*s, available).1 is None);
                assert(g.slot == content::field_deserialized(m.fields[i], available).0.slot);
            },
            _ => {
                assert(g == m.fields[i]);
            },
        }
    }
    assert(content::fields_deserialized(m.fields, available).0 =~= inner.fields) by {
        assert forall|i: int| 0 <= i < m.fields.len() implies #[trigger]
            content::fields_deserialized(m.fields, available).0[i] == inner.fields[i] by {
            assert(content::field_deserialized(m.fields[i], available).1 is None);
        }
    }
}

/// A model with a submodel that cannot be deserialized cannot be, for the reason of the first such
/// submodel; its own id, body and key stay.
#[verifier::rlimit(50)]
pub proof fn failed_submodel_fails_the_model(m: ModelView, available: bool, k: int)
    requires
        0 <= k < m.fields.len(),
        forall|j: int|
            0 <= j < k ==> ((#[trigger] m.fields[j]).slot matches SlotView::Sub(_, Some(s))
                ==> content::deserialized(*s, available).1 is None),
        m.fields[k].slot matches SlotView::Sub(_, Some(s)) && content::deserialized(
            *s,
            available,
        ).1 is Some,
    ensures
        content::deserialized(m, available).1 == content::deserialized(
            *(m.fields[k].slot->Sub_1->0),
            available,
        ).1,
        content::deserialized(m, available).0.id == m.id,
        content::deserialized(m, available).0.body == m.body,
        content::deserialized(m, available).0.key == m.key,
        forall|j: int|
            k < j < m.fields.len() ==> content::deserialized(m, available).0.fields[j]
                == #[trigger] m.fields[j],
        forall|j: int|
            0 <= j <= k ==> content::deserialized(m, available).0.fields[j] == (match (
            #[trigger] m.fields[j]).slot {
                SlotView::Sub(b, Some(s)) => FieldView {
                    slot: SlotView::Sub(
                        b,
                        Some(Box::new(content::deserialized(*s, available).0)),
                    ),
                    ..m.fields[j]
                },
                _ => m.fields[j],
            }),
{
    let upto = m.fields.take(k + 1);
    let before = m.fields.take(k);
    assert(upto.drop_last() =~= before);
    assert(upto.last() == m.fields[k]);
    fields_deserialized_each(before, available);
    assert forall|j: int| 0 <= j < before.len() implies content::field_deserialized(
        #[trigger] before[j],
        available,
    ).1 is None by {
        assert(before[j] == m.fields[j]);
    }
    assert(content::fields_deserialized(before, available).1 is None);
    assert(content::fields_deserialized(upto, available).1 == content::field_deserialized(
        m.fields[k],
        available,
    ).1);
    protected::fields_deserialized_stops(m.fields, available, k + 1);
    fields_deserialized_each(upto, available);
    assert forall|j: int| 0 <= j <= k implies content::deserialized(m, available).0.fields[j] == (
    match (#[trigger] m.fields[j]).slot {
        SlotView::Sub(b, Some(s)) => FieldView {
            slot: SlotView::Sub(b, Some(Box::new(content::deserialized(*s, available).0))),
            ..m.fields[j]
        },
        _ => m.fields[j],
    }) by {
        assert(content::fields_deserialized(m.fields, available).0[j]
            == content::fields_deserialized(upto, available).0[j]);
        if j < k {
            assert(before[j] == m.fields[j]);
            assert(content::fields_deserialized(before, available).0[j]
                == content::field_deserialized(before[j], available).0);
        }
        assert(content::fields_deserialized(upto, available).0[j] == content::field_deserialized(
            m.fields[j],
            available,
        ).0);
    }
}

/// What is returned with what was made: of serializing, the public data as they then are, exactly
/// when it went well, and else why not; of deserializing, all data as they then are.
pub proof fn results_tell_what_was_made(
    m: ModelView,
    n: ModelView,
    r: TResult<Json>,
    u: TResult<()>,
    available: bool,
)
    ensures
        protected::serialize_outcome(m, n, r, available) ==> {
            &&& content::serialized(m, n, available)
            &&& r is Ok <==> content::serialize_error(m, available) is None
            &&& r matches Ok(v) ==> v@ == JsonView::Object(content::serializable(n, false))
            &&& r matches Err(e) ==> content::serialize_error(m, available) == Some(e@)
        },
        protected::deserialize_outcome(m, n, r, available) ==> {
            &&& n == content::deserialized(m, available).0
            &&& r is Ok <==> content::deserialized(m, available).1 is None
            &&& r matches Ok(v) ==> v@ == JsonView::Object(content::data(n))
            &&& r matches Err(e) ==> content::deserialized(m, available).1 == Some(e@)
        },
        protected::subs_outcome(m, n, u, available) ==> {
            &&& n.name == m.name && n.model_type == m.model_type && n.id == m.id && n.body == m.body
                && n.key == m.key
            &&& content::fields_serialized(m.fields, n.fields, available)
            &&& u is Ok <==> forall|i: int|
                0 <= i < m.fields.len() ==> ((#[trigger] m.fields[i]).slot matches SlotView::Sub(
                    _,
                    Some(s),
                ) ==> content::serialize_error(*s, available) is None)
        },
{
    fields_error_each(m.fields, available);
    assert forall|i: int| 0 <= i < m.fields.len() implies (content::field_error(
        #[trigger] m.fields[i],
        available,
    ) is None <==> (m.fields[i].slot matches SlotView::Sub(_, Some(s))
        ==> content::serialize_error(*s, available) is None)) by {}
    if forall|i: int|
        0 <= i < m.fields.len() ==> ((#[trigger] m.fields[i]).slot matches SlotView::Sub(_, Some(s))
            ==> content::serialize_error(*s, available) is None) {
        assert forall|i: int| 0 <= i < m.fields.len() implies content::field_error(
            #[trigger] m.fields[i],
            available,
        ) is None by {}
    }
    if content::fields_error(m.fields, available) is None {
        assert forall|i: int| 0 <= i < m.fields.len() implies ((
        #[trigger] m.fields[i]).slot matches SlotView::Sub(_, Some(s)) ==> content::serialize_error(
            *s,
            available,
        ) is None) by {
            assert(content::field_error(m.fields[i], available) is None);
        }
    }
}

/// Setting a model with its submodels is setting the submodels from the entries of their names, and
/// then the model from the entries that are left: `taken` is the model with its submodels set so,
/// and `left` are the entries without theirs.
pub proof fn set_with_submodels_sets_the_rest(
    m: ModelView,
    entries: Map<Seq<char>, JsonView>,
    taken: ModelView,
    left: Map<Seq<char>, JsonView>,
)
    requires
        forall|i: int, j: int|
            #![trigger m.fields[i], m.fields[j]]
            0 <= i < j < m.fields.len() ==> content::json_name(m.fields[i].name)
                != content::json_name(m.fields[j].name),
        forall|i: int|
            0 <= i < m.fields.len() ==> content::json_name((#[trigger] m.fields[i]).name) != "id"@
                && content::json_name(m.fields[i].name) != "body"@,
        taken == (ModelView { fields: taken.fields, ..m }),
        taken.fields.len() == m.fields.len(),
        forall|i: int|
            0 <= i < m.fields.len() ==> match m.fields[i].slot {
                SlotView::Sub(b, current) => if entries.dom().contains(m.fields[i].name) {
                    let s = match current {
                        Some(s) => s,
                        None => b,
                    };
                    &&& content::set_multi(*s, entries[m.fields[i].name]).1 is None
                    &&& (#[trigger] taken.fields[i]) == FieldView {
                        slot: SlotView::Sub(
                            b,
                            Some(Box::new(content::set_multi(*s, entries[m.fields[i].name]).0)),
                        ),
                        ..m.fields[i]
                    }
                } else {
                    taken.fields[i] == m.fields[i]
                },
                _ => taken.fields[i] == m.fields[i],
            },
        forall|name: Seq<char>| #[trigger]
            left.dom().contains(name) == (entries.dom().contains(name) && !exists|i: int|
                0 <= i < m.fields.len() && (#[trigger] m.fields[i]).slot is Sub && m.fields[i].name
                    == name),
        forall|name: Seq<char>|
            left.dom().contains(name) ==> #[trigger] left[name] == entries[name],
    ensures
        content::set_multi_recursive(m, JsonView::Object(entries)) == content::set_multi(
            taken,
            JsonView::Object(left),
        ),
{
    let fields = m.fields;
    assert(laws::distinct(fields));
    assert forall|i: int| 0 <= i < fields.len() implies roundtrip::sub_taken(
        #[trigger] fields[i],
        entries,
    ).1 is None && roundtrip::sub_taken(fields[i], entries).0 == taken.fields[i] by {
        let g = taken.fields[i];
        match fields[i].slot {
            SlotView::Sub(b, current) => {
                if entries.dom().contains(fields[i].name) {
                    let s = match current {
                        Some(s) => s,
                        None => b,
                    };
                    assert(content::set_multi(*s, entries[fields[i].name]).1 is None);
                    assert(g.slot == roundtrip::sub_taken(fields[i], entries).0.slot);
                } else {
                    assert(g == fields[i]);
                }
            },
            _ => {
                assert(g == fields[i]);
            },
        }
    }
    roundtrip::subs_set_all(fields, entries);
    let (done, rest, _) = content::subs_set(fields, entries);
    assert(done =~= taken.fields) by {
        assert forall|i: int| 0 <= i < fields.len() implies #[trigger] done[i]
            == taken.fields[i] by {
            assert(done[i] == roundtrip::sub_taken(fields[i], entries).0);
        }
    }
    assert forall|name: Seq<char>| #[trigger]
        rest.dom().contains(name) == left.dom().contains(name) by {
        assert(roundtrip::names_sub(fields, name) == exists|i: int|
            0 <= i < m.fields.len() && (#[trigger] m.fields[i]).slot is Sub && m.fields[i].name
                == name);
    }
    assert(rest =~= left) by {
        assert forall|name: Seq<char>| rest.dom().contains(name) implies #[trigger] rest[name]
            == left[name] by {
            assert(left.dom().contains(name));
            assert(left[name] == entries[name]);
        }
    }
}

/// A model with a submodel that cannot be set from the entry of its name cannot be set, for the
/// reason of the first such submodel; id, body, key and the fields after that one stay.
pub proof fn refused_submodel_refuses_the_model(
    m: ModelView,
    entries: Map<Seq<char>, JsonView>,
    k: int,
)
    requires
        forall|i: int, j: int|
            #![trigger m.fields[i], m.fields[j]]
            0 <= i < j < m.fields.len() ==> content::json_name(m.fields[i].name)
                != content::json_name(m.fields[j].name),
        forall|i: int|
            0 <= i < m.fields.len() ==> content::json_name((#[trigger] m.fields[i]).name) != "id"@
                && content::json_name(m.fields[i].name) != "body"@,
        0 <= k < m.fields.len(),
        m.fields[k].slot is Sub,
        entries.dom().contains(m.fields[k].name),
        forall|j: int|
            0 <= j < k ==> ((#[trigger] m.fields[j]).slot matches SlotView::Sub(b, current)
                ==> entries.dom().contains(m.fields[j].name) ==> content::set_multi(
                match current {
                    Some(s) => *s,
                    None => *b,
                },
                entries[m.fields[j].name],
            ).1 is None),
        content::set_multi(
            match m.fields[k].slot->Sub_1 {
                Some(s) => *s,
                None => *m.fields[k].slot->Sub_0,
            },
            entries[m.fields[k].name],
        ).1 is Some,
    ensures
        ({
            let (n, e) = content::set_multi_recursive(m, JsonView::Object(entries));
            let b = m.fields[k].slot->Sub_0;
            let (after, why) = content::set_multi(
                match m.fields[k].slot->Sub_1 {
                    Some(s) => *s,
                    None => *b,
                },
                entries[m.fields[k].name],
            );
            &&& e == why
            &&& n.id == m.id && n.body == m.body && n.key == m.key && n.name == m.name
                && n.model_type == m.model_type
            &&& n.fields.len() == m.fields.len()
            &&& n.fields[k] == FieldView {
                slot: SlotView::Sub(b, Some(Box::new(after))),
                ..m.fields[k]
            }
            &&& forall|j: int| k < j < m.fields.len() ==> n.fields[j] == #[trigger] m.fields[j]
            &&& forall|j: int|
                0 <= j < k && (#[trigger] m.fields[j]).slot is Plain ==> n.fields[j] == m.fields[j]
        }),
{
    let fields = m.fields;
    assert(laws::distinct(fields));
    let upto = fields.take(k + 1);
    let before = fields.take(k);
    let f = fields[k];
    assert(laws::distinct(before));
    assert(upto.drop_last() =~= before);
    assert(upto.last() == f);
    assert forall|j: int| 0 <= j < before.len() implies roundtrip::sub_taken(
        #[trigger] before[j],
        entries,
    ).1 is None by {
        assert(before[j] == fields[j]);
    }
    roundtrip::subs_set_all(before, entries);
    let left = content::subs_set(before, entries).1;
    assert(!roundtrip::names_sub(before, f.name)) by {
        if roundtrip::names_sub(before, f.name) {
            let i = choose|i: int|
                0 <= i < before.len() && (#[trigger] before[i]).slot is Sub && before[i].name
                    == f.name;
            assert(fields[i] == before[i]);
            assert(content::json_name(fields[i].name) != content::json_name(fields[k].name));
        }
    }
    assert(left.dom().contains(f.name));
    assert(left[f.name] == entries[f.name]);
    assert(content::subs_set(upto, entries).2 is Some);
    protected::subs_set_stops(fields, entries, k + 1);
    let done = content::subs_set(fields, entries).0;
    let part = content::subs_set(upto, entries).0;
    assert(part == content::subs_set(before, entries).0.push(part[k]));
    assert(done[k] == part[k]);
    assert forall|j: int| k < j < fields.len() implies done[j] == #[trigger] fields[j] by {}
    assert forall|j: int| 0 <= j < k && (#[trigger] fields[j]).slot is Plain implies done[j]
        == fields[j] by {
        assert(done[j] == part[j]);
        assert(content::subs_set(before, entries).0[j] == roundtrip::sub_taken(
            before[j],
            entries,
        ).0);
        assert(before[j] == fields[j]);
    }
}

/// What serializing makes of submodels, one by one: as long as each before it went well, a submodel
/// is serialized; after the first that did not, all stay as they were. What is no submodel stays.
pub proof fn submodels_are_serialized_in_order(
    fields: Seq<FieldView>,
    after: Seq<FieldView>,
    available: bool,
    i: int,
)
    requires
        content::fields_serialized(fields, after, available),
        0 <= i < fields.len(),
    ensures
        after.len() == fields.len(),
        after[i].name == fields[i].name && after[i].class == fields[i].class,
        match fields[i].slot {
            SlotView::Sub(b, Some(s)) => {
                let reached = forall|j: int|
                    0 <= j < i ==> ((#[trigger] fields[j]).slot matches SlotView::Sub(_, Some(t))
                        ==> content::serialize_error(*t, available) is None);
                &&& reached ==> after[i].slot is Sub && after[i].slot->Sub_0 == b
                    && after[i].slot->Sub_1 is Some && content::serialized(
                    *s,
                    *(after[i].slot->Sub_1->0),
                    available,
                )
                &&& !reached ==> after[i] == fields[i]
            },
            _ => after[i] == fields[i],
        },
{
    let before = fields.take(i);
    fields_error_each(before, available);
    if forall|j: int|
        0 <= j < i ==> ((#[trigger] fields[j]).slot matches SlotView::Sub(_, Some(t))
            ==> content::serialize_error(*t, available) is None) {
        assert forall|j: int| 0 <= j < before.len() implies content::field_error(
            #[trigger] before[j],
            available,
        ) is None by {
            assert(before[j] == fields[j]);
        }
    } else if content::fields_error(before, available) is None {
        assert forall|j: int| 0 <= j < i implies ((#[trigger] fields[j]).slot matches SlotView::Sub(
            _,
            Some(t),
        ) ==> content::serialize_error(*t, available) is None) by {
            assert(before[j] == fields[j]);
            assert(content::field_error(before[j], available) is None);
        }
    }
}

/// What deserializing makes of submodels that can all be: each is deserialized, and what is no
/// submodel stays. It goes well exactly when it does for each.
pub proof fn submodels_are_deserialized_each(fields: Seq<FieldView>, available: bool)
    ensures
        ({
            let (after, e) = content::fields_deserialized(fields, available);
            let fine = forall|i: int|
                0 <= i < fields.len() ==> ((#[trigger] fields[i]).slot matches SlotView::Sub(
                    _,
                    Some(s),
                ) ==> content::deserialized(*s, available).1 is None);
            &&& after.len() == fields.len()
            &&& e is None <==> fine
            &&& e is None ==> forall|i: int|
                0 <= i < fields.len() ==> #[trigger] after[i] == (match fields[i].slot {
                    SlotView::Sub(b, Some(s)) => FieldView {
                        slot: SlotView::Sub(
                            b,
                            Some(Box::new(content::deserialized(*s, available).0)),
                        ),
                        ..fields[i]
                    },
                    _ => fields[i],
                })
        }),
{
    fields_deserialized_each(fields, available);
    let (after, e) = content::fields_deserialized(fields, available);
    if forall|i: int|
        0 <= i < fields.len() ==> ((#[trigger] fields[i]).slot matches SlotView::Sub(_, Some(s))
            ==> content::deserialized(*s, available).1 is None) {
        assert forall|i: int| 0 <= i < fields.len() implies content::field_deserialized(
            #[trigger] fields[i],
            available,
        ).1 is None by {}
    }
    if e is None {
        assert forall|i: int| 0 <= i < fields.len() implies ((
        #[trigger] fields[i]).slot matches SlotView::Sub(_, Some(s)) ==> content::deserialized(
            *s,
            available,
        ).1 is None) by {
            assert(content::field_deserialized(fields[i], available).1 is None);
        }
        assert forall|i: int| 0 <= i < fields.len() implies #[trigger] after[i] == (
        match fields[i].slot {
            SlotView::Sub(b, Some(s)) => FieldView {
                slot: SlotView::Sub(b, Some(Box::new(content::deserialized(*s, available).0))),
                ..fields[i]
            },
            _ => fields[i],
        }) by {
            assert(after[i] == content::field_deserialized(fields[i], available).0);
        }
    }
}

} // verus!
