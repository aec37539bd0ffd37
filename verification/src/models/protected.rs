//! The "protected" model builds on the model to handle its data safely:
//!
//! - Fields are public or private. Private fields are stored inside the encrypted
//!   `body`, public ones beside it.
//! - Serializing a model encrypts the JSON text of its private data into `body`;
//!   deserializing decrypts `body` and sets the model from the JSON inside. Both need
//!   a `key`.
//! - Printing a model tells its type and id, and nothing else.

use sodiumoxide::crypto::aead::aes256gcm::Aes256Gcm;
use vstd::prelude::*;
use vstd::string::*;
use vstd::utf8::*;

use crate::error::{ErrorView, TError, TResult};
use crate::json;
use crate::json::{Json, JsonView, Object};
use crate::models::content;
use crate::models::content::{Class, FieldView, ModelView, SlotView};
use crate::models::model;
use crate::models::model::{fix_type, set_sub, Field, Model, Slot};
use crate::text;
use crate::text::{join2, join3, same_text, text_from_utf8, to_lowercase};

verus! {

/// The texts of strings.
pub open spec fn texts(strings: Seq<String>) -> Seq<Seq<char>> {
    Seq::new(strings.len(), |i: int| strings[i]@)
}

/// The entries whose names are listed.
pub open spec fn selected(
    entries: Map<Seq<char>, JsonView>,
    names: Seq<Seq<char>>,
) -> Map<Seq<char>, JsonView> {
    Map::new(
        |k: Seq<char>| names.contains(k) && entries.dom().contains(k),
        |k: Seq<char>| entries[k],
    )
}

/// The JSON names of the public fields.
pub open spec fn public_names(m: ModelView) -> Seq<Seq<char>> {
    seq!["id"@, "body"@] + content::class_names(m.fields, Class::Public)
}

/// The JSON names of the private fields.
pub open spec fn private_names(m: ModelView) -> Seq<Seq<char>> {
    content::class_names(m.fields, Class::Private)
}

/// What serializing makes of a model and what it returns.
pub open spec fn serialize_outcome(
    m: ModelView,
    n: ModelView,
    r: TResult<Json>,
    available: bool,
) -> bool {
    &&& content::serialized(m, n, available)
    &&& match r {
        Ok(v) => {
            &&& content::serialize_error(m, available) is None
            &&& v@ == JsonView::Object(content::serializable(n, false))
        },
        Err(e) => content::serialize_error(m, available) == Some(e@),
    }
}

/// What serializing makes of the submodels of a model and what it returns.
pub open spec fn subs_outcome(m: ModelView, n: ModelView, r: TResult<()>, available: bool) -> bool {
    &&& n == ModelView { fields: n.fields, ..m }
    &&& content::fields_serialized(m.fields, n.fields, available)
    &&& model::error_of(r) == content::fields_error(m.fields, available)
}

/// What deserializing makes of a model and what it returns: all data of the model.
pub open spec fn deserialize_outcome(
    m: ModelView,
    n: ModelView,
    r: TResult<Json>,
    available: bool,
) -> bool {
    &&& (n, model::error_of(r)) == content::deserialized(m, available)
    &&& r matches Ok(v) ==> v@ == JsonView::Object(content::data(n))
}

/// A model that can be stored without giving its private data away.
pub trait Protected {
    /// The content of the model.
    spec fn model(&self) -> ModelView;

    /// The key of this model.
    fn key(&self) -> (r: Option<&Vec<u8>>)
        ensures
            match r {
                Some(k) => self.model().key == Some(k@),
                None => self.model().key is None,
            },
    ;

    /// Sets this model's key. A key goes to the submodels too.
    fn set_key(&mut self, key: Option<Vec<u8>>)
        ensures
            final(self).model() == content::keyed(
                old(self).model(),
                model::key_view(key),
            ),
    ;

    /// This model's type.
    fn model_type(&self) -> (r: &str)
        ensures
            r@ == self.model().model_type,
    ;

    /// The names of the public fields.
    fn public_fields(&self) -> (r: Vec<String>)
        ensures
            texts(r@) == public_names(self.model()),
    ;

    /// The names of the private fields.
    fn private_fields(&self) -> (r: Vec<String>)
        ensures
            texts(r@) == private_names(self.model()),
    ;

    /// The names of the fields that hold submodels.
    fn submodel_fields(&self) -> (r: Vec<String>)
        ensures
            texts(r@) == content::sub_names(self.model().fields),
    ;

    /// The private or public data of a submodel.
    fn submodel_data(&self, field: &str, private: bool) -> (r: TResult<Json>)
        ensures
            match r {
                Ok(v) => content::sub_shown(self.model().fields, field@, private)
                    == Some(v@),
                Err(e) => {
                    &&& content::sub_shown(
                        self.model().fields,
                        field@,
                        private,
                    ) is None
                    &&& e@ == ErrorView::MissingField(
                        "The field "@ + field@ + " wasn't found in this model"@,
                    )
                },
            },
    ;

    /// Sets this model's key on its submodels, if it has one.
    fn _set_key_on_submodels(&mut self)
        ensures
            final(self).model() == (match old(self).model().key {
                Some(k) => ModelView {
                    fields: content::fields_keyed(old(self).model().fields, k),
                    ..old(self).model()
                },
                None => old(self).model(),
            }),
    ;

    /// Serializes the submodels.
    fn serialize_submodels(&mut self) -> (r: TResult<()>)
        ensures
            exists|available: bool|
                subs_outcome(old(self).model(), final(self).model(), r, available),
    ;

    /// Deserializes the submodels.
    fn deserialize_submodels(&mut self) -> (r: TResult<()>)
        ensures
            exists|available: bool|
                #![trigger content::fields_deserialized(
                    old(self).model().fields,
                    available,
                )]
                {
                    let (fields, e) = content::fields_deserialized(
                        old(self).model().fields,
                        available,
                    );
                    &&& final(self).model() == ModelView { fields, ..old(self).model() }
                    &&& model::error_of(r) == e
                },
    ;

    /// Sets the model from JSON; every submodel takes its own entry.
    fn set_multi_recursive(&mut self, data: Json) -> (r: TResult<()>)
        ensures
            (final(self).model(), model::error_of(r))
                == content::set_multi_recursive(old(self).model(), data@),
    ;

    /// The name of this model's table.
    fn table(&self) -> (r: String)
        ensures
            r@ == text::lowercase(self.model().name),
    ;

    /// Gives the key of this model, a new one where there was none.
    fn generate_key(&mut self) -> (r: TResult<&Vec<u8>>)
        ensures
            match r {
                Ok(k) => {
                    &&& final(self).model().key == Some(k@)
                    &&& if old(self).model().key is Some {
                        final(self).model() == old(self).model()
                    } else {
                        &&& k@.len() == crate::crypto::KEY_LEN
                        &&& final(self).model() == content::keyed(
                            old(self).model(),
                            Some(k@),
                        )
                    }
                },
                Err(e) => {
                    &&& old(self).model().key is None
                    &&& final(self).model() == old(self).model()
                    &&& e@ == ErrorView::Crypto(crate::error::CryptoError::Unavailable)
                },
            },
    ;

    /// The encrypted body.
    fn get_body(&self) -> (r: Option<&String>)
        ensures
            match r {
                Some(b) => self.model().body == Some(b@),
                None => self.model().body is None,
            },
    ;

    /// Sets the encrypted body.
    fn set_body(&mut self, body: String)
        ensures
            final(self).model() == (ModelView { body: Some(body@), ..old(self).model() }),
    ;

    /// All data of the model.
    fn data(&self) -> (r: Json)
        ensures
            r@ == JsonView::Object(content::data(self.model())),
    ;

    /// The data under the names listed.
    fn get_fields(&self, fields: &Vec<String>) -> (r: Object)
        ensures
            r@ == selected(content::data(self.model()), texts(fields@)),
    {
        let mut map = Object::new();
        let data = self.data();
        let ghost all = content::data(self.model());
        let mut i: usize = 0;
        assert(map@ =~= selected(all, texts(fields@).take(0)));
        while i < fields.len()
            invariant
                i <= fields@.len(),
                all == content::data(self.model()),
                data@ == JsonView::Object(all),
                map@ =~= selected(all, texts(fields@).take(i as int)),
            decreases fields@.len() - i,
        {
            let ghost names = texts(fields@);
            match json::walk(fields[i].as_str(), &data) {
                Ok(v) => {
                    map.insert(fields[i].clone(), v.clone());
                },
                Err(_) => {},
            }
            i += 1;
            proof {
                assert(names.take(i as int) =~= names.take(i - 1).push(names[i - 1]));
                assert forall|k: Seq<char>|
                    names.take(i as int).contains(k) == (names.take(i - 1).contains(k) || k
                        == names[i - 1]) by {
                    lemma_push_contains(names.take(i - 1), names[i - 1], k);
                }
            }
        }
        assert(texts(fields@).take(i as int) =~= texts(fields@));
        map
    }

    /// The private data, or the public data.
    fn get_serializable_data(&self, private: bool) -> (r: Json)
        ensures
            r@ == JsonView::Object(content::serializable(self.model(), private)),
    ;

    /// The public data. See `data_for_storage`.
    fn _public_data(&self) -> (r: Json)
        ensures
            r@ == JsonView::Object(content::serializable(self.model(), false)),
    {
        self.get_serializable_data(false)
    }

    /// The private data. See `data`.
    fn _private_data(&self) -> (r: Json)
        ensures
            r@ == content::private_json(self.model()),
    {
        self.get_serializable_data(true)
    }

    /// The data that may be stored: all of it is public.
    fn data_for_storage(&self) -> (r: Json)
        ensures
            r@ == JsonView::Object(content::serializable(self.model(), false)),
    {
        self._public_data()
    }

    /// The JSON text of all data, private data too. It reads back as the data, unless they
    /// are nested deeper than the parser accepts. This is for trusted receivers alone: never
    /// store it or send it over a network.
    fn stringify_unsafe(&self) -> (r: TResult<String>)
        ensures
            r is Ok,
            r->Ok_0@ == json::json_written(
                JsonView::Object(content::data(self.model())),
            ),
            json::nested_at_most(
                JsonView::Object(content::data(self.model())),
                json::MAX_NESTING as nat,
            ) ==> json::json_read(r->Ok_0@) == Some(
                JsonView::Object(content::data(self.model())),
            ),
    {
        match json::stringify(&self.data()) {
            Ok(s) => Ok(s),
            Err(e) => Err(TError::Json(e)),
        }
    }

    /// The JSON text of the public data. It reads back as the data, unless they are nested
    /// deeper than the parser accepts.
    fn stringify_for_storage(&self) -> (r: TResult<String>)
        ensures
            r is Ok,
            r->Ok_0@ == json::json_written(
                JsonView::Object(content::serializable(self.model(), false)),
            ),
            json::nested_at_most(
                JsonView::Object(content::serializable(self.model(), false)),
                json::MAX_NESTING as nat,
            ) ==> json::json_read(r->Ok_0@) == Some(
                JsonView::Object(content::serializable(self.model(), false)),
            ),
    {
        match json::stringify(&self.data_for_storage()) {
            Ok(s) => Ok(s),
            Err(e) => Err(TError::Json(e)),
        }
    }

    /// Encrypts the private data into the body, and gives the public data.
    fn serialize(&mut self) -> (r: TResult<Json>)
        ensures
            exists|available: bool|
                serialize_outcome(old(self).model(), final(self).model(), r, available),
    ;

    /// Decrypts the body, sets the model from the private data in it, and gives all
    /// data.
    fn deserialize(&mut self) -> (r: TResult<Json>)
        ensures
            exists|available: bool|
                deserialize_outcome(old(self).model(), final(self).model(), r, available),
    ;

    /// The key, if there is one.
    fn ensure_key(&mut self) -> (r: Option<&Vec<u8>>)
        ensures
            final(self).model() == old(self).model(),
            match r {
                Some(k) => old(self).model().key == Some(k@),
                None => old(self).model().key is None,
            },
    {
        self.key()
    }
}

/// What a sequence holds after a push.
pub(crate) proof fn lemma_push_contains<A>(s: Seq<A>, last: A, x: A)
    ensures
        s.push(last).contains(x) == (s.contains(x) || x == last),
{
    let t = s.push(last);
    if s.contains(x) {
        let i = choose|i: int| 0 <= i < s.len() && s[i] == x;
        assert(t[i] == x);
    }
    if x == last {
        assert(t[s.len() as int] == x);
    }
}

/// Serializing submodels does not change what shows among the private data.
pub(crate) proof fn private_kept(fields: Seq<FieldView>, after: Seq<FieldView>, available: bool)
    requires
        content::fields_serialized(fields, after, available),
    ensures
        content::fields_shown(after, true) == content::fields_shown(fields, true),
    decreases fields,
{
    if fields.len() > 0 {
        let n = fields.len() - 1;
        let f = fields.last();
        let g = after.last();
        assert forall|i: int| 0 <= i < n implies if content::fields_error(
            fields.drop_last().take(i),
            available,
        ) is None {
            content::field_serialized(
                fields.drop_last()[i],
                #[trigger] after.drop_last()[i],
                available,
            )
        } else {
            after.drop_last()[i] == fields.drop_last()[i]
        } by {
            assert(fields.drop_last().take(i) =~= fields.take(i));
            assert(after[i] == after.drop_last()[i]);
        }
        private_kept(fields.drop_last(), after.drop_last(), available);
        assert(after[n] == g);
        if content::fields_error(fields.take(n), available) is None {
            match (f.slot, g.slot) {
                (SlotView::Sub(_, Some(m)), SlotView::Sub(_, Some(k))) => {
                    private_kept(m.fields, k.fields, available);
                    assert(content::serializable(*m, true) == content::serializable(*k, true));
                },
                _ => {},
            }
        }
        assert(content::shown(g, true) == content::shown(f, true));
    }
}

/// The first error among some of the submodels is the first among all.
pub(crate) proof fn fields_error_grows(fields: Seq<FieldView>, available: bool, n: int)
    requires
        0 <= n <= fields.len(),
        content::fields_error(fields.take(n), available) is Some,
    ensures
        content::fields_error(fields, available) == content::fields_error(
            fields.take(n),
            available,
        ),
    decreases fields.len(),
{
    if n < fields.len() {
        assert(fields.drop_last().take(n) =~= fields.take(n));
        fields_error_grows(fields.drop_last(), available, n);
    } else {
        assert(fields.take(n) =~= fields);
    }
}

/// Deserializing submodels that stopped at one of the first `n` leaves the others as they
/// are.
pub(crate) proof fn fields_deserialized_stops(fields: Seq<FieldView>, available: bool, n: int)
    requires
        0 <= n <= fields.len(),
        content::fields_deserialized(fields.take(n), available).1 is Some,
    ensures
        content::fields_deserialized(fields, available) == (
            content::fields_deserialized(fields.take(n), available).0 + fields.skip(n),
            content::fields_deserialized(fields.take(n), available).1,
        ),
    decreases fields.len(),
{
    let part = content::fields_deserialized(fields.take(n), available).0;
    if n < fields.len() {
        assert(fields.drop_last().take(n) =~= fields.take(n));
        fields_deserialized_stops(fields.drop_last(), available, n);
        assert((part + fields.drop_last().skip(n)).push(fields.last()) =~= part + fields.skip(n));
    } else {
        assert(fields.take(n) =~= fields);
        assert(part + fields.skip(n) =~= part);
    }
}

/// Handing submodels their entries, stopped at one of the first `n`, leaves the others as
/// they are.
pub(crate) proof fn subs_set_stops(
    fields: Seq<FieldView>,
    entries: Map<Seq<char>, JsonView>,
    n: int,
)
    requires
        0 <= n <= fields.len(),
        content::subs_set(fields.take(n), entries).2 is Some,
    ensures
        content::subs_set(fields, entries).0 == content::subs_set(fields.take(n), entries).0
            + fields.skip(n),
        content::subs_set(fields, entries).2 == content::subs_set(fields.take(n), entries).2,
    decreases fields.len(),
{
    let part = content::subs_set(fields.take(n), entries).0;
    if n < fields.len() {
        assert(fields.drop_last().take(n) =~= fields.take(n));
        subs_set_stops(fields.drop_last(), entries, n);
        assert((part + fields.drop_last().skip(n)).push(fields.last()) =~= part + fields.skip(n));
    } else {
        assert(fields.take(n) =~= fields);
        assert(part + fields.skip(n) =~= part);
    }
}

/// The start of a message about a model, and how the model is called.
fn missing_text(start: &str, m: &Model) -> (r: String)
    ensures
        r@ == content::missing(start@, m@),
{
    let mut r = join3(start, m.model_type.as_str(), " model ");
    r.append(id_text(m));
    r
}

/// How a model is called in messages.
fn id_text(m: &Model) -> (r: &str)
    ensures
        r@ == content::id_text(m@),
{
    match &m.id {
        Some(id) => id.as_str(),
        None => "<no id>",
    }
}

impl Model {
    /// What a model shows of itself when it is printed: its type and its id.
    pub fn debug_text(&self) -> (r: String)
        ensures
            r@ == content::debug(self@),
    {
        let mut r = join2(self.model_type.as_str(), ": (");
        r.append(id_text(self));
        r.append(")");
        r
    }

    /// The JSON names of the fields of a class, after the names given.
    fn class_fields(&self, class: Class, start: Vec<String>) -> (r: Vec<String>)
        ensures
            texts(r@) == texts(start@) + content::class_names(self@.fields, class),
    {
        let mut r = start;
        let ghost fs = self@.fields;
        let mut i: usize = 0;
        assert(texts(r@) =~= texts(start@) + content::class_names(fs.take(0), class));
        while i < self.fields.len()
            invariant
                i <= self.fields@.len(),
                fs == model::fields_view(self.fields@),
                texts(r@) =~= texts(start@) + content::class_names(fs.take(i as int), class),
            decreases self.fields@.len() - i,
        {
            let ghost before = r@;
            if self.fields[i].class == class {
                r.push(fix_type(self.fields[i].name.as_str()));
                assert(texts(r@) =~= texts(before).push(content::json_name(fs[i as int].name)));
            }
            i += 1;
            assert(fs.take(i as int).drop_last() =~= fs.take(i - 1));
        }
        assert(fs.take(i as int) =~= fs);
        r
    }

    /// What a field shows among the private or among the public data.
    fn shown(f: &Field, private: bool) -> (r: Option<Json>)
        ensures
            match r {
                Some(v) => content::shown(model::field_view(*f), private) == Some(v@),
                None => content::shown(model::field_view(*f), private) is None,
            },
        decreases f, 1int,
    {
        match &f.slot {
            Slot::Plain(_, v) => {
                let wanted = if private {
                    Class::Private
                } else {
                    Class::Public
                };
                if f.class == wanted {
                    match v {
                        Some(v) => Some(v.clone()),
                        None => Some(Json::Null),
                    }
                } else {
                    None
                }
            },
            Slot::Sub(_, Some(m)) => Some(m.get_serializable_data(private)),
            Slot::Sub(_, None) => Some(Json::Null),
        }
    }

    /// Serializes the submodels with the cipher given.
    pub fn serialize_submodels_with(&mut self, aes: &Option<Aes256Gcm>) -> (r: TResult<()>)
        ensures
            subs_outcome(old(self)@, final(self)@, r, aes is Some),
        decreases old(self)@, 0int,
    {
        let ghost before = self@.fields;
        let ghost available = aes is Some;
        let mut i: usize = 0;
        while i < self.fields.len()
            invariant
                i <= self.fields@.len() == before.len(),
                before == old(self)@.fields,
                available == (aes is Some),
                self@ == (ModelView { fields: self@.fields, ..old(self)@ }),
                content::fields_error(before.take(i as int), available) is None,
                forall|k: int|
                    0 <= k < i ==> content::fields_error(before.take(k), available) is None
                        && content::field_serialized(
                        before[k],
                        model::field_view(#[trigger] self.fields@[k]),
                        available,
                    ),
                forall|k: int|
                    i <= k < before.len() ==> model::field_view(#[trigger] self.fields@[k])
                        == before[k],
            decreases self.fields@.len() - i,
        {
            let ghost fv = before[i as int];
            assert(model::field_view(self.fields@[i as int]) == fv);
            assert(decreases_to!(old(self)@ => old(self)@.fields));
            assert(decreases_to!(old(self)@.fields => old(self)@.fields[i as int]));
            assert(decreases_to!(fv => fv.slot));
            assert(fv.slot is Sub && fv.slot->Sub_1 is Some ==> decreases_to!(
                fv.slot => fv.slot->Sub_1->0
            ));
            let r = match &mut self.fields[i].slot {
                Slot::Sub(_, Some(m)) => match m.serialize_with(aes) {
                    Ok(_) => Ok(()),
                    Err(e) => Err(e),
                },
                _ => Ok(()),
            };
            assert(before.take(i + 1).drop_last() =~= before.take(i as int));
            assert(before.take(i + 1).last() == fv);
            assert(content::field_error(fv, available) == model::error_of(r));
            assert(content::field_serialized(
                fv,
                model::field_view(self.fields@[i as int]),
                available,
            ));
            i += 1;
            if r.is_err() {
                proof {
                    fields_error_grows(before, available, i as int);
                    assert forall|k: int| i <= k < before.len() implies content::fields_error(
                        #[trigger] before.take(k),
                        available,
                    ) is Some by {
                        assert(before.take(k).take(i as int) =~= before.take(i as int));
                        fields_error_grows(before.take(k), available, i as int);
                    }
                    assert forall|k: int| 0 <= k < before.len() implies if content::fields_error(
                        before.take(k),
                        available,
                    ) is None {
                        content::field_serialized(before[k], #[trigger] self@.fields[k], available)
                    } else {
                        self@.fields[k] == before[k]
                    } by {
                        assert(self@.fields[k] == model::field_view(self.fields@[k]));
                    }
                }
                return r;
            }
        }
        proof {
            assert(before.take(i as int) =~= before);
            assert forall|k: int| 0 <= k < before.len() implies if content::fields_error(
                before.take(k),
                available,
            ) is None {
                content::field_serialized(before[k], #[trigger] self@.fields[k], available)
            } else {
                self@.fields[k] == before[k]
            } by {
                assert(self@.fields[k] == model::field_view(self.fields@[k]));
            }
        }
        Ok(())
    }

    /// Serializes the model with the cipher given.
    pub fn serialize_with(&mut self, aes: &Option<Aes256Gcm>) -> (r: TResult<Json>)
        ensures
            serialize_outcome(old(self)@, final(self)@, r, aes is Some),
        decreases old(self)@, 1int,
    {
        let ghost available = aes is Some;
        let ghost before = self@;
        self.serialize_submodels_with(aes)?;
        proof {
            private_kept(before.fields, self@.fields, available);
        }
        let json = match json::stringify(&self._private_data()) {
            Ok(s) => s,
            Err(e) => return Err(TError::Json(e)),
        };
        let body = match &self.key {
            None => return Err(
                TError::BadValue(
                    missing_text("Protected::serialize() - missing `key` field for ", self),
                ),
            ),
            Some(key) => match crate::crypto::encrypt(aes, key, json.as_str().as_bytes()) {
                Ok(body) => body,
                Err(e) => return Err(TError::Crypto(e)),
            },
        };
        let body_base64 = crate::crypto::to_base64(&body);
        self.set_body(body_base64);
        Ok(self.data_for_storage())
    }

    /// Deserializes the submodels with the cipher given.
    pub fn deserialize_submodels_with(&mut self, aes: &Option<Aes256Gcm>) -> (r: TResult<()>)
        ensures
            final(self)@ == (ModelView {
                fields: content::fields_deserialized(old(self)@.fields, aes is Some).0,
                ..old(self)@
            }),
            model::error_of(r) == content::fields_deserialized(old(self)@.fields, aes is Some).1,
        decreases old(self)@, 0int,
    {
        let ghost before = self@.fields;
        let ghost available = aes is Some;
        let mut i: usize = 0;
        while i < self.fields.len()
            invariant
                i <= self.fields@.len() == before.len(),
                before == old(self)@.fields,
                available == (aes is Some),
                self@ == (ModelView { fields: self@.fields, ..old(self)@ }),
                content::fields_deserialized(before.take(i as int), available).1 is None,
                content::fields_deserialized(before.take(i as int), available).0
                    =~= self@.fields.take(i as int),
                forall|k: int|
                    i <= k < before.len() ==> model::field_view(#[trigger] self.fields@[k])
                        == before[k],
            decreases self.fields@.len() - i,
        {
            let ghost start = self@.fields;
            let ghost fv = before[i as int];
            assert(model::field_view(self.fields@[i as int]) == fv);
            assert(decreases_to!(old(self)@ => old(self)@.fields));
            assert(decreases_to!(old(self)@.fields => old(self)@.fields[i as int]));
            assert(decreases_to!(fv => fv.slot));
            assert(fv.slot is Sub && fv.slot->Sub_1 is Some ==> decreases_to!(
                fv.slot => fv.slot->Sub_1->0
            ));
            let r = match &mut self.fields[i].slot {
                Slot::Sub(_, Some(m)) => match m.deserialize_with(aes) {
                    Ok(_) => Ok(()),
                    Err(e) => Err(e),
                },
                _ => Ok(()),
            };
            assert(before.take(i + 1).drop_last() =~= before.take(i as int));
            assert(before.take(i + 1).last() == fv);
            assert(content::field_deserialized(fv, available) == (
                model::field_view(self.fields@[i as int]),
                model::error_of(r),
            ));
            assert(self@.fields.take(i + 1) =~= start.take(i as int).push(
                self@.fields[i as int],
            ));
            i += 1;
            if r.is_err() {
                proof {
                    fields_deserialized_stops(before, available, i as int);
                    assert(self@.fields.skip(i as int) =~= before.skip(i as int));
                    assert(self@.fields =~= self@.fields.take(i as int) + self@.fields.skip(
                        i as int,
                    ));
                }
                return r;
            }
        }
        assert(before.take(i as int) =~= before);
        assert(self@.fields.take(i as int) =~= self@.fields);
        Ok(())
    }

    /// Deserializes the model with the cipher given.
    pub fn deserialize_with(&mut self, aes: &Option<Aes256Gcm>) -> (r: TResult<Json>)
        ensures
            deserialize_outcome(old(self)@, final(self)@, r, aes is Some),
        decreases old(self)@, 1int,
    {
        self.deserialize_submodels_with(aes)?;
        let body = match &self.body {
            Some(text) => match crate::crypto::from_base64(text.as_str()) {
                Ok(body) => body,
                Err(e) => return Err(TError::Crypto(e)),
            },
            None => return Err(
                TError::MissingField(
                    missing_text("Protected::deserialize() - missing `body` field for ", self),
                ),
            ),
        };
        let json_bytes = match &self.key {
            Some(key) => match crate::crypto::decrypt(aes, key, &body) {
                Ok(bytes) => bytes,
                Err(e) => return Err(TError::Crypto(e)),
            },
            None => return Err(
                TError::BadValue(
                    missing_text("Protected::deserialize() - missing `key` field for ", self),
                ),
            ),
        };
        let json_str = match text_from_utf8(json_bytes) {
            Some(s) => s,
            None => return Err(TError::Utf8),
        };
        let parsed = match json::parse(json_str.as_str()) {
            Ok(v) => v,
            Err(e) => return Err(TError::Json(e)),
        };
        self.set_multi_recursive(parsed)?;
        Ok(self.data())
    }
}

impl Protected for Model {
    open spec fn model(&self) -> ModelView {
        self@
    }

    fn key(&self) -> (r: Option<&Vec<u8>>) {
        self.key.as_ref()
    }

    fn set_key(&mut self, key: Option<Vec<u8>>)
        decreases old(self)@.fields, 1int,
    {
        self.key = key;
        self._set_key_on_submodels();
    }

    fn model_type(&self) -> (r: &str) {
        self.model_type.as_str()
    }

    fn public_fields(&self) -> (r: Vec<String>) {
        let mut start: Vec<String> = Vec::new();
        start.push("id".to_owned());
        start.push("body".to_owned());
        assert(texts(start@) =~= seq!["id"@, "body"@]);
        self.class_fields(Class::Public, start)
    }

    fn private_fields(&self) -> (r: Vec<String>) {
        let start: Vec<String> = Vec::new();
        let r = self.class_fields(Class::Private, start);
        assert(texts(r@) =~= private_names(self@));
        r
    }

    fn submodel_fields(&self) -> (r: Vec<String>) {
        let mut r: Vec<String> = Vec::new();
        let ghost fs = self@.fields;
        let mut i: usize = 0;
        assert(texts(r@) =~= content::sub_names(fs.take(0)));
        while i < self.fields.len()
            invariant
                i <= self.fields@.len(),
                fs == model::fields_view(self.fields@),
                texts(r@) =~= content::sub_names(fs.take(i as int)),
            decreases self.fields@.len() - i,
        {
            let ghost before = r@;
            match &self.fields[i].slot {
                Slot::Sub(_, _) => {
                    r.push(fix_type(self.fields[i].name.as_str()));
                    assert(texts(r@) =~= texts(before).push(
                        content::json_name(fs[i as int].name),
                    ));
                },
                _ => {},
            }
            i += 1;
            assert(fs.take(i as int).drop_last() =~= fs.take(i - 1));
        }
        assert(fs.take(i as int) =~= fs);
        r
    }

    fn submodel_data(&self, field: &str, private: bool) -> (r: TResult<Json>) {
        let ghost fs = self@.fields;
        let mut i: usize = 0;
        while i < self.fields.len()
            invariant
                i <= self.fields@.len(),
                fs == model::fields_view(self.fields@),
                content::sub_shown(fs.take(i as int), field@, private) is None,
            decreases self.fields@.len() - i,
        {
            assert(fs.take(i + 1).drop_last() =~= fs.take(i as int));
            match &self.fields[i].slot {
                Slot::Sub(_, _) => {
                    if same_text(fix_type(self.fields[i].name.as_str()).as_str(), field) {
                        match Model::shown(&self.fields[i], private) {
                            Some(v) => {
                                proof {
                                    sub_shown_grows(fs, field@, private, i + 1);
                                }
                                return Ok(v);
                            },
                            None => {},
                        }
                    }
                },
                _ => {},
            }
            i += 1;
        }
        assert(fs.take(i as int) =~= fs);
        Err(TError::MissingField(join3("The field ", field, " wasn't found in this model")))
    }

    fn _set_key_on_submodels(&mut self)
        decreases old(self)@.fields, 0int,
    {
        let key = match &self.key {
            Some(k) => k.clone(),
            None => return ,
        };
        let ghost before = self@.fields;
        assert(key@ =~= self.key->0@);
        let mut i: usize = 0;
        while i < self.fields.len()
            invariant
                i <= self.fields@.len() == before.len(),
                before == old(self)@.fields,
                self@ == (ModelView { fields: self@.fields, ..old(self)@ }),
                forall|k: int|
                    0 <= k < i ==> model::field_view(#[trigger] self.fields@[k])
                        == content::field_keyed(before[k], key@),
                forall|k: int|
                    i <= k < before.len() ==> model::field_view(#[trigger] self.fields@[k])
                        == before[k],
            decreases self.fields@.len() - i,
        {
            let ghost fv = before[i as int];
            assert(model::field_view(self.fields@[i as int]) == fv);
            assert(decreases_to!(old(self)@.fields => old(self)@.fields[i as int]));
            assert(decreases_to!(fv => fv.slot));
            assert(fv.slot is Sub && fv.slot->Sub_1 is Some ==> decreases_to!(
                fv.slot => fv.slot->Sub_1->0
            ));
            assert(fv.slot is Sub && fv.slot->Sub_1 is Some ==> decreases_to!(
                fv.slot->Sub_1->0 => fv.slot->Sub_1->0.fields
            ));
            match &mut self.fields[i].slot {
                Slot::Sub(_, Some(m)) => {
                    let copy = key.clone();
                    assert(copy@ =~= key@);
                    m.set_key(Some(copy));
                },
                _ => {},
            }
            i += 1;
        }
        assert(self@.fields =~= content::fields_keyed(before, key@));
    }

    fn serialize_submodels(&mut self) -> (r: TResult<()>) {
        let aes = crate::crypto::cipher();
        let r = self.serialize_submodels_with(&aes);
        let ghost available = aes is Some;
        assert(subs_outcome(old(self).model(), self.model(), r, available));
        r
    }

    fn deserialize_submodels(&mut self) -> (r: TResult<()>) {
        let aes = crate::crypto::cipher();
        self.deserialize_submodels_with(&aes)
    }

    fn set_multi_recursive(&mut self, data: Json) -> (r: TResult<()>) {
        let mut hash = match data {
            Json::Object(entries) => entries,
            _ => return Err(
                TError::BadValue("protected.set_multi() -- invalid JSON object".to_owned()),
            ),
        };
        let ghost before = self@.fields;
        let ghost entries = hash@;
        let mut i: usize = 0;
        while i < self.fields.len()
            invariant
                i <= self.fields@.len() == before.len(),
                before == old(self)@.fields,
                data@ == JsonView::Object(entries),
                self@ == (ModelView { fields: self@.fields, ..old(self)@ }),
                content::subs_set(before.take(i as int), entries).0 =~= self@.fields.take(
                    i as int,
                ),
                content::subs_set(before.take(i as int), entries).1 == hash@,
                content::subs_set(before.take(i as int), entries).2 is None,
                forall|k: int|
                    i <= k < before.len() ==> model::field_view(#[trigger] self.fields@[k])
                        == before[k],
            decreases self.fields@.len() - i,
        {
            let ghost start = self@.fields;
            assert(model::field_view(self.fields@[i as int]) == before[i as int]);
            let name = self.fields[i].name.clone();
            let r = match &mut self.fields[i].slot {
                Slot::Sub(b, current) => match hash.remove(name.as_str()) {
                    Some(x) => set_sub(b, current, x),
                    None => Ok(()),
                },
                _ => Ok(()),
            };
            assert(before.take(i + 1).drop_last() =~= before.take(i as int));
            assert(self@.fields.take(i + 1) =~= start.take(i as int).push(
                self@.fields[i as int],
            ));
            i += 1;
            if r.is_err() {
                proof {
                    subs_set_stops(before, entries, i as int);
                    assert(self@.fields.skip(i as int) =~= before.skip(i as int));
                    assert(self@.fields =~= self@.fields.take(i as int) + self@.fields.skip(
                        i as int,
                    ));
                }
                return r;
            }
        }
        assert(before.take(i as int) =~= before);
        assert(self@.fields.take(i as int) =~= self@.fields);
        self.set_multi(Json::Object(hash))
    }

    fn table(&self) -> (r: String) {
        to_lowercase(self.name.as_str())
    }

    fn generate_key(&mut self) -> (r: TResult<&Vec<u8>>) {
        if self.key.is_none() {
            match crate::crypto::random_key() {
                Ok(key) => self.set_key(Some(key)),
                Err(e) => return Err(TError::Crypto(e)),
            }
        }
        Ok(self.key.as_ref().unwrap())
    }

    fn get_body(&self) -> (r: Option<&String>) {
        self.body.as_ref()
    }

    fn set_body(&mut self, body: String) {
        self.body = Some(body);
    }

    fn data(&self) -> (r: Json)
        decreases self,
    {
        let mut r = Object::new();
        let ghost fs = self@.fields;
        let mut i: usize = 0;
        assert(content::fields_data(fs.take(0)) =~= Map::empty());
        while i < self.fields.len()
            invariant
                i <= self.fields@.len(),
                fs == model::fields_view(self.fields@),
                r@ == content::fields_data(fs.take(i as int)),
            decreases self.fields@.len() - i,
        {
            let f = &self.fields[i];
            assert(decreases_to!(*self => self.fields));
            assert(decreases_to!(self.fields => self.fields@[i as int]));
            assert(fs[i as int] == model::field_view(*f));
            if f.class != Class::Extra {
                let value = match &f.slot {
                    Slot::Plain(_, Some(v)) => v.clone(),
                    Slot::Plain(_, None) => Json::Null,
                    Slot::Sub(_, Some(m)) => m.data(),
                    Slot::Sub(_, None) => Json::Null,
                };
                assert(value@ == content::slot_data(fs[i as int].slot));
                r.insert(fix_type(f.name.as_str()), value);
            }
            i += 1;
            assert(fs.take(i as int).drop_last() =~= fs.take(i - 1));
        }
        assert(fs.take(i as int) =~= fs);
        r.insert("id".to_owned(), text_value(&self.id));
        r.insert("body".to_owned(), text_value(&self.body));
        Json::Object(r)
    }

    fn get_serializable_data(&self, private: bool) -> (r: Json)
        decreases self, 0int,
    {
        let mut r = Object::new();
        let ghost fs = self@.fields;
        let mut i: usize = 0;
        assert(content::fields_shown(fs.take(0), private) =~= Map::empty());
        while i < self.fields.len()
            invariant
                i <= self.fields@.len(),
                fs == model::fields_view(self.fields@),
                r@ == content::fields_shown(fs.take(i as int), private),
            decreases self.fields@.len() - i,
        {
            assert(decreases_to!(*self => self.fields));
            assert(decreases_to!(self.fields => self.fields@[i as int]));
            match Model::shown(&self.fields[i], private) {
                Some(v) => {
                    r.insert(fix_type(self.fields[i].name.as_str()), v);
                },
                None => {},
            }
            i += 1;
            assert(fs.take(i as int).drop_last() =~= fs.take(i - 1));
        }
        assert(fs.take(i as int) =~= fs);
        if !private {
            r.insert("id".to_owned(), text_value(&self.id));
            r.insert("body".to_owned(), text_value(&self.body));
        }
        Json::Object(r)
    }

    fn serialize(&mut self) -> (r: TResult<Json>) {
        let aes = crate::crypto::cipher();
        let r = self.serialize_with(&aes);
        let ghost available = aes is Some;
        assert(serialize_outcome(old(self).model(), self.model(), r, available));
        r
    }

    fn deserialize(&mut self) -> (r: TResult<Json>) {
        let aes = crate::crypto::cipher();
        let r = self.deserialize_with(&aes);
        let ghost available = aes is Some;
        assert(deserialize_outcome(old(self).model(), self.model(), r, available));
        r
    }
}

/// What was shown by one of some submodels is shown by it among all.
proof fn sub_shown_grows(fields: Seq<FieldView>, name: Seq<char>, private: bool, n: int)
    requires
        0 <= n <= fields.len(),
        content::sub_shown(fields.take(n), name, private) is Some,
    ensures
        content::sub_shown(fields, name, private) == content::sub_shown(
            fields.take(n),
            name,
            private,
        ),
    decreases fields.len(),
{
    if n < fields.len() {
        assert(fields.drop_last().take(n) =~= fields.take(n));
        sub_shown_grows(fields.drop_last(), name, private, n);
    } else {
        assert(fields.take(n) =~= fields);
    }
}

/// An absent text is null.
fn text_value(text: &Option<String>) -> (r: Json)
    ensures
        r@ == content::text_json(model::text_view(*text)),
{
    match text {
        Some(s) => Json::Text(s.clone()),
        None => Json::Null,
    }
}

/// A model of the kind `Key`, used by models that keep data under keys of their own: it has no
/// fields beside id and body.
pub fn key_model() -> (r: Model)
    ensures
        r@ == (ModelView {
            name: "Key"@,
            model_type: text::lowercase("Key"@),
            id: None,
            body: None,
            key: None,
            fields: Seq::empty(),
        }),
{
    Model::new("Key")
}

} // verus!
