//! Tolerant JSON record decoding: a fast structured decoder with a strict
//! fallback, then verified walks from the decoded tree into the typed
//! records of the data model. The decoded tree is modelled by the ghost
//! `JsonTree`; the decoders and the tree accessors are trusted against
//! that model, and everything from the tree to the records is verified.
use vstd::prelude::*;
use vstd::string::{StrSliceExecFns, StringExecFns};
use crate::archive::{clean_string, cleaned};
use crate::models::{Channel, Guild, Message, Payment, RecordError, User};
use crate::patterns::starts_with;

verus! {

#[verifier::external_type_specification]
#[verifier::external_body]
pub struct ExValue(serde_json::Value);

#[verifier::external_type_specification]
#[verifier::external_body]
#[verifier::reject_recursive_types(K)]
#[verifier::reject_recursive_types(V)]
pub struct ExJsonMap<K, V>(serde_json::Map<K, V>);

/// The mathematical shape of a decoded JSON tree.
pub enum JsonTree {
    Null,
    Truth(bool),
    /// A number, as each integer accessor reports it.
    Number { unsigned: Option<u64>, signed: Option<i64> },
    Text(Seq<char>),
    Items(Seq<JsonTree>),
    Fields(Seq<(Seq<char>, JsonTree)>),
}

/// The tree a decoded value carries.
pub uninterp spec fn json_tree_of(v: serde_json::Value) -> JsonTree;

/// The field list a decoded object carries, in the decoder's order.
pub uninterp spec fn json_fields_of(m: serde_json::Map<String, serde_json::Value>) -> Seq<
    (Seq<char>, JsonTree),
>;

/// What the fast structured decoder yields for a text: its tree, or
/// nothing for text it rejects. A function of the text alone.
pub uninterp spec fn fast_tree_of(s: Seq<char>) -> Option<JsonTree>;

/// What the strict fallback decoder yields for a text. A function of the
/// text alone.
pub uninterp spec fn strict_tree_of(s: Seq<char>) -> Option<JsonTree>;

/// The fast decoder accepts the text.
pub open spec fn fast_decodes(s: Seq<char>) -> bool {
    fast_tree_of(s) is Some
}

/// The strict decoder accepts the text.
pub open spec fn strict_decodes(s: Seq<char>) -> bool {
    strict_tree_of(s) is Some
}

/// The tree the tolerant chain settles on: the fast decoder's where it
/// accepts, else the strict decoder's.
pub open spec fn tolerant_tree_of(s: Seq<char>) -> Option<JsonTree> {
    if fast_decodes(s) {
        fast_tree_of(s)
    } else {
        strict_tree_of(s)
    }
}

/// Relies on simd_json::from_slice: the fast structured decoder; errs
/// exactly on input it cannot decode, with its message as text, and
/// otherwise yields the tree the text determines.
#[verifier::external_body]
fn decode_fast(content: &str) -> (r: Result<serde_json::Value, String>)
    ensures
        r is Ok <==> fast_decodes(content@),
        r matches Ok(v) ==> fast_tree_of(content@) == Some(json_tree_of(v)),
{
    let mut bytes = content.as_bytes().to_vec();
    simd_json::from_slice::<serde_json::Value>(&mut bytes).map_err(|e| e.to_string())
}

/// Relies on serde_json::from_str: the strict fallback decoder; errs
/// exactly on input it cannot decode, with its message as text, and
/// otherwise yields the tree the text determines.
#[verifier::external_body]
fn decode_strict(content: &str) -> (r: Result<serde_json::Value, String>)
    ensures
        r is Ok <==> strict_decodes(content@),
        r matches Ok(v) ==> strict_tree_of(content@) == Some(json_tree_of(v)),
{
    serde_json::from_str::<serde_json::Value>(content).map_err(|e| e.to_string())
}

/// Relies on serde_json::Map::iter: the entries of a decoded object, in
/// the decoder's order, keys and values cloned.
#[verifier::external_body]
fn object_entries(m: &serde_json::Map<String, serde_json::Value>) -> (r: Vec<
    (String, serde_json::Value),
>)
    ensures
        r@.len() == json_fields_of(*m).len(),
        forall|i: int|
            0 <= i < r@.len() ==> (#[trigger] r@[i]).0@ == json_fields_of(*m)[i].0 && json_tree_of(
                r@[i].1,
            ) == json_fields_of(*m)[i].1,
{
    m.iter().map(|(k, v)| (k.clone(), v.clone())).collect()
}

pub assume_specification<'a>[ serde_json::Value::as_str ](v: &'a serde_json::Value) -> (r: Option<
    &'a str,
>)
    ensures
        match json_tree_of(*v) {
            JsonTree::Text(t) => r matches Some(s) && s@ == t,
            _ => r is None,
        },
;

pub assume_specification[ serde_json::Value::as_u64 ](v: &serde_json::Value) -> (r: Option<u64>)
    ensures
        r == (match json_tree_of(*v) {
            JsonTree::Number { unsigned, .. } => unsigned,
            _ => None,
        }),
;

pub assume_specification[ serde_json::Value::as_i64 ](v: &serde_json::Value) -> (r: Option<i64>)
    ensures
        r == (match json_tree_of(*v) {
            JsonTree::Number { signed, .. } => signed,
            _ => None,
        }),
;

pub assume_specification[ serde_json::Value::is_null ](v: &serde_json::Value) -> (r: bool)
    ensures
        r == (json_tree_of(*v) is Null),
;

pub assume_specification<'a>[ serde_json::Value::as_array ](v: &'a serde_json::Value) -> (r: Option<
    &'a Vec<serde_json::Value>,
>)
    ensures
        match json_tree_of(*v) {
            JsonTree::Items(elems) => r matches Some(a) && a@.len() == elems.len() && forall|i: int|
                0 <= i < elems.len() ==> json_tree_of(#[trigger] a@[i]) == elems[i],
            _ => r is None,
        },
;

pub assume_specification<'a>[ serde_json::Value::as_object ](v: &'a serde_json::Value) -> (r:
    Option<&'a serde_json::Map<String, serde_json::Value>>)
    ensures
        match json_tree_of(*v) {
            JsonTree::Fields(fs) => r matches Some(m) && json_fields_of(*m) == fs,
            _ => r is None,
        },
;

/// Cleaned record text opens like a JSON object or array.
pub open spec fn json_shape(s: Seq<char>) -> bool {
    s.len() > 0 && (s[0] == '{' || s[0] == '[')
}

/// The tree a record text determines through the whole tolerant chain:
/// shape check first, then the fast decoder, then the strict one.
pub open spec fn record_tree_of(t: Seq<char>) -> Option<JsonTree> {
    if json_shape(cleaned(t)) {
        tolerant_tree_of(cleaned(t))
    } else {
        None
    }
}

/// Tolerant decode of one record file's text: reject text that cannot be
/// JSON by its first character, try the fast decoder, fall back to the
/// strict one, and report both messages where both fail. An accepted
/// text yields the tree it determines.
pub fn parse_json(content: &str) -> (r: Result<serde_json::Value, RecordError>)
    ensures
        r is Ok <==> record_tree_of(content@) is Some,
        r matches Ok(v) ==> record_tree_of(content@) == Some(json_tree_of(v)),
        cleaned(content@).len() == 0 ==> (r matches Err(e) && e.message@
            == "Empty JSON content"@),
        cleaned(content@).len() > 0 && !json_shape(cleaned(content@)) ==> (r matches Err(e)
            && e.message@ == "Invalid JSON format - doesn't start with { or ["@),
        cleaned(content@).len() > 0 && json_shape(cleaned(content@)) && !fast_decodes(
            cleaned(content@),
        ) && !strict_decodes(cleaned(content@)) ==> (r matches Err(e) && starts_with(
            e.message@,
            "Both JSON parsers failed. simd_json: "@,
        )),
{
    let t = clean_string(content);
    if t.as_str().unicode_len() == 0 {
        return Err(RecordError { message: "Empty JSON content".to_owned() });
    }
    let first = t.as_str().get_char(0);
    if first != '{' && first != '[' {
        return Err(
            RecordError { message: "Invalid JSON format - doesn't start with { or [".to_owned() },
        );
    }
    let e1 = match decode_fast(t.as_str()) {
        Ok(v) => {
            return Ok(v);
        },
        Err(e) => e,
    };
    let e2 = match decode_strict(t.as_str()) {
        Ok(v) => {
            return Ok(v);
        },
        Err(e) => e,
    };
    let mut message = "Both JSON parsers failed. simd_json: ".to_owned();
    message.append(e1.as_str());
    message.append(", serde_json: ");
    message.append(e2.as_str());
    proof {
        let p = "Both JSON parsers failed. simd_json: "@;
        assert(message@.subrange(0, p.len() as int) =~= p);
    }
    Err(RecordError { message })
}

/// First field of an object with this key.
pub open spec fn field_lookup(fs: Seq<(Seq<char>, JsonTree)>, key: Seq<char>, i: int) -> Option<
    JsonTree,
>
    decreases fs.len() - i,
{
    if i < 0 || i >= fs.len() {
        None
    } else if fs[i].0 == key {
        Some(fs[i].1)
    } else {
        field_lookup(fs, key, i + 1)
    }
}

proof fn lemma_field_lookup_advance(fs: Seq<(Seq<char>, JsonTree)>, key: Seq<char>, i: int)
    requires
        0 <= i <= fs.len(),
        forall|j: int| 0 <= j < i ==> (#[trigger] fs[j]).0 != key,
    ensures
        field_lookup(fs, key, 0) == field_lookup(fs, key, i),
    decreases i,
{
    if i > 0 {
        lemma_field_lookup_advance(fs, key, i - 1);
    }
}

/// The field trees of a decoded entry list.
pub open spec fn entry_fields(es: Seq<(String, serde_json::Value)>) -> Seq<(Seq<char>, JsonTree)> {
    es.map(|i: int, e: (String, serde_json::Value)| (e.0@, json_tree_of(e.1)))
}

/// Find a field of a decoded object by key, first occurrence.
#[verifier::loop_isolation(false)]
fn find_field<'a>(entries: &'a Vec<(String, serde_json::Value)>, key: &str) -> (r: Option<
    &'a serde_json::Value,
>)
    ensures
        r matches Some(f) ==> field_lookup(entry_fields(entries@), key@, 0) == Some(
            json_tree_of(*f),
        ),
        r is None ==> field_lookup(entry_fields(entries@), key@, 0) is None,
{
    let ghost fs = entry_fields(entries@);
    let mut i: usize = 0;
    while i < entries.len()
        invariant
            i <= entries@.len(),
            forall|j: int| 0 <= j < i ==> (#[trigger] fs[j]).0 != key@,
        decreases entries@.len() - i,
    {
        if crate::archive::string_eq_str(&entries[i].0, key) {
            proof {
                assert(fs[i as int].0 == key@);
                lemma_field_lookup_advance(fs, key@, i as int);
            }
            return Some(&entries[i].1);
        }
        proof {
            assert(fs[i as int] == (entries@[i as int].0@, json_tree_of(entries@[i as int].1)));
        }
        i += 1;
    }
    proof {
        lemma_field_lookup_advance(fs, key@, fs.len() as int);
    }
    None
}

/// The string content of a decoded value, owned.
pub(crate) fn value_string(v: &serde_json::Value) -> (r: Option<String>)
    ensures
        match json_tree_of(*v) {
            JsonTree::Text(t) => r matches Some(s) && s@ == t,
            _ => r is None,
        },
{
    match v.as_str() {
        Some(s) => Some(s.to_owned()),
        None => None,
    }
}

/// A required text field of an object.
pub open spec fn text_field(fs: Seq<(Seq<char>, JsonTree)>, key: Seq<char>) -> Option<Seq<char>> {
    match field_lookup(fs, key, 0) {
        Some(JsonTree::Text(t)) => Some(t),
        _ => None,
    }
}

/// Fetch a required text field.
fn entry_text(entries: &Vec<(String, serde_json::Value)>, key: &str) -> (r: Option<String>)
    ensures
        match text_field(entry_fields(entries@), key@) {
            Some(t) => r matches Some(s) && s@ == t,
            None => r is None,
        },
{
    match find_field(entries, key) {
        Some(f) => value_string(f),
        None => None,
    }
}

/// The ghost shape of a decoded channel record.
pub struct ChannelModel {
    pub id: Seq<char>,
    pub recipients: Option<Seq<Seq<char>>>,
    pub guild: Option<Seq<char>>,
}

/// All elements as texts; nothing where any element is no text.
pub open spec fn texts_of(es: Seq<JsonTree>) -> Option<Seq<Seq<char>>>
    decreases es.len(),
{
    if es.len() == 0 {
        Some(Seq::empty())
    } else {
        match (texts_of(es.drop_last()), es.last()) {
            (Some(pre), JsonTree::Text(t)) => Some(pre.push(t)),
            _ => None,
        }
    }
}

/// One ill-shaped element poisons the whole text list.
proof fn lemma_texts_of_poison(es: Seq<JsonTree>, i: int)
    requires
        0 <= i < es.len(),
        !(es[i] is Text),
    ensures
        texts_of(es) is None,
    decreases es.len(),
{
    if i < es.len() - 1 {
        lemma_texts_of_poison(es.drop_last(), i);
    }
}

/// A channel record: a required text id, an optional text list of
/// recipients (null counting as absent), an optional guild object with a
/// required text name (null counting as absent).
pub open spec fn channel_of_tree(t: JsonTree) -> Option<ChannelModel> {
    match t {
        JsonTree::Fields(fs) => match text_field(fs, "id"@) {
            Some(id) => {
                let recipients = match field_lookup(fs, "recipients"@, 0) {
                    None => Some(Option::<Seq<Seq<char>>>::None),
                    Some(JsonTree::Null) => Some(Option::<Seq<Seq<char>>>::None),
                    Some(JsonTree::Items(es)) => match texts_of(es) {
                        Some(rs) => Some(Some(rs)),
                        None => None,
                    },
                    Some(_) => None,
                };
                let guild = match field_lookup(fs, "guild"@, 0) {
                    None => Some(Option::<Seq<char>>::None),
                    Some(JsonTree::Null) => Some(Option::<Seq<char>>::None),
                    Some(JsonTree::Fields(gf)) => match text_field(gf, "name"@) {
                        Some(n) => Some(Some(n)),
                        None => None,
                    },
                    Some(_) => None,
                };
                match (recipients, guild) {
                    (Some(r), Some(g)) => Some(ChannelModel { id, recipients: r, guild: g }),
                    _ => None,
                }
            },
            None => None,
        },
        _ => None,
    }
}

/// A decoded channel carries its model's fields.
pub open spec fn channel_matches(c: Channel, m: ChannelModel) -> bool {
    &&& c.id@ == m.id
    &&& match (c.recipients, m.recipients) {
        (Some(rs), Some(ms)) => rs@.len() == ms.len() && forall|i: int|
            0 <= i < ms.len() ==> (#[trigger] rs@[i])@ == ms[i],
        (None, None) => true,
        _ => false,
    }
    &&& match (c.guild, m.guild) {
        (Some(g), Some(n)) => g.name@ == n,
        (None, None) => true,
        _ => false,
    }
}

/// Channel metadata from a decoded tree: exactly the record its tree
/// determines, nothing where any present field has an unexpected shape.
#[verifier::loop_isolation(false)]
pub(crate) fn channel_from_value(v: &serde_json::Value) -> (r: Option<Channel>)
    ensures
        match channel_of_tree(json_tree_of(*v)) {
            Some(cm) => r matches Some(c) && channel_matches(c, cm),
            None => r is None,
        },
{
    let obj = match v.as_object() {
        Some(o) => o,
        None => {
            return None;
        },
    };
    let entries = object_entries(obj);
    let ghost fs = entry_fields(entries@);
    proof {
        assert(fs =~~= json_fields_of(*obj));
    }
    let id = match entry_text(&entries, "id") {
        Some(s) => s,
        None => {
            return None;
        },
    };
    let recipients: Option<Vec<String>> = match find_field(&entries, "recipients") {
        None => None,
        Some(f) => {
            if f.is_null() {
                None
            } else {
                let arr = match f.as_array() {
                    Some(a) => a,
                    None => {
                        return None;
                    },
                };
                let ghost elems = json_tree_of(*f)->Items_0;
                let mut rs: Vec<String> = Vec::new();
                let mut i: usize = 0;
                while i < arr.len()
                    invariant
                        i <= arr@.len(),
                        arr@.len() == elems.len(),
                        forall|k: int|
                            0 <= k < elems.len() ==> json_tree_of(#[trigger] arr@[k]) == elems[k],
                        texts_of(elems.subrange(0, i as int)) matches Some(pre) && pre.len()
                            == rs@.len() && (forall|k: int|
                            0 <= k < rs@.len() ==> (#[trigger] rs@[k])@ == pre[k]),
                    decreases arr@.len() - i,
                {
                    let ghost pre = elems.subrange(0, i as int);
                    let ghost pre1 = elems.subrange(0, i + 1);
                    proof {
                        assert(pre1.drop_last() =~= pre);
                        assert(pre1.last() == elems[i as int]);
                    }
                    let s = match value_string(&arr[i]) {
                        Some(s) => s,
                        None => {
                            proof {
                                lemma_texts_of_poison(elems, i as int);
                            }
                            return None;
                        },
                    };
                    rs.push(s);
                    i += 1;
                }
                proof {
                    assert(elems.subrange(0, elems.len() as int) =~= elems);
                }
                Some(rs)
            }
        },
    };
    let guild: Option<Guild> = match find_field(&entries, "guild") {
        None => None,
        Some(g) => {
            if g.is_null() {
                None
            } else {
                let gobj = match g.as_object() {
                    Some(o) => o,
                    None => {
                        return None;
                    },
                };
                let gentries = object_entries(gobj);
                proof {
                    assert(entry_fields(gentries@) =~~= json_fields_of(*gobj));
                }
                let name = match entry_text(&gentries, "name") {
                    Some(n) => n,
                    None => {
                        return None;
                    },
                };
                Some(Guild { name })
            }
        },
    };
    Some(Channel { id, recipients, guild })
}

/// The ghost shape of a decoded payment record.
pub struct PaymentModel {
    pub amount: u64,
    pub currency: Seq<char>,
    pub status: i64,
    pub created_at: Seq<char>,
    pub description: Seq<char>,
}

/// A required unsigned number field.
pub open spec fn unsigned_field(fs: Seq<(Seq<char>, JsonTree)>, key: Seq<char>) -> Option<u64> {
    match field_lookup(fs, key, 0) {
        Some(JsonTree::Number { unsigned, .. }) => unsigned,
        _ => None,
    }
}

/// A required signed number field.
pub open spec fn signed_field(fs: Seq<(Seq<char>, JsonTree)>, key: Seq<char>) -> Option<i64> {
    match field_lookup(fs, key, 0) {
        Some(JsonTree::Number { signed, .. }) => signed,
        _ => None,
    }
}

/// One payment record: every field required.
pub open spec fn payment_of_tree(t: JsonTree) -> Option<PaymentModel> {
    match t {
        JsonTree::Fields(fs) => match (
            unsigned_field(fs, "amount"@),
            text_field(fs, "currency"@),
            signed_field(fs, "status"@),
            text_field(fs, "created_at"@),
            text_field(fs, "description"@),
        ) {
            (Some(a), Some(c), Some(s), Some(ca), Some(d)) => Some(
                PaymentModel { amount: a, currency: c, status: s, created_at: ca, description: d },
            ),
            _ => None,
        },
        _ => None,
    }
}

pub open spec fn payment_matches(p: Payment, m: PaymentModel) -> bool {
    &&& p.amount == m.amount
    &&& p.currency@ == m.currency
    &&& p.status == m.status
    &&& p.created_at@ == m.created_at
    &&& p.description@ == m.description
}

/// All elements as payments; nothing where any element is ill-shaped.
pub open spec fn payments_of(es: Seq<JsonTree>) -> Option<Seq<PaymentModel>>
    decreases es.len(),
{
    if es.len() == 0 {
        Some(Seq::empty())
    } else {
        match (payments_of(es.drop_last()), payment_of_tree(es.last())) {
            (Some(pre), Some(p)) => Some(pre.push(p)),
            _ => None,
        }
    }
}

proof fn lemma_payments_of_poison(es: Seq<JsonTree>, i: int)
    requires
        0 <= i < es.len(),
        payment_of_tree(es[i]) is None,
    ensures
        payments_of(es) is None,
    decreases es.len(),
{
    if i < es.len() - 1 {
        lemma_payments_of_poison(es.drop_last(), i);
    }
}

/// One payment record from a decoded tree.
fn payment_from_value(v: &serde_json::Value) -> (r: Option<Payment>)
    ensures
        match payment_of_tree(json_tree_of(*v)) {
            Some(pm) => r matches Some(p) && payment_matches(p, pm),
            None => r is None,
        },
{
    let obj = match v.as_object() {
        Some(o) => o,
        None => {
            return None;
        },
    };
    let entries = object_entries(obj);
    proof {
        assert(entry_fields(entries@) =~~= json_fields_of(*obj));
    }
    let amount = match find_field(&entries, "amount") {
        Some(f) => match f.as_u64() {
            Some(a) => a,
            None => {
                return None;
            },
        },
        None => {
            return None;
        },
    };
    let currency = match entry_text(&entries, "currency") {
        Some(s) => s,
        None => {
            return None;
        },
    };
    let status = match find_field(&entries, "status") {
        Some(f) => match f.as_i64() {
            Some(s) => s,
            None => {
                return None;
            },
        },
        None => {
            return None;
        },
    };
    let created_at = match entry_text(&entries, "created_at") {
        Some(s) => s,
        None => {
            return None;
        },
    };
    let description = match entry_text(&entries, "description") {
        Some(s) => s,
        None => {
            return None;
        },
    };
    Some(Payment { amount, currency, status, created_at, description })
}

/// The ghost shape of a decoded user record.
pub struct UserModel {
    pub id: Seq<char>,
    pub username: Seq<char>,
    pub discriminator: u16,
    pub payments: Seq<PaymentModel>,
}

/// The user record: id, username, a discriminator in the legacy tag
/// range, and the payment list, all required.
pub open spec fn user_of_tree(t: JsonTree) -> Option<UserModel> {
    match t {
        JsonTree::Fields(fs) => match (
            text_field(fs, "id"@),
            text_field(fs, "username"@),
            unsigned_field(fs, "discriminator"@),
            field_lookup(fs, "payments"@, 0),
        ) {
            (Some(id), Some(un), Some(d), Some(JsonTree::Items(es))) => if d <= 65535 {
                match payments_of(es) {
                    Some(ps) => Some(
                        UserModel { id, username: un, discriminator: d as u16, payments: ps },
                    ),
                    None => None,
                }
            } else {
                None
            },
            _ => None,
        },
        _ => None,
    }
}

/// A decoded user carries its model's fields; the avatar and the
/// default-avatar reference are filled in later.
pub open spec fn user_matches(u: User, m: UserModel) -> bool {
    &&& u.id@ == m.id
    &&& u.username@ == m.username
    &&& u.discriminator == m.discriminator
    &&& u.payments@.len() == m.payments.len()
    &&& forall|i: int|
        0 <= i < m.payments.len() ==> payment_matches(#[trigger] u.payments@[i], m.payments[i])
}

/// The user record from a decoded tree: exactly the record its tree
/// determines, nothing on any missing or ill-shaped required field.
#[verifier::loop_isolation(false)]
pub(crate) fn user_from_value(v: &serde_json::Value) -> (r: Option<User>)
    ensures
        match user_of_tree(json_tree_of(*v)) {
            Some(um) => r matches Some(u) && user_matches(u, um) && u.avatar is None
                && u.default_avatar_url is None,
            None => r is None,
        },
{
    let obj = match v.as_object() {
        Some(o) => o,
        None => {
            return None;
        },
    };
    let entries = object_entries(obj);
    let ghost fs = entry_fields(entries@);
    proof {
        assert(fs =~~= json_fields_of(*obj));
    }
    let id = match entry_text(&entries, "id") {
        Some(s) => s,
        None => {
            return None;
        },
    };
    let username = match entry_text(&entries, "username") {
        Some(s) => s,
        None => {
            return None;
        },
    };
    let disc = match find_field(&entries, "discriminator") {
        Some(f) => match f.as_u64() {
            Some(d) => d,
            None => {
                return None;
            },
        },
        None => {
            return None;
        },
    };
    if disc > 65535 {
        return None;
    }
    let discriminator: u16 = disc as u16;
    let parr = match find_field(&entries, "payments") {
        Some(f) => match f.as_array() {
            Some(a) => a,
            None => {
                return None;
            },
        },
        None => {
            return None;
        },
    };
    let ghost elems = field_lookup(fs, "payments"@, 0)->Some_0->Items_0;
    let mut payments: Vec<Payment> = Vec::new();
    let mut i: usize = 0;
    while i < parr.len()
        invariant
            i <= parr@.len(),
            parr@.len() == elems.len(),
            forall|k: int| 0 <= k < elems.len() ==> json_tree_of(#[trigger] parr@[k]) == elems[k],
            payments_of(elems.subrange(0, i as int)) matches Some(pre) && pre.len()
                == payments@.len() && (forall|k: int|
                0 <= k < payments@.len() ==> payment_matches(#[trigger] payments@[k], pre[k])),
        decreases parr@.len() - i,
    {
        let ghost pre = elems.subrange(0, i as int);
        let ghost pre1 = elems.subrange(0, i + 1);
        proof {
            assert(pre1.drop_last() =~= pre);
            assert(pre1.last() == elems[i as int]);
        }
        let p = match payment_from_value(&parr[i]) {
            Some(p) => p,
            None => {
                proof {
                    lemma_payments_of_poison(elems, i as int);
                }
                return None;
            },
        };
        payments.push(p);
        i += 1;
    }
    proof {
        assert(elems.subrange(0, elems.len() as int) =~= elems);
    }
    Some(
        User {
            id,
            username,
            discriminator,
            avatar: None,
            default_avatar_url: None,
            payments,
        },
    )
}

/// The ghost shape of a decoded raw message.
pub struct MessageModel {
    pub id: u64,
    pub timestamp: Seq<char>,
    pub contents: Seq<char>,
    pub attachments: Option<Seq<char>>,
}

/// One raw message: a numeric identifier, a timestamp and contents, all
/// required; the attachment text optional (null counting as absent).
pub open spec fn message_of_tree(t: JsonTree) -> Option<MessageModel> {
    match t {
        JsonTree::Fields(fs) => match (
            unsigned_field(fs, "ID"@),
            text_field(fs, "Timestamp"@),
            text_field(fs, "Contents"@),
        ) {
            (Some(id), Some(ts), Some(ct)) => match field_lookup(fs, "Attachments"@, 0) {
                None => Some(
                    MessageModel { id, timestamp: ts, contents: ct, attachments: None },
                ),
                Some(JsonTree::Null) => Some(
                    MessageModel { id, timestamp: ts, contents: ct, attachments: None },
                ),
                Some(JsonTree::Text(a)) => Some(
                    MessageModel { id, timestamp: ts, contents: ct, attachments: Some(a) },
                ),
                Some(_) => None,
            },
            _ => None,
        },
        _ => None,
    }
}

pub open spec fn message_matches(m: Message, mm: MessageModel) -> bool {
    &&& m.id == mm.id
    &&& m.timestamp@ == mm.timestamp
    &&& m.contents@ == mm.contents
    &&& match (m.attachments, mm.attachments) {
        (Some(a), Some(b)) => a@ == b,
        (None, None) => true,
        _ => false,
    }
}

/// One raw message from a decoded tree: exactly the record its tree
/// determines.
pub(crate) fn message_from_value(v: &serde_json::Value) -> (r: Option<Message>)
    ensures
        match message_of_tree(json_tree_of(*v)) {
            Some(mm) => r matches Some(m) && message_matches(m, mm),
            None => r is None,
        },
{
    let obj = match v.as_object() {
        Some(o) => o,
        None => {
            return None;
        },
    };
    let entries = object_entries(obj);
    proof {
        assert(entry_fields(entries@) =~~= json_fields_of(*obj));
    }
    let id = match find_field(&entries, "ID") {
        Some(f) => match f.as_u64() {
            Some(n) => n,
            None => {
                return None;
            },
        },
        None => {
            return None;
        },
    };
    let timestamp = match entry_text(&entries, "Timestamp") {
        Some(s) => s,
        None => {
            return None;
        },
    };
    let contents = match entry_text(&entries, "Contents") {
        Some(s) => s,
        None => {
            return None;
        },
    };
    let attachments: Option<String> = match find_field(&entries, "Attachments") {
        None => None,
        Some(a) => {
            if a.is_null() {
                None
            } else {
                match value_string(a) {
                    Some(s) => Some(s),
                    None => {
                        return None;
                    },
                }
            }
        },
    };
    Some(Message { id, timestamp, contents, attachments })
}

/// All values of an object as texts; nothing where the tree is no object
/// or any value is no text. The shape of the channel and guild indexes.
pub open spec fn string_map_of_tree(t: JsonTree) -> Option<Seq<(Seq<char>, Seq<char>)>> {
    match t {
        JsonTree::Fields(fs) => text_pairs_of(fs),
        _ => None,
    }
}

pub open spec fn text_pairs_of(fs: Seq<(Seq<char>, JsonTree)>) -> Option<Seq<(Seq<char>, Seq<char>)>>
    decreases fs.len(),
{
    if fs.len() == 0 {
        Some(Seq::empty())
    } else {
        match (text_pairs_of(fs.drop_last()), fs.last().1) {
            (Some(pre), JsonTree::Text(t)) => Some(pre.push((fs.last().0, t))),
            _ => None,
        }
    }
}

proof fn lemma_text_pairs_poison(fs: Seq<(Seq<char>, JsonTree)>, i: int)
    requires
        0 <= i < fs.len(),
        !((fs[i]).1 is Text),
    ensures
        text_pairs_of(fs) is None,
    decreases fs.len(),
{
    if i < fs.len() - 1 {
        lemma_text_pairs_poison(fs.drop_last(), i);
    }
}

/// A decoded object all of whose values are strings, as a key-value list
/// in the decoder's order: exactly the pairs its tree determines.
#[verifier::loop_isolation(false)]
pub(crate) fn string_map_entries(v: &serde_json::Value) -> (r: Option<Vec<(String, String)>>)
    ensures
        match string_map_of_tree(json_tree_of(*v)) {
            Some(pairs) => r matches Some(es) && es@.len() == pairs.len() && (forall|i: int|
                0 <= i < pairs.len() ==> ((#[trigger] es@[i]).0@, es@[i].1@) == pairs[i]),
            None => r is None,
        },
{
    let obj = match v.as_object() {
        Some(o) => o,
        None => {
            return None;
        },
    };
    let entries = object_entries(obj);
    let ghost fs = entry_fields(entries@);
    proof {
        assert(fs =~~= json_fields_of(*obj));
    }
    let mut r: Vec<(String, String)> = Vec::new();
    let mut i: usize = 0;
    while i < entries.len()
        invariant
            i <= entries@.len(),
            fs == entry_fields(entries@),
            text_pairs_of(fs.subrange(0, i as int)) matches Some(pre) && pre.len() == r@.len() && (
            forall|k: int| 0 <= k < r@.len() ==> ((#[trigger] r@[k]).0@, r@[k].1@) == pre[k]),
        decreases entries@.len() - i,
    {
        let ghost pre = fs.subrange(0, i as int);
        let ghost pre1 = fs.subrange(0, i + 1);
        proof {
            assert(pre1.drop_last() =~= pre);
            assert(pre1.last() == fs[i as int]);
        }
        let s = match value_string(&entries[i].1) {
            Some(s) => s,
            None => {
                proof {
                    assert(fs[i as int].1 == json_tree_of(entries@[i as int].1));
                    lemma_text_pairs_poison(fs, i as int);
                }
                return None;
            },
        };
        let k = entries[i].0.clone();
        proof {
            assert(fs[i as int].0 == entries@[i as int].0@);
        }
        r.push((k, s));
        i += 1;
    }
    proof {
        assert(fs.subrange(0, fs.len() as int) =~= fs);
    }
    Some(r)
}

} // verus!
