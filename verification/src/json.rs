//! A small JSON value type and the stable comparison key derived from it.

use crate::text::{
    lemma_lex_not_after_transitive, lemma_lex_trichotomy, lex_less, precedes, same_text,
};
use vstd::prelude::*;
use vstd::string::*;
use vstd::utf8::encode_utf8;

verus! {

/// A JSON document held as plain values.
///
/// A number is kept as the literal text it is written with, so a value never
/// has to be interpreted numerically. The members of an object keep the order
/// in which they were supplied.
#[derive(Debug, PartialEq, Eq)]
pub enum JsonValue {
    Null,
    Bool(bool),
    Number(String),
    String(String),
    Array(Vec<JsonValue>),
    Object(Vec<JsonMember>),
}

/// One `key: value` pair of a JSON object.
#[derive(Debug, PartialEq, Eq)]
pub struct JsonMember {
    pub key: String,
    pub value: JsonValue,
}

/// The mathematical content of a [`JsonValue`].
pub enum JsonTerm {
    Null,
    Bool(bool),
    Number(Seq<char>),
    String(Seq<char>),
    Array(Seq<JsonTerm>),
    Object(Seq<JsonField>),
}

/// The mathematical content of a [`JsonMember`].
pub struct JsonField {
    pub key: Seq<char>,
    pub value: JsonTerm,
}

impl View for JsonValue {
    type V = JsonTerm;

    open spec fn view(&self) -> JsonTerm
        decreases self,
    {
        match self {
            JsonValue::Null => JsonTerm::Null,
            JsonValue::Bool(b) => JsonTerm::Bool(*b),
            JsonValue::Number(text) => JsonTerm::Number(text@),
            JsonValue::String(text) => JsonTerm::String(text@),
            JsonValue::Array(items) => JsonTerm::Array(
                Seq::new(
                    items.len() as nat,
                    |i: int|
                        if 0 <= i < items.len() {
                            items[i].view()
                        } else {
                            JsonTerm::Null
                        },
                ),
            ),
            JsonValue::Object(members) => JsonTerm::Object(
                Seq::new(
                    members.len() as nat,
                    |i: int|
                        if 0 <= i < members.len() {
                            JsonField { key: members[i].key@, value: members[i].value.view() }
                        } else {
                            JsonField { key: Seq::empty(), value: JsonTerm::Null }
                        },
                ),
            ),
        }
    }
}

/// An array whose items have the views `terms`, in order, has the view
/// `Array(terms)`.
pub proof fn lemma_array_view(items: Vec<JsonValue>, terms: Seq<JsonTerm>)
    requires
        items.len() == terms.len(),
        forall|j: int| 0 <= j < items.len() ==> (#[trigger] items[j])@ == terms[j],
    ensures
        JsonValue::Array(items)@ == JsonTerm::Array(terms),
{
    let built = JsonValue::Array(items)@;
    assert(built is Array);
    assert forall|j: int| 0 <= j < terms.len() implies built->Array_0[j] == terms[j] by {
        assert(items[j]@ == terms[j]);
    }
    assert(built->Array_0 =~= terms);
}

/// An object whose members have the keys and value views listed in `pairs`,
/// in order, has the view `Object(pairs)`.
pub proof fn lemma_object_view(members: Vec<JsonMember>, fields: Seq<JsonField>)
    requires
        members.len() == fields.len(),
        forall|j: int|
            0 <= j < members.len() ==> (#[trigger] members[j]).key@ == fields[j].key
                && members[j].value@ == fields[j].value,
    ensures
        JsonValue::Object(members)@ == JsonTerm::Object(fields),
{
    let built = JsonValue::Object(members)@;
    assert(built is Object);
    assert forall|j: int| 0 <= j < fields.len() implies built->Object_0[j] == fields[j] by {
        assert(members[j].key@ == fields[j].key);
    }
    assert(built->Object_0 =~= fields);
}

impl Clone for JsonValue {
    fn clone(&self) -> (copy: Self)
        ensures
            copy@ == self@,
        decreases self,
    {
        match self {
            JsonValue::Null => JsonValue::Null,
            JsonValue::Bool(b) => JsonValue::Bool(*b),
            JsonValue::Number(text) => JsonValue::Number(text.clone()),
            JsonValue::String(text) => JsonValue::String(text.clone()),
            JsonValue::Array(items) => {
                let mut out: Vec<JsonValue> = Vec::new();
                let mut i: usize = 0;
                #[verifier::loop_isolation(false)]
                while i < items.len()
                    invariant
                        i <= items.len(),
                        out.len() == i,
                        forall|j: int| 0 <= j < i ==> (#[trigger] out[j])@ == items[j]@,
                    decreases items.len() - i,
                {
                    out.push(items[i].clone());
                    i += 1;
                }
                proof {
                    lemma_array_view(out, self@->Array_0);
                }
                JsonValue::Array(out)
            },
            JsonValue::Object(members) => {
                let mut out: Vec<JsonMember> = Vec::new();
                let mut i: usize = 0;
                #[verifier::loop_isolation(false)]
                while i < members.len()
                    invariant
                        i <= members.len(),
                        out.len() == i,
                        forall|j: int|
                            0 <= j < i ==> (#[trigger] out[j]).key@ == members[j].key@
                                && out[j].value@ == members[j].value@,
                    decreases members.len() - i,
                {
                    out.push(
                        JsonMember { key: members[i].key.clone(), value: members[i].value.clone() },
                    );
                    i += 1;
                }
                proof {
                    lemma_object_view(out, self@->Object_0);
                }
                JsonValue::Object(out)
            },
        }
    }
}

/// Field `i` is the first of `fields` stored under `key`.
pub open spec fn is_first_field(fields: Seq<JsonField>, key: Seq<char>, i: int) -> bool {
    &&& 0 <= i < fields.len()
    &&& fields[i].key == key
    &&& forall|j: int| 0 <= j < i ==> (#[trigger] fields[j]).key != key
}

/// The member of an object term stored under `key`: the first such, where
/// the key occurs more than once. `None` for a missing key and for a term
/// that is not an object.
pub open spec fn member_of(term: JsonTerm, key: Seq<char>) -> Option<JsonTerm> {
    match term {
        JsonTerm::Object(fields) => if exists|i: int| is_first_field(fields, key, i) {
            Some(fields[choose|i: int| is_first_field(fields, key, i)].value)
        } else {
            None
        },
        _ => None,
    }
}

/// The literal text of a number term; `None` for any other term.
pub open spec fn number_of(term: JsonTerm) -> Option<Seq<char>> {
    match term {
        JsonTerm::Number(text) => Some(text),
        _ => None,
    }
}

/// The text of a string term; `None` for any other term.
pub open spec fn text_of(term: JsonTerm) -> Option<Seq<char>> {
    match term {
        JsonTerm::String(text) => Some(text),
        _ => None,
    }
}

/// A key has one first field only, and the member stored under the key is
/// its value.
pub proof fn lemma_first_field(fields: Seq<JsonField>, key: Seq<char>, i: int)
    requires
        is_first_field(fields, key, i),
    ensures
        member_of(JsonTerm::Object(fields), key) == Some(fields[i].value),
{
    let j = choose|j: int| is_first_field(fields, key, j);
    if i < j {
        assert(fields[i].key != key);
    }
    if j < i {
        assert(fields[j].key != key);
    }
}

/// The views of a list of members, in order.
pub open spec fn members_view(members: Seq<JsonMember>) -> Seq<JsonField> {
    Seq::new(members.len(), |i: int| JsonField { key: members[i].key@, value: members[i].value@ })
}

/// The views of a list of values, in order.
pub open spec fn items_view(items: Seq<JsonValue>) -> Seq<JsonTerm> {
    Seq::new(items.len(), |i: int| items[i]@)
}

/// The JSON string literal that `text` is written as, quotes included: what
/// `serde_json` renders a string as.
pub uninterp spec fn json_quoted(text: Seq<char>) -> Seq<char>;

/// What stands between an item and the one before it: a comma, except
/// before the first.
pub open spec fn separator(n: nat) -> Seq<char> {
    if n > 1 {
        ","@
    } else {
        Seq::empty()
    }
}

/// The compact JSON text of a term: no whitespace, members and items in
/// the order the term holds them.
pub open spec fn json_text(term: JsonTerm) -> Seq<char>
    decreases term, 0nat,
{
    match term {
        JsonTerm::Null => "null"@,
        JsonTerm::Bool(b) => if b {
            "true"@
        } else {
            "false"@
        },
        JsonTerm::Number(text) => text,
        JsonTerm::String(text) => json_quoted(text),
        JsonTerm::Array(items) => "["@ + items_text(items, items.len()) + "]"@,
        JsonTerm::Object(fields) => "{"@ + fields_text(fields, fields.len()) + "}"@,
    }
}

/// The texts of the first `n` items, separated by commas.
pub open spec fn items_text(items: Seq<JsonTerm>, n: nat) -> Seq<char>
    decreases items, n,
{
    if n == 0 || n > items.len() {
        Seq::empty()
    } else {
        items_text(items, (n - 1) as nat) + separator(n) + json_text(items[n - 1])
    }
}

/// The texts of the first `n` fields, each as `"key":value`, separated by
/// commas.
pub open spec fn fields_text(fields: Seq<JsonField>, n: nat) -> Seq<char>
    decreases fields, n,
{
    if n == 0 || n > fields.len() {
        Seq::empty()
    } else {
        fields_text(fields, (n - 1) as nat) + separator(n) + json_quoted(fields[n - 1].key) + ":"@
            + json_text(fields[n - 1].value)
    }
}

/// Key `a` sorts strictly before key `b`: lexicographically by UTF-8 bytes,
/// which is also the order of their code points.
pub open spec fn key_before(a: Seq<char>, b: Seq<char>) -> bool {
    lex_less(encode_utf8(a), encode_utf8(b))
}

/// `sorted` with `field` put in behind the last field whose key does not
/// sort after it.
pub open spec fn insert_field(sorted: Seq<JsonField>, field: JsonField) -> Seq<JsonField>
    decreases sorted.len(),
{
    if sorted.len() > 0 && key_before(field.key, sorted.last().key) {
        insert_field(sorted.drop_last(), field).push(sorted.last())
    } else {
        sorted.push(field)
    }
}

/// The fields in ascending order of key; fields with equal keys keep their
/// relative order.
pub open spec fn sort_fields(fields: Seq<JsonField>) -> Seq<JsonField>
    decreases fields.len(),
{
    if fields.len() == 0 {
        fields
    } else {
        insert_field(sort_fields(fields.drop_last()), fields.last())
    }
}

/// The canonical form of a term: every object, at any depth, has its fields
/// sorted by key; arrays keep their order; everything else is unchanged.
pub open spec fn canonical(term: JsonTerm) -> JsonTerm
    decreases term,
{
    match term {
        JsonTerm::Array(items) => JsonTerm::Array(canonical_items(items)),
        JsonTerm::Object(fields) => JsonTerm::Object(sort_fields(canonical_fields(fields))),
        _ => term,
    }
}

/// The canonical forms of the items, in order.
pub open spec fn canonical_items(items: Seq<JsonTerm>) -> Seq<JsonTerm>
    decreases items,
{
    Seq::new(
        items.len(),
        |i: int|
            if 0 <= i < items.len() {
                canonical(items[i])
            } else {
                JsonTerm::Null
            },
    )
}

/// The fields with each value in canonical form, in the given order.
pub open spec fn canonical_fields(fields: Seq<JsonField>) -> Seq<JsonField>
    decreases fields,
{
    Seq::new(
        fields.len(),
        |i: int|
            if 0 <= i < fields.len() {
                JsonField { key: fields[i].key, value: canonical(fields[i].value) }
            } else {
                JsonField { key: Seq::empty(), value: JsonTerm::Null }
            },
    )
}

/// The comparison key of a term: a plain string stands for itself; any other
/// term is written out in canonical form.
pub open spec fn stable_key(term: JsonTerm) -> Seq<char> {
    match term {
        JsonTerm::String(text) => text,
        _ => json_text(canonical(term)),
    }
}

/// Inserting a field lands it at `pos` when every field from `pos` on sorts
/// after it and the field before `pos`, if any, does not.
pub proof fn lemma_insert_field_at(sorted: Seq<JsonField>, field: JsonField, pos: int)
    requires
        0 <= pos <= sorted.len(),
        forall|j: int| pos <= j < sorted.len() ==> key_before(field.key, #[trigger] sorted[j].key),
        pos == 0 || !key_before(field.key, sorted[pos - 1].key),
    ensures
        insert_field(sorted, field) == sorted.insert(pos, field),
    decreases sorted.len(),
{
    if pos == sorted.len() {
        assert(sorted.insert(pos, field) =~= sorted.push(field));
    } else {
        let rest = sorted.drop_last();
        assert(key_before(field.key, sorted[sorted.len() - 1].key));
        assert forall|j: int| pos <= j < rest.len() implies key_before(
            field.key,
            #[trigger] rest[j].key,
        ) by {
            assert(rest[j] == sorted[j]);
        }
        lemma_insert_field_at(rest, field, pos);
        assert(rest.insert(pos, field).push(sorted.last()) =~= sorted.insert(pos, field));
    }
}

/// No field comes before one that stands earlier: the keys ascend.
pub open spec fn fields_sorted(fields: Seq<JsonField>) -> bool {
    forall|i: int, j: int|
        0 <= i < j < fields.len() ==> !key_before(
            (#[trigger] fields[j]).key,
            (#[trigger] fields[i]).key,
        )
}

/// Inserting a field puts it at some position behind which every key comes
/// after its own, and before which, directly, none does.
proof fn lemma_insert_position(sorted: Seq<JsonField>, field: JsonField) -> (pos: int)
    ensures
        0 <= pos <= sorted.len(),
        insert_field(sorted, field) == sorted.insert(pos, field),
        forall|j: int| pos <= j < sorted.len() ==> key_before(field.key, #[trigger] sorted[j].key),
        pos == 0 || !key_before(field.key, sorted[pos - 1].key),
    decreases sorted.len(),
{
    if sorted.len() > 0 && key_before(field.key, sorted.last().key) {
        let rest = sorted.drop_last();
        let pos = lemma_insert_position(rest, field);
        assert forall|j: int| pos <= j < sorted.len() implies key_before(
            field.key,
            #[trigger] sorted[j].key,
        ) by {
            if j < rest.len() {
                assert(rest[j] == sorted[j]);
            }
        }
        if pos > 0 {
            assert(rest[pos - 1] == sorted[pos - 1]);
        }
        lemma_insert_field_at(sorted, field, pos);
        pos
    } else {
        let pos = sorted.len() as int;
        lemma_insert_field_at(sorted, field, pos);
        pos
    }
}

/// Inserting a field into ascending fields leaves them ascending, and adds
/// that field and nothing else.
pub proof fn lemma_insert_field_sorted(sorted: Seq<JsonField>, field: JsonField)
    requires
        fields_sorted(sorted),
    ensures
        fields_sorted(insert_field(sorted, field)),
        insert_field(sorted, field).to_multiset() == sorted.to_multiset().insert(field),
{
    let pos = lemma_insert_position(sorted, field);
    let out = sorted.insert(pos, field);
    vstd::seq_lib::to_multiset_insert(sorted, pos, field);
    assert forall|i: int, j: int| 0 <= i < j < out.len() implies !key_before(
        (#[trigger] out[j]).key,
        (#[trigger] out[i]).key,
    ) by {
        let own = encode_utf8(field.key);
        if j < pos {
            assert(out[i] == sorted[i] && out[j] == sorted[j]);
        } else if j == pos {
            // out[i] stands before the new field.
            assert(out[i] == sorted[i]);
            let before = encode_utf8(sorted[i].key);
            let last = encode_utf8(sorted[pos - 1].key);
            if i < pos - 1 {
                assert(!key_before(sorted[pos - 1].key, sorted[i].key));
            }
            lemma_lex_trichotomy(before, last);
            lemma_lex_not_after_transitive(before, last, own);
        } else if i < pos {
            assert(out[i] == sorted[i] && out[j] == sorted[j - 1]);
            if i == j - 1 {
                lemma_lex_trichotomy(encode_utf8(sorted[i].key), encode_utf8(sorted[i].key));
            }
        } else if i == pos {
            // out[j] stands behind the new field.
            assert(out[j] == sorted[j - 1]);
            assert(key_before(field.key, sorted[j - 1].key));
            lemma_lex_trichotomy(own, encode_utf8(sorted[j - 1].key));
        } else {
            assert(out[i] == sorted[i - 1] && out[j] == sorted[j - 1]);
        }
    }
}

/// Sorting sorts, and keeps what there is.
///
/// The sorted fields ascend by key, and every field occurs in them as often
/// as it did before.
pub proof fn lemma_sort_fields_sorts(fields: Seq<JsonField>)
    ensures
        fields_sorted(sort_fields(fields)),
        sort_fields(fields).to_multiset() == fields.to_multiset(),
        sort_fields(fields).len() == fields.len(),
    decreases fields.len(),
{
    if fields.len() > 0 {
        let rest = fields.drop_last();
        lemma_sort_fields_sorts(rest);
        lemma_insert_field_sorted(sort_fields(rest), fields.last());
        assert(rest.push(fields.last()) =~= fields);
        vstd::seq_lib::to_multiset_build(rest, fields.last());
    }
    vstd::seq_lib::to_multiset_len(sort_fields(fields));
    vstd::seq_lib::to_multiset_len(fields);
}

/// No two fields share a key.
pub open spec fn keys_distinct(fields: Seq<JsonField>) -> bool {
    forall|i: int, j: int|
        0 <= i < j < fields.len() ==> (#[trigger] fields[i]).key != (#[trigger] fields[j]).key
}

/// Sorting fields with distinct keys leaves the keys distinct.
proof fn lemma_sort_keeps_keys_distinct(fields: Seq<JsonField>)
    requires
        keys_distinct(fields),
    ensures
        keys_distinct(sort_fields(fields)),
    decreases fields.len(),
{
    if fields.len() > 0 {
        let rest = fields.drop_last();
        let last = fields.last();
        assert forall|i: int, j: int| 0 <= i < j < rest.len() implies (#[trigger] rest[i]).key != (
        #[trigger] rest[j]).key by {
            assert(rest[i] == fields[i] && rest[j] == fields[j]);
        }
        lemma_sort_keeps_keys_distinct(rest);
        lemma_sort_fields_sorts(rest);
        let sorted = sort_fields(rest);
        let pos = lemma_insert_position(sorted, last);
        let out = sorted.insert(pos, last);
        assert forall|i: int| 0 <= i < sorted.len() implies (#[trigger] sorted[i]).key
            != last.key by {
            vstd::seq_lib::to_multiset_contains(sorted, sorted[i]);
            vstd::seq_lib::to_multiset_contains(rest, sorted[i]);
            assert(sorted.contains(sorted[i]));
            let q = choose|q: int| 0 <= q < rest.len() && rest[q] == sorted[i];
            assert(fields[q].key != fields[fields.len() - 1].key);
        }
        assert forall|i: int, j: int| 0 <= i < j < out.len() implies (#[trigger] out[i]).key != (
        #[trigger] out[j]).key by {
            let a = if i < pos {
                i
            } else {
                i - 1
            };
            let b = if j < pos {
                j
            } else {
                j - 1
            };
            if i != pos && j != pos {
                assert(out[i] == sorted[a] && out[j] == sorted[b]);
                assert(sorted[a].key != sorted[b].key);
            } else if i == pos {
                assert(out[j] == sorted[b]);
            } else {
                assert(out[i] == sorted[a]);
            }
        }
    }
}

/// Fields can be put in ascending order in one way only: two ascending
/// lists of the same fields, their keys distinct, are the same list.
proof fn lemma_sorted_fields_unique(s: Seq<JsonField>, t: Seq<JsonField>)
    requires
        fields_sorted(s),
        fields_sorted(t),
        keys_distinct(s),
        s.to_multiset() == t.to_multiset(),
    ensures
        s == t,
    decreases s.len(),
{
    broadcast use vstd::multiset::group_multiset_axioms;

    vstd::seq_lib::to_multiset_len(s);
    vstd::seq_lib::to_multiset_len(t);
    if s.len() == 0 {
        assert(s =~= t);
    } else {
        let n = s.len() as int;
        let x = s.last();
        let y = t.last();
        vstd::seq_lib::to_multiset_contains(s, x);
        vstd::seq_lib::to_multiset_contains(t, x);
        vstd::seq_lib::to_multiset_contains(s, y);
        vstd::seq_lib::to_multiset_contains(t, y);
        assert(s.contains(x)) by {
            assert(s[n - 1] == x);
        }
        assert(t.contains(y)) by {
            assert(t[n - 1] == y);
        }
        let q = choose|q: int| 0 <= q < s.len() && s[q] == y;
        let p = choose|p: int| 0 <= p < t.len() && t[p] == x;
        if y != x {
            assert(q < n - 1);
            assert(p < n - 1);
            assert(!key_before(s[n - 1].key, s[q].key));
            assert(!key_before(t[n - 1].key, t[p].key));
            lemma_lex_trichotomy(encode_utf8(x.key), encode_utf8(y.key));
            vstd::utf8::encode_utf8_decode_utf8(x.key);
            vstd::utf8::encode_utf8_decode_utf8(y.key);
            assert(s[q].key == s[n - 1].key);
        }
        let s_rest = s.drop_last();
        let t_rest = t.drop_last();
        assert(s_rest.push(x) =~= s);
        assert(t_rest.push(x) =~= t);
        vstd::seq_lib::to_multiset_build(s_rest, x);
        vstd::seq_lib::to_multiset_build(t_rest, x);
        assert(s_rest.to_multiset() =~= t_rest.to_multiset()) by {
            assert forall|v: JsonField|
                s_rest.to_multiset().count(v) == t_rest.to_multiset().count(v) by {
                assert(s_rest.to_multiset().insert(x).count(v) == t_rest.to_multiset().insert(
                    x,
                ).count(v));
            }
        }
        assert forall|i: int, j: int| 0 <= i < j < s_rest.len() implies !key_before(
            (#[trigger] s_rest[j]).key,
            (#[trigger] s_rest[i]).key,
        ) && s_rest[i].key != s_rest[j].key by {
            assert(s_rest[i] == s[i] && s_rest[j] == s[j]);
        }
        assert forall|i: int, j: int| 0 <= i < j < t_rest.len() implies !key_before(
            (#[trigger] t_rest[j]).key,
            (#[trigger] t_rest[i]).key,
        ) by {
            assert(t_rest[i] == t[i] && t_rest[j] == t[j]);
        }
        lemma_sorted_fields_unique(s_rest, t_rest);
    }
}

/// The order of the members of an object does not show in its key.
///
/// Two objects whose members, each value in canonical form, are the same
/// but for their order have the same canonical form, and so the same
/// comparison key. The keys of the members must be distinct, as they are in
/// every object that is read from JSON text.
pub proof fn lemma_member_order_is_immaterial(a: Seq<JsonField>, b: Seq<JsonField>)
    requires
        keys_distinct(a),
        canonical_fields(a).to_multiset() == canonical_fields(b).to_multiset(),
    ensures
        canonical(JsonTerm::Object(a)) == canonical(JsonTerm::Object(b)),
        stable_key(JsonTerm::Object(a)) == stable_key(JsonTerm::Object(b)),
{
    let ca = canonical_fields(a);
    let cb = canonical_fields(b);
    assert forall|i: int, j: int| 0 <= i < j < ca.len() implies (#[trigger] ca[i]).key != (
    #[trigger] ca[j]).key by {
        assert(a[i].key != a[j].key);
    }
    lemma_sort_fields_sorts(ca);
    lemma_sort_fields_sorts(cb);
    lemma_sort_keeps_keys_distinct(ca);
    lemma_sorted_fields_unique(sort_fields(ca), sort_fields(cb));
}

/// `serde_json::to_string` on a string slice: the JSON string literal for
/// `text`, with its quotes and escapes. On a string the call cannot fail.
#[verifier::external_body]
fn quote_json_string(text: &str) -> (quoted: String)
    ensures
        quoted@ == json_quoted(text@),
{
    serde_json::to_string(text).unwrap_or_default()
}

/// Puts `member` into `sorted` behind the last member whose key does not
/// sort after it.
fn insert_member(sorted: &mut Vec<JsonMember>, member: JsonMember)
    ensures
        members_view(final(sorted)@) == insert_field(
            members_view(old(sorted)@),
            JsonField { key: member.key@, value: member.value@ },
        ),
{
    let ghost before = members_view(sorted@);
    let ghost field = JsonField { key: member.key@, value: member.value@ };
    let mut pos: usize = sorted.len();
    while pos > 0 && precedes(member.key.as_str(), sorted[pos - 1].key.as_str())
        invariant
            pos <= sorted.len(),
            before == members_view(sorted@),
            field.key == member.key@,
            forall|j: int| pos <= j < sorted.len() ==> key_before(field.key, #[trigger] before[j].key),
        decreases pos,
    {
        pos -= 1;
    }
    sorted.insert(pos, member);
    proof {
        lemma_insert_field_at(before, field, pos as int);
        assert(members_view(sorted@) =~= before.insert(pos as int, field));
    }
}

impl JsonValue {
    /// The member of an object stored under `key`; `None` for a missing key
    /// and for anything that is not an object. Where a key occurs more than
    /// once the first occurrence counts.
    pub fn get(&self, key: &str) -> (found: Option<&JsonValue>)
        ensures
            match found {
                Some(value) => member_of(self@, key@) == Some(value@),
                None => member_of(self@, key@).is_none(),
            },
    {
        match self {
            JsonValue::Object(members) => {
                let ghost fields = self@->Object_0;
                let mut i: usize = 0;
                while i < members.len()
                    invariant
                        i <= members.len(),
                        *self == JsonValue::Object(*members),
                        fields == self@->Object_0,
                        fields.len() == members.len(),
                        forall|j: int| 0 <= j < i ==> (#[trigger] fields[j]).key != key@,
                    decreases members.len() - i,
                {
                    assert(fields[i as int].key == members[i as int].key@);
                    assert(fields[i as int].value == members[i as int].value@);
                    if same_text(members[i].key.as_str(), key) {
                        proof {
                            lemma_first_field(fields, key@, i as int);
                        }
                        return Some(&members[i].value);
                    }
                    i += 1;
                }
                assert forall|j: int| !is_first_field(fields, key@, j) by {
                    if 0 <= j < fields.len() {
                        assert(fields[j].key != key@);
                    }
                }
                None
            },
            _ => None,
        }
    }

    /// The literal text of a JSON number; `None` for any other kind of
    /// value.
    pub fn as_number(&self) -> (text: Option<&str>)
        ensures
            match text {
                Some(t) => number_of(self@) == Some(t@),
                None => number_of(self@).is_none(),
            },
    {
        match self {
            JsonValue::Number(text) => Some(text.as_str()),
            _ => None,
        }
    }

    /// The text of a JSON string; `None` for any other kind of value.
    pub fn as_str(&self) -> (text: Option<&str>)
        ensures
            match text {
                Some(t) => text_of(self@) == Some(t@),
                None => text_of(self@).is_none(),
            },
    {
        match self {
            JsonValue::String(text) => Some(text.as_str()),
            _ => None,
        }
    }

    /// Appends the compact JSON text of the value to `out`.
    pub fn write_text(&self, out: &mut String)
        ensures
            final(out)@ == old(out)@ + json_text(self@),
        decreases self, 0nat,
    {
        match self {
            JsonValue::Null => out.append("null"),
            JsonValue::Bool(b) => {
                if *b {
                    out.append("true")
                } else {
                    out.append("false")
                }
            },
            JsonValue::Number(text) => out.append(text.as_str()),
            JsonValue::String(text) => {
                let quoted = quote_json_string(text.as_str());
                out.append(quoted.as_str())
            },
            JsonValue::Array(items) => {
                out.append("[");
                write_items(items, out);
                out.append("]");
                proof {
                    assert(self@->Array_0 =~= items_view(items@));
                    assert(out@ =~= old(out)@ + json_text(self@));
                }
            },
            JsonValue::Object(members) => {
                out.append("{");
                write_members(members, out);
                out.append("}");
                proof {
                    assert(self@->Object_0 =~= members_view(members@));
                    assert(out@ =~= old(out)@ + json_text(self@));
                }
            },
        }
    }

    /// The compact JSON text of the value.
    pub fn to_text(&self) -> (text: String)
        ensures
            text@ == json_text(self@),
    {
        let mut text = String::new();
        self.write_text(&mut text);
        assert(text@ =~= json_text(self@));
        text
    }
}

/// Appends the texts of `items`, separated by commas, to `out`.
fn write_items(items: &Vec<JsonValue>, out: &mut String)
    ensures
        final(out)@ == old(out)@ + items_text(items_view(items@), items.len() as nat),
    decreases items, 1nat,
{
    let ghost terms = items_view(items@);
    let mut i: usize = 0;
    assert(out@ =~= old(out)@ + items_text(terms, 0));
    while i < items.len()
        invariant
            i <= items.len(),
            terms == items_view(items@),
            out@ == old(out)@ + items_text(terms, i as nat),
        decreases items.len() - i,
    {
        let ghost so_far = out@;
        if i > 0 {
            out.append(",");
        }
        items[i].write_text(out);
        proof {
            assert(terms[i as int] == items[i as int]@);
            assert(out@ =~= so_far + separator((i + 1) as nat) + json_text(terms[i as int]));
            assert(items_text(terms, (i + 1) as nat) == items_text(terms, i as nat) + separator(
                (i + 1) as nat,
            ) + json_text(terms[i as int]));
            assert(out@ =~= old(out)@ + items_text(terms, (i + 1) as nat));
        }
        i += 1;
    }
}

/// Appends the texts of `members`, each as `"key":value`, separated by
/// commas, to `out`.
fn write_members(members: &Vec<JsonMember>, out: &mut String)
    ensures
        final(out)@ == old(out)@ + fields_text(members_view(members@), members.len() as nat),
    decreases members, 1nat,
{
    let ghost fields = members_view(members@);
    let mut i: usize = 0;
    assert(out@ =~= old(out)@ + fields_text(fields, 0));
    while i < members.len()
        invariant
            i <= members.len(),
            fields == members_view(members@),
            out@ == old(out)@ + fields_text(fields, i as nat),
        decreases members.len() - i,
    {
        let ghost so_far = out@;
        if i > 0 {
            out.append(",");
        }
        let quoted = quote_json_string(members[i].key.as_str());
        out.append(quoted.as_str());
        out.append(":");
        members[i].value.write_text(out);
        proof {
            assert(fields[i as int].key == members[i as int].key@);
            assert(fields[i as int].value == members[i as int].value@);
            let piece = separator((i + 1) as nat) + json_quoted(fields[i as int].key) + ":"@
                + json_text(fields[i as int].value);
            assert(out@ =~= so_far + piece);
            assert(fields_text(fields, (i + 1) as nat) =~= fields_text(fields, i as nat) + piece);
            assert(out@ =~= old(out)@ + fields_text(fields, (i + 1) as nat));
        }
        i += 1;
    }
}


/// A copy of `val` in canonical form: the members of every object sorted by
/// key, recursively; arrays keep their order.
pub fn sort_value(val: &JsonValue) -> (sorted: JsonValue)
    ensures
        sorted@ == canonical(val@),
    decreases val,
{
    match val {
        JsonValue::Array(items) => {
            let ghost terms = val@->Array_0;
            let mut out: Vec<JsonValue> = Vec::new();
            let mut i: usize = 0;
            #[verifier::loop_isolation(false)]
            while i < items.len()
                invariant
                    i <= items.len(),
                    out.len() == i,
                    forall|j: int| 0 <= j < i ==> (#[trigger] out[j])@ == canonical(terms[j]),
                decreases items.len() - i,
            {
                assert(terms[i as int] == items[i as int]@);
                out.push(sort_value(&items[i]));
                i += 1;
            }
            proof {
                lemma_array_view(out, canonical_items(terms));
            }
            JsonValue::Array(out)
        },
        JsonValue::Object(members) => {
            let ghost fields = val@->Object_0;
            let mut out: Vec<JsonMember> = Vec::new();
            let mut i: usize = 0;
            assert(members_view(out@) =~= sort_fields(canonical_fields(fields).take(0)));
            #[verifier::loop_isolation(false)]
            while i < members.len()
                invariant
                    i <= members.len(),
                    members_view(out@) == sort_fields(canonical_fields(fields).take(i as int)),
                decreases members.len() - i,
            {
                let member = JsonMember {
                    key: members[i].key.clone(),
                    value: sort_value(&members[i].value),
                };
                proof {
                    let all = canonical_fields(fields);
                    assert(fields[i as int].key == members[i as int].key@);
                    assert(fields[i as int].value == members[i as int].value@);
                    assert(all.take(i + 1).drop_last() =~= all.take(i as int));
                    assert(all.take(i + 1).last() == JsonField {
                        key: member.key@,
                        value: member.value@,
                    });
                }
                insert_member(&mut out, member);
                i += 1;
            }
            proof {
                let all = canonical_fields(fields);
                assert(all.take(members.len() as int) =~= all);
                lemma_object_view(out, members_view(out@));
            }
            JsonValue::Object(out)
        },
        _ => val.clone(),
    }
}

/// The key under which a response is compared with the responses of other
/// providers. A plain string is its own key; any other value is keyed by the
/// compact text of its canonical form, so two values that differ only in the
/// order of object members get the same key.
///
/// Equal values have equal keys; equal keys do not always mean equal
/// values. Since a string stands for itself, the string `null` and the
/// value `null` share a key, and a number is keyed by whatever text it
/// holds.
pub fn stable_string(val: &JsonValue) -> (key: String)
    ensures
        key@ == stable_key(val@),
{
    match val {
        JsonValue::String(text) => text.clone(),
        _ => {
            let sorted = sort_value(val);
            sorted.to_text()
        },
    }
}

} // verus!
