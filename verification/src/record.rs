//! A document whose keys are a closed set: which documents are one, and how one is
//! written.
//!
//! A document with a key that is not in the set is not one, nor is a document that lacks
//! a required key or holds something else under a key than the key is for.
use vstd::prelude::*;

use crate::json;
use crate::json::{field_at, field_in, Json};
use crate::text;
use crate::text::texts;

verus! {

/// What a key holds.
#[derive(Debug, Clone, Copy, PartialEq, Eq, Structural)]
pub enum Kind {
    /// A string.
    Text,
    /// A whole number that is not negative.
    Count,
    /// A whole number that fits in 32 bits.
    Small,
    /// A list of strings.
    Texts,
    /// A value with rules of its own.
    Any,
}

/// One key of a document.
#[derive(Debug, Clone, Copy)]
pub struct Key {
    /// Its name.
    pub name: &'static str,
    /// What it holds.
    pub kind: Kind,
    /// Whether a document without it is refused.
    pub required: bool,
}

/// A list that holds nothing but strings.
pub open spec fn only_texts(list: Seq<Json>) -> bool {
    forall|i: int| 0 <= i < list.len() ==> #[trigger] list[i] is Text
}

/// A value is what a key of this kind holds.
pub open spec fn fits(kind: Kind, value: Json) -> bool {
    match kind {
        Kind::Text => value is Text,
        Kind::Count => value is Count,
        Kind::Small => value matches Json::Count(n) && n <= u32::MAX,
        Kind::Texts => value matches Json::List(list) && only_texts(list@),
        Kind::Any => true,
    }
}

/// The name is one of the keys'.
pub open spec fn is_key(keys: Seq<Key>, name: Seq<char>) -> bool {
    exists|i: int| 0 <= i < keys.len() && #[trigger] keys[i].name@ == name
}

/// A document every key of which is one of the keys'.
pub open spec fn keyed(keys: Seq<Key>, fields: Seq<(String, Json)>) -> bool {
    forall|i: int| 0 <= i < fields.len() ==> is_key(keys, (#[trigger] fields[i]).0@)
}

/// One key of a document holds what it is for, or is absent and may be.
pub open spec fn key_holds(key: Key, fields: Seq<(String, Json)>) -> bool {
    match field_in(fields, key.name@) {
        None => !key.required,
        Some(value) => fits(key.kind, value),
    }
}

/// A document of a closed set of keys: a mapping that has no other key, and whose keys
/// each hold what they are for.
pub open spec fn is_record(keys: Seq<Key>, document: Json) -> bool {
    document matches Json::Object(fields) && keyed(keys, fields@) && forall|i: int|
        0 <= i < keys.len() ==> key_holds(#[trigger] keys[i], fields@)
}

fn known(keys: &Vec<Key>, name: &str) -> (r: bool)
    ensures
        r == is_key(keys@, name@),
{
    let mut i: usize = 0;
    while i < keys.len()
        invariant
            i <= keys@.len(),
            forall|j: int| 0 <= j < i ==> #[trigger] keys@[j].name@ != name@,
        decreases keys@.len() - i,
    {
        if text::same(keys[i].name, name) {
            assert(keys@[i as int].name@ == name@);
            return true;
        }
        i += 1;
    }
    false
}

fn fit(kind: Kind, value: &Json) -> (r: bool)
    ensures
        r == fits(kind, *value),
{
    match kind {
        Kind::Text => match value {
            Json::Text(_) => true,
            _ => false,
        },
        Kind::Count => match value {
            Json::Count(_) => true,
            _ => false,
        },
        Kind::Small => match value {
            Json::Count(n) => *n <= u32::MAX as u64,
            _ => false,
        },
        Kind::Texts => match value {
            Json::List(list) => all_text(list),
            _ => false,
        },
        Kind::Any => true,
    }
}

fn all_text(list: &Vec<Json>) -> (r: bool)
    ensures
        r == only_texts(list@),
{
    let mut i: usize = 0;
    while i < list.len()
        invariant
            i <= list@.len(),
            forall|j: int| 0 <= j < i ==> #[trigger] list@[j] is Text,
        decreases list@.len() - i,
    {
        let held: bool = match &list[i] {
            Json::Text(_) => true,
            _ => false,
        };
        if !held {
            assert(!(list@[i as int] is Text));
            return false;
        }
        i += 1;
    }
    true
}

/// Hold a document to its keys: its fields, or nothing where it is not one.
#[verifier::loop_isolation(false)]
pub fn check<'a>(keys: &Vec<Key>, document: &'a Json) -> (r: Option<&'a Vec<(String, Json)>>)
    ensures
        match r {
            Some(fields) => is_record(keys@, *document) && *document == Json::Object(*fields),
            None => !is_record(keys@, *document),
        },
{
    let fields: &Vec<(String, Json)> = match document {
        Json::Object(fields) => fields,
        _ => {
            return None;
        },
    };
    let mut i: usize = 0;
    while i < fields.len()
        invariant
            i <= fields@.len(),
            forall|j: int| 0 <= j < i ==> is_key(keys@, (#[trigger] fields@[j]).0@),
        decreases fields@.len() - i,
    {
        if !known(keys, fields[i].0.as_str()) {
            assert(!is_key(keys@, fields@[i as int].0@));
            return None;
        }
        i += 1;
    }
    let mut k: usize = 0;
    while k < keys.len()
        invariant
            k <= keys@.len(),
            forall|j: int| 0 <= j < k ==> key_holds(#[trigger] keys@[j], fields@),
        decreases keys@.len() - k,
    {
        let key: Key = keys[k];
        let holds: bool = match json::field(fields, key.name) {
            None => !key.required,
            Some(value) => fit(key.kind, value),
        };
        if !holds {
            assert(!key_holds(keys@[k as int], fields@));
            return None;
        }
        k += 1;
    }
    Some(fields)
}

/// The text a key holds, empty where it is absent.
pub open spec fn text_or_empty(fields: Seq<(String, Json)>, name: Seq<char>) -> Seq<char> {
    match json::text_in(field_in(fields, name)) {
        Some(text) => text,
        None => Seq::empty(),
    }
}

/// The text a key holds, empty where it is absent.
pub fn read_text(fields: &Vec<(String, Json)>, name: &str) -> (r: String)
    ensures
        r@ == text_or_empty(fields@, name@),
{
    match json::text_field(fields, name) {
        Some(text) => text.clone(),
        None => String::new(),
    }
}

/// The count a key holds, zero where it is absent.
pub open spec fn count_or_zero(fields: Seq<(String, Json)>, name: Seq<char>) -> u64 {
    match json::count_in(field_in(fields, name)) {
        Some(n) => n,
        None => 0,
    }
}

/// The count a key holds, zero where it is absent.
pub fn read_count(fields: &Vec<(String, Json)>, name: &str) -> (r: u64)
    ensures
        r == count_or_zero(fields@, name@),
{
    match json::count_field(fields, name) {
        Some(n) => n,
        None => 0,
    }
}

/// The strings of a list, in order.
pub open spec fn strings_of(list: Seq<Json>) -> Seq<Seq<char>> {
    list.map_values(|v: Json| v->Text_0@)
}

/// The strings a key holds, none where it is absent.
pub open spec fn texts_or_none(fields: Seq<(String, Json)>, name: Seq<char>) -> Seq<Seq<char>> {
    match field_in(fields, name) {
        Some(Json::List(list)) => strings_of(list@),
        _ => Seq::empty(),
    }
}

/// The strings a key holds, none where it is absent.
#[verifier::loop_isolation(false)]
pub fn read_texts(fields: &Vec<(String, Json)>, name: &str) -> (r: Vec<String>)
    requires
        match field_in(fields@, name@) {
            Some(value) => fits(Kind::Texts, value),
            None => true,
        },
    ensures
        texts(r@) == texts_or_none(fields@, name@),
{
    let mut out: Vec<String> = Vec::new();
    match json::field(fields, name) {
        Some(Json::List(list)) => {
            let mut i: usize = 0;
            while i < list.len()
                invariant
                    i <= list@.len(),
                    texts(out@) == strings_of(list@).take(i as int),
                decreases list@.len() - i,
            {
                assert(list@[i as int] is Text);
                if let Json::Text(text) = &list[i] {
                    let ghost was = texts(out@);
                    out.push(text.clone());
                    assert(texts(out@) =~= was.push(text@));
                }
                i += 1;
                assert(texts(out@) =~= strings_of(list@).take(i as int));
            }
            assert(texts(out@) =~= strings_of(list@));
        },
        _ => {
            assert(texts(out@) =~= Seq::empty());
        },
    }
    out
}

/// What a document gains by one more key.
pub open spec fn gained(
    before: Seq<(String, Json)>,
    after: Seq<(String, Json)>,
    name: Seq<char>,
    value: Json,
) -> bool {
    forall|m: Seq<char>| #[trigger]
        field_in(after, m) == (if field_in(before, m) is Some {
            field_in(before, m)
        } else if m == name {
            Some(value)
        } else {
            None
        })
}

proof fn lemma_gained_at(
    fields: Seq<(String, Json)>,
    added: (String, Json),
    m: Seq<char>,
    from: int,
)
    requires
        0 <= from <= fields.len(),
    ensures
        field_at(fields.push(added), m, from) == (if field_at(fields, m, from) is Some {
            field_at(fields, m, from)
        } else if added.0@ == m {
            Some(fields.len() as int)
        } else {
            None
        }),
        field_at(fields, m, from) is Some ==> from <= field_at(fields, m, from)->0 < fields.len(),
    decreases fields.len() - from,
{
    let more = fields.push(added);
    if from < fields.len() {
        assert(more[from] == fields[from]);
        if fields[from].0@ != m {
            lemma_gained_at(fields, added, m, from + 1);
        }
    } else {
        assert(more[from] == added);
        assert(field_at(more, m, from + 1) is None);
    }
}

/// The names of a document's keys, in order.
pub open spec fn names(fields: Seq<(String, Json)>) -> Seq<Seq<char>> {
    fields.map_values(|f: (String, Json)| f.0@)
}

/// Write one more key.
pub fn put(fields: &mut Vec<(String, Json)>, name: &str, value: Json)
    ensures
        names(final(fields)@) == names(old(fields)@).push(name@),
        final(fields)@.len() == old(fields)@.len() + 1,
        forall|i: int| 0 <= i < old(fields)@.len() ==> #[trigger] final(fields)@[i] == old(fields)@[i],
        final(fields)@[old(fields)@.len() as int].0@ == name@,
        gained(old(fields)@, final(fields)@, name@, value),
{
    let ghost before = fields@;
    let owned: String = name.to_owned();
    let ghost added = (owned, value);
    fields.push((owned, value));
    proof {
        assert(fields@ == before.push(added));
        assert(names(fields@) =~= names(before).push(name@));
        assert forall|m: Seq<char>| #[trigger]
            field_in(fields@, m) == (if field_in(before, m) is Some {
                field_in(before, m)
            } else if m == name@ {
                Some(value)
            } else {
                None
            }) by {
            lemma_gained_at(before, added, m, 0);
            if field_at(before, m, 0) is Some {
                assert(fields@[field_at(before, m, 0)->0] == before[field_at(before, m, 0)->0]);
            }
        }
    }
}

/// A list of strings as it is written.
pub fn write_texts(list: &Vec<String>) -> (r: Json)
    ensures
        r matches Json::List(written) && only_texts(written@) && strings_of(written@) == texts(
            list@,
        ),
{
    let mut out: Vec<Json> = Vec::new();
    let mut i: usize = 0;
    while i < list.len()
        invariant
            i <= list@.len(),
            out@.len() == i,
            forall|j: int|
                0 <= j < i ==> (#[trigger] out@[j]) is Text && out@[j]->Text_0@ == list@[j]@,
        decreases list@.len() - i,
    {
        out.push(Json::Text(list[i].clone()));
        i += 1;
    }
    assert(strings_of(out@) =~= texts(list@));
    Json::List(out)
}

/// Write one more of a document's keys.
pub(crate) fn put_key(
    fields: &mut Vec<(String, Json)>,
    Ghost(keys): Ghost<Seq<Key>>,
    Ghost(k): Ghost<int>,
    name: &str,
    value: Json,
)
    requires
        0 <= k < keys.len(),
        keys[k].name@ == name@,
        keyed(keys, old(fields)@),
    ensures
        keyed(keys, final(fields)@),
        gained(old(fields)@, final(fields)@, name@, value),
{
    put(fields, name, value);
    proof {
        assert(is_key(keys, name@));
        assert forall|i: int| 0 <= i < fields@.len() implies is_key(
            keys,
            (#[trigger] fields@[i]).0@,
        ) by {
            if i < old(fields)@.len() {
                assert(fields@[i] == old(fields)@[i]);
            }
        }
    }
}

/// The names of the keys are told apart.
pub open spec fn distinct(keys: Seq<Key>) -> bool {
    forall|i: int, j: int|
        0 <= i < keys.len() && 0 <= j < keys.len() && i != j ==> (#[trigger] keys[i]).name@ != (
        #[trigger] keys[j]).name@
}

/// The first `n` keys hold what is wanted of them, and the rest are absent.
pub open spec fn written(
    keys: Seq<Key>,
    fields: Seq<(String, Json)>,
    n: int,
    want: spec_fn(int, Option<Json>) -> bool,
) -> bool {
    &&& forall|k: int|
        0 <= k < n && k < keys.len() ==> want(k, field_in(fields, (#[trigger] keys[k]).name@))
    &&& forall|k: int|
        n <= k < keys.len() ==> field_in(fields, (#[trigger] keys[k]).name@) is None
}

/// Write the next of a document's keys, or leave it out.
pub(crate) fn put_next(
    fields: &mut Vec<(String, Json)>,
    Ghost(keys): Ghost<Seq<Key>>,
    Ghost(k): Ghost<int>,
    Ghost(want): Ghost<spec_fn(int, Option<Json>) -> bool>,
    name: &str,
    value: Option<Json>,
)
    requires
        distinct(keys),
        0 <= k < keys.len(),
        keys[k].name@ == name@,
        keyed(keys, old(fields)@),
        written(keys, old(fields)@, k, want),
        want(k, value),
    ensures
        keyed(keys, final(fields)@),
        written(keys, final(fields)@, k + 1, want),
{
    if let Some(value) = value {
        let ghost before = fields@;
        put_key(fields, Ghost(keys), Ghost(k), name, value);
        proof {
            assert forall|j: int| 0 <= j < keys.len() && j != k implies field_in(
                fields@,
                (#[trigger] keys[j]).name@,
            ) == field_in(before, keys[j].name@) by {
                assert(keys[j].name@ != keys[k].name@);
            }
            assert(field_in(fields@, keys[k].name@) == Some(value));
        }
    }
}

/// Which documents are records of a set of keys: mappings whose every name is one of the
/// keys', that hold every required key, and under each key what it is for.
pub proof fn law_which_documents_are_records(keys: Seq<Key>, document: Json)
    ensures
        is_record(keys, document) <==> document is Object && {
            let fields = document->Object_0@;
            &&& forall|i: int|
                0 <= i < fields.len() ==> exists|k: int|
                    0 <= k < keys.len() && #[trigger] keys[k].name@ == (#[trigger] fields[i]).0@
            &&& forall|k: int|
                0 <= k < keys.len() ==> match field_in(fields, (#[trigger] keys[k]).name@) {
                    None => !keys[k].required,
                    Some(value) => match keys[k].kind {
                        Kind::Text => value is Text,
                        Kind::Count => value is Count,
                        Kind::Small => value is Count && value->Count_0 <= 0xffff_ffff,
                        Kind::Texts => value is List && forall|i: int|
                            0 <= i < value->List_0@.len() ==> #[trigger] value->List_0@[i] is Text,
                        Kind::Any => true,
                    },
                }
        },
{
    if document is Object {
        let fields = document->Object_0@;
        assert forall|i: int| 0 <= i < fields.len() implies (is_key(keys, (#[trigger] fields[i]).0@)
            <==> exists|k: int| 0 <= k < keys.len() && #[trigger] keys[k].name@ == fields[i].0@) by {}
    }
}

/// A key that is absent reads as nothing: no text, no count, no strings; and one that is
/// there reads as what it holds.
pub proof fn law_an_absent_key_reads_as_nothing(fields: Seq<(String, Json)>, name: Seq<char>)
    ensures
        field_in(fields, name) is None ==> text_or_empty(fields, name).len() == 0 && count_or_zero(
            fields,
            name,
        ) == 0 && texts_or_none(fields, name).len() == 0,
        field_in(fields, name) matches Some(Json::Text(s)) ==> text_or_empty(fields, name) == s@,
        field_in(fields, name) matches Some(Json::Count(n)) ==> count_or_zero(fields, name) == n,
        field_in(fields, name) matches Some(Json::List(list)) ==> texts_or_none(fields, name).len()
            == list@.len() && forall|i: int|
            0 <= i < list@.len() ==> #[trigger] texts_or_none(fields, name)[i]
                == list@[i]->Text_0@,
{
}

} // verus!
