//! A JSON value, as payloads, configurations and records carry one.
use vstd::prelude::*;

use crate::text;

verus! {

/// A JSON value. Numbers that are not whole are kept as they were written.
#[derive(Debug, PartialEq, Eq)]
pub enum Json {
    /// `null`.
    Null,
    /// `true` or `false`.
    Bool(bool),
    /// A whole number that is not negative.
    Count(u64),
    /// A whole number that is negative.
    Debt(i64),
    /// Any other number, as it was written.
    Number(String),
    /// A string.
    Text(String),
    /// An array.
    List(Vec<Json>),
    /// An object: its fields in order, each name once.
    Object(Vec<(String, Json)>),
}

/// The first position of a name among an object's fields.
pub open spec fn field_at(fields: Seq<(String, Json)>, name: Seq<char>, from: int) -> Option<int>
    decreases fields.len() - from,
{
    if from < 0 || from >= fields.len() {
        None
    } else if fields[from].0@ == name {
        Some(from)
    } else {
        field_at(fields, name, from + 1)
    }
}

/// The value of a field among an object's fields.
pub open spec fn field_in(fields: Seq<(String, Json)>, name: Seq<char>) -> Option<Json> {
    match field_at(fields, name, 0) {
        Some(i) => Some(fields[i].1),
        None => None,
    }
}

/// The characters of a string value.
pub open spec fn text_in(value: Option<Json>) -> Option<Seq<char>> {
    match value {
        Some(Json::Text(s)) => Some(s@),
        _ => None,
    }
}

/// The value of a field among an object's fields.
pub fn field<'a>(fields: &'a Vec<(String, Json)>, name: &str) -> (r: Option<&'a Json>)
    ensures
        match r {
            Some(value) => field_in(fields@, name@) == Some(*value),
            None => field_in(fields@, name@) is None,
        },
{
    let mut i: usize = 0;
    while i < fields.len()
        invariant
            i <= fields@.len(),
            field_at(fields@, name@, 0) == field_at(fields@, name@, i as int),
        decreases fields@.len() - i,
    {
        if text::same(fields[i].0.as_str(), name) {
            return Some(&fields[i].1);
        }
        i += 1;
    }
    None
}

/// A string field among an object's fields.
pub fn text_field<'a>(fields: &'a Vec<(String, Json)>, name: &str) -> (r: Option<&'a String>)
    ensures
        match r {
            Some(value) => text_in(field_in(fields@, name@)) == Some(value@),
            None => text_in(field_in(fields@, name@)) is None,
        },
{
    match field(fields, name) {
        Some(Json::Text(value)) => Some(value),
        _ => None,
    }
}

/// The whole number of a value.
pub open spec fn count_in(value: Option<Json>) -> Option<u64> {
    match value {
        Some(Json::Count(n)) => Some(n),
        _ => None,
    }
}

/// A whole-number field among an object's fields.
pub fn count_field(fields: &Vec<(String, Json)>, name: &str) -> (r: Option<u64>)
    ensures
        r == count_in(field_in(fields@, name@)),
{
    match field(fields, name) {
        Some(Json::Count(n)) => Some(*n),
        _ => None,
    }
}

/// A yes-or-no field among an object's fields; absent reads as no.
pub open spec fn flag_in(value: Option<Json>) -> bool {
    value == Some(Json::Bool(true))
}

/// A yes-or-no field among an object's fields; absent reads as no.
pub fn flag_field(fields: &Vec<(String, Json)>, name: &str) -> (r: bool)
    ensures
        r == flag_in(field_in(fields@, name@)),
{
    match field(fields, name) {
        Some(Json::Bool(b)) => *b,
        _ => false,
    }
}

/// The fields of an object that holds nothing but strings, by name and value, in
/// order.
pub open spec fn all_texts(fields: Seq<(String, Json)>, pairs: Seq<(Seq<char>, Seq<char>)>) -> bool {
    &&& fields.len() == pairs.len()
    &&& forall|i: int|
        0 <= i < fields.len() ==> (#[trigger] fields[i]).0@ == pairs[i].0 && fields[i].1 is Text
            && fields[i].1->Text_0@ == pairs[i].1
}

/// Append a string field.
pub fn push_text(fields: &mut Vec<(String, Json)>, name: &str, value: &str)
    ensures
        final(fields)@.len() == old(fields)@.len() + 1,
        final(fields)@.drop_last() == old(fields)@,
        final(fields)@.last().0@ == name@,
        final(fields)@.last().1 is Text,
        final(fields)@.last().1->Text_0@ == value@,
        forall|pairs: Seq<(Seq<char>, Seq<char>)>| #[trigger]
            all_texts(old(fields)@, pairs) ==> all_texts(
                final(fields)@,
                pairs.push((name@, value@)),
            ),
{
    fields.push((name.to_owned(), Json::Text(value.to_owned())));
    assert(fields@.drop_last() =~= old(fields)@);
    assert forall|pairs: Seq<(Seq<char>, Seq<char>)>| #[trigger]
        all_texts(old(fields)@, pairs) implies all_texts(fields@, pairs.push((name@, value@))) by {
        let more = pairs.push((name@, value@));
        assert forall|i: int| 0 <= i < fields@.len() implies (#[trigger] fields@[i]).0@ == more[i].0
            && fields@[i].1 is Text && fields@[i].1->Text_0@ == more[i].1 by {
            if i < pairs.len() {
                assert(fields@[i] == old(fields)@[i]);
            }
        }
    }
}

/// What `serde_json` writes a string as: the string in quotes, escaped.
pub uninterp spec fn quoted(text: Seq<char>) -> Seq<char>;

/// `serde_json::to_string` of a string, which never fails.
#[verifier::external_body]
fn quote(text: &str) -> (r: String)
    ensures
        r@ == quoted(text@),
{
    serde_json::to_string(text).unwrap_or_default()
}

/// A value as compact JSON writes it.
pub open spec fn rendered(value: Json) -> Seq<char>
    decreases value, 0nat,
{
    match value {
        Json::Null => "null"@,
        Json::Bool(b) => if b {
            "true"@
        } else {
            "false"@
        },
        Json::Count(n) => text::dec(n as nat),
        Json::Debt(n) => text::dec_int(n as int),
        Json::Number(written) => written@,
        Json::Text(s) => quoted(s@),
        Json::List(list) => "["@ + rendered_list(list@, list@.len()) + "]"@,
        Json::Object(fields) => "{"@ + rendered_fields(fields@, fields@.len()) + "}"@,
    }
}

/// The first `n` values of an array, with commas between them.
pub open spec fn rendered_list(list: Seq<Json>, n: nat) -> Seq<char>
    decreases list, n,
{
    if n == 0 || n > list.len() {
        Seq::empty()
    } else {
        rendered_list(list, (n - 1) as nat) + (if n > 1 {
            ","@
        } else {
            ""@
        }) + rendered(list[n - 1])
    }
}

/// The first `n` fields of an object, with commas between them.
pub open spec fn rendered_fields(fields: Seq<(String, Json)>, n: nat) -> Seq<char>
    decreases fields, n,
{
    if n == 0 || n > fields.len() {
        Seq::empty()
    } else {
        rendered_fields(fields, (n - 1) as nat) + (if n > 1 {
            ","@
        } else {
            ""@
        }) + quoted(fields[n - 1].0@) + ":"@ + rendered(fields[n - 1].1)
    }
}

/// A value as compact JSON writes it.
pub fn render(value: &Json) -> (r: String)
    ensures
        r@ == rendered(*value),
    decreases value,
{
    match value {
        Json::Null => "null".to_owned(),
        Json::Bool(b) => if *b {
            "true".to_owned()
        } else {
            "false".to_owned()
        },
        Json::Count(n) => text::dec_text(*n),
        Json::Debt(n) => text::dec_int_text(*n),
        Json::Number(written) => written.clone(),
        Json::Text(s) => quote(s.as_str()),
        Json::List(list) => {
            let mut out: String = String::from_str("[");
            let mut i: usize = 0;
            assert(out@ =~= "["@ + rendered_list(list@, 0));
            while i < list.len()
                invariant
                    *value == Json::List(*list),
                    i <= list@.len(),
                    out@ == "["@ + rendered_list(list@, i as nat),
                decreases list@.len() - i,
            {
                if i > 0 {
                    out.append(",");
                } else {
                    out.append("");
                }
                assert(decreases_to!(value => value->List_0));
                assert(decreases_to!(value => list@));
                assert(decreases_to!(list@ => list@[i as int]));
                let one = render(&list[i]);
                out.append(one.as_str());
                i += 1;
                assert(out@ =~= "["@ + rendered_list(list@, i as nat));
            }
            out.append("]");
            out
        },
        Json::Object(fields) => {
            let mut out: String = String::from_str("{");
            let mut i: usize = 0;
            assert(out@ =~= "{"@ + rendered_fields(fields@, 0));
            while i < fields.len()
                invariant
                    *value == Json::Object(*fields),
                    i <= fields@.len(),
                    out@ == "{"@ + rendered_fields(fields@, i as nat),
                decreases fields@.len() - i,
            {
                if i > 0 {
                    out.append(",");
                } else {
                    out.append("");
                }
                let name = quote(fields[i].0.as_str());
                out.append(name.as_str());
                out.append(":");
                assert(decreases_to!(value => value->Object_0));
                assert(decreases_to!(value => fields@));
                assert(decreases_to!(fields@ => fields@[i as int]));
                assert(decreases_to!(fields@[i as int] => fields@[i as int].1));
                let one = render(&fields[i].1);
                out.append(one.as_str());
                i += 1;
                assert(out@ =~= "{"@ + rendered_fields(fields@, i as nat));
            }
            out.append("}");
            out
        },
    }
}

/// A JSON value, as contracts speak of one that is copied.
pub enum JsonModel {
    Null,
    Bool(bool),
    Count(u64),
    Debt(i64),
    Number(Seq<char>),
    Text(Seq<char>),
    List(Seq<JsonModel>),
    Object(Seq<(Seq<char>, JsonModel)>),
}

/// What a value holds.
pub open spec fn modelled(value: Json) -> JsonModel
    decreases value, 0nat,
{
    match value {
        Json::Null => JsonModel::Null,
        Json::Bool(b) => JsonModel::Bool(b),
        Json::Count(n) => JsonModel::Count(n),
        Json::Debt(n) => JsonModel::Debt(n),
        Json::Number(written) => JsonModel::Number(written@),
        Json::Text(s) => JsonModel::Text(s@),
        Json::List(list) => JsonModel::List(modelled_list(list@, list@.len())),
        Json::Object(fields) => JsonModel::Object(modelled_fields(fields@, fields@.len())),
    }
}

/// What the first `n` values of an array hold.
pub open spec fn modelled_list(list: Seq<Json>, n: nat) -> Seq<JsonModel>
    decreases list, n,
{
    if n == 0 || n > list.len() {
        Seq::empty()
    } else {
        modelled_list(list, (n - 1) as nat).push(modelled(list[n - 1]))
    }
}

/// What the first `n` fields of an object hold.
pub open spec fn modelled_fields(fields: Seq<(String, Json)>, n: nat) -> Seq<
    (Seq<char>, JsonModel),
>
    decreases fields, n,
{
    if n == 0 || n > fields.len() {
        Seq::empty()
    } else {
        modelled_fields(fields, (n - 1) as nat).push((fields[n - 1].0@, modelled(fields[n - 1].1)))
    }
}

impl View for Json {
    type V = JsonModel;

    open spec fn view(&self) -> JsonModel {
        modelled(*self)
    }
}

proof fn lemma_list_grows(list: Seq<Json>, one: Json, n: nat)
    requires
        n <= list.len(),
    ensures
        modelled_list(list.push(one), n) == modelled_list(list, n),
    decreases n,
{
    if n > 0 {
        lemma_list_grows(list, one, (n - 1) as nat);
        assert(list.push(one)[n - 1] == list[n - 1]);
    }
}

proof fn lemma_fields_grow(fields: Seq<(String, Json)>, one: (String, Json), n: nat)
    requires
        n <= fields.len(),
    ensures
        modelled_fields(fields.push(one), n) == modelled_fields(fields, n),
    decreases n,
{
    if n > 0 {
        lemma_fields_grow(fields, one, (n - 1) as nat);
        assert(fields.push(one)[n - 1] == fields[n - 1]);
    }
}

/// A copy of a value, holding what it holds.
pub fn copy(value: &Json) -> (r: Json)
    ensures
        r@ == value@,
    decreases value,
{
    match value {
        Json::Null => Json::Null,
        Json::Bool(b) => Json::Bool(*b),
        Json::Count(n) => Json::Count(*n),
        Json::Debt(n) => Json::Debt(*n),
        Json::Number(written) => Json::Number(written.clone()),
        Json::Text(s) => Json::Text(s.clone()),
        Json::List(list) => {
            let mut out: Vec<Json> = Vec::new();
            let mut i: usize = 0;
            while i < list.len()
                invariant
                    *value == Json::List(*list),
                    i <= list@.len(),
                    out@.len() == i,
                    modelled_list(out@, i as nat) == modelled_list(list@, i as nat),
                decreases list@.len() - i,
            {
                assert(decreases_to!(value => value->List_0));
                assert(decreases_to!(value => list@));
                assert(decreases_to!(list@ => list@[i as int]));
                let one = copy(&list[i]);
                proof {
                    lemma_list_grows(out@, one, i as nat);
                }
                out.push(one);
                i += 1;
            }
            Json::List(out)
        },
        Json::Object(fields) => {
            let mut out: Vec<(String, Json)> = Vec::new();
            let mut i: usize = 0;
            while i < fields.len()
                invariant
                    *value == Json::Object(*fields),
                    i <= fields@.len(),
                    out@.len() == i,
                    modelled_fields(out@, i as nat) == modelled_fields(fields@, i as nat),
                decreases fields@.len() - i,
            {
                assert(decreases_to!(value => value->Object_0));
                assert(decreases_to!(value => fields@));
                assert(decreases_to!(fields@ => fields@[i as int]));
                assert(decreases_to!(fields@[i as int] => fields@[i as int].1));
                let one = (fields[i].0.clone(), copy(&fields[i].1));
                proof {
                    lemma_fields_grow(out@, one, i as nat);
                }
                out.push(one);
                i += 1;
            }
            Json::Object(out)
        },
    }
}

/// Named values, as contracts speak of them.
pub open spec fn values_of(list: Seq<(String, Json)>) -> Seq<(Seq<char>, JsonModel)> {
    list.map_values(|p: (String, Json)| (p.0@, p.1@))
}

/// A copy of a list of named values.
pub fn copy_values(list: &Vec<(String, Json)>) -> (r: Vec<(String, Json)>)
    ensures
        values_of(r@) == values_of(list@),
{
    let mut out: Vec<(String, Json)> = Vec::new();
    let mut i: usize = 0;
    while i < list.len()
        invariant
            i <= list@.len(),
            values_of(out@) == values_of(list@).take(i as int),
        decreases list@.len() - i,
    {
        let ghost was = values_of(out@);
        let one = (list[i].0.clone(), copy(&list[i].1));
        let ghost held = (one.0@, one.1@);
        out.push(one);
        i += 1;
        assert(values_of(out@) =~= was.push(held));
        assert(values_of(out@) =~= values_of(list@).take(i as int));
    }
    assert(values_of(out@) =~= values_of(list@));
    out
}

proof fn lemma_field_at(fields: Seq<(String, Json)>, name: Seq<char>, from: int)
    requires
        0 <= from <= fields.len(),
    ensures
        match field_at(fields, name, from) {
            Some(at) => from <= at < fields.len() && fields[at].0@ == name && forall|j: int|
                from <= j < at ==> (#[trigger] fields[j]).0@ != name,
            None => forall|j: int| from <= j < fields.len() ==> (#[trigger] fields[j]).0@ != name,
        },
    decreases fields.len() - from,
{
    if from < fields.len() && fields[from].0@ != name {
        lemma_field_at(fields, name, from + 1);
    }
}

/// A field holds the value of the first entry of its name, and an object without such an
/// entry does not hold it. A value is read only as what it is: a string as text, a whole
/// number as a count, and nothing but `true` as yes.
pub proof fn law_a_field_is_the_first_of_its_name(fields: Seq<(String, Json)>, name: Seq<char>)
    ensures
        forall|i: int|
            0 <= i < fields.len() && fields[i].0@ == name && (forall|j: int|
                0 <= j < i ==> (#[trigger] fields[j]).0@ != name) ==> field_in(fields, name) == Some(
                (#[trigger] fields[i]).1,
            ),
        field_in(fields, name) is None <==> forall|j: int|
            0 <= j < fields.len() ==> (#[trigger] fields[j]).0@ != name,
{
    lemma_field_at(fields, name, 0);
    let at = field_at(fields, name, 0);
    assert forall|i: int|
        0 <= i < fields.len() && fields[i].0@ == name && (forall|j: int|
            0 <= j < i ==> (#[trigger] fields[j]).0@ != name) implies field_in(fields, name)
        == Some((#[trigger] fields[i]).1) by {
        if at is Some && at->0 < i {
            assert(fields[at->0].0@ != name);
        }
    }
}

/// A value is read only as what it is: a string as text, a whole number as a count, and
/// nothing but `true` as yes.
pub proof fn law_a_value_is_read_as_what_it_is(value: Option<Json>)
    ensures
        text_in(value) is Some <==> value is Some && value->0 is Text,
        value matches Some(Json::Text(s)) ==> text_in(value) == Some(s@),
        count_in(value) is Some <==> value is Some && value->0 is Count,
        value matches Some(Json::Count(n)) ==> count_in(value) == Some(n),
        flag_in(value) <==> value == Some(Json::Bool(true)),
{
}

proof fn lemma_rendered_list(list: Seq<Json>, n: nat)
    requires
        n <= list.len(),
    ensures
        rendered_list(list, n) == text::join(
            list.take(n as int).map_values(|v: Json| rendered(v)),
            ","@,
        ),
    decreases n,
{
    reveal_strlit("");
    let parts = list.take(n as int).map_values(|v: Json| rendered(v));
    if n > 0 {
        lemma_rendered_list(list, (n - 1) as nat);
        let before = list.take(n - 1).map_values(|v: Json| rendered(v));
        assert(parts.drop_last() =~= before);
        assert(parts.last() == rendered(list[n - 1]));
        if n == 1 {
            assert(before.len() == 0);
            assert(rendered_list(list, n) =~= rendered(list[0]));
            assert(parts[0] == rendered(list[0]));
        }
    } else {
        assert(rendered_list(list, n) =~= text::join(parts, ","@));
    }
}

proof fn lemma_rendered_fields(fields: Seq<(String, Json)>, n: nat)
    requires
        n <= fields.len(),
    ensures
        rendered_fields(fields, n) == text::join(
            fields.take(n as int).map_values(
                |f: (String, Json)| quoted(f.0@) + ":"@ + rendered(f.1),
            ),
            ","@,
        ),
    decreases n,
{
    reveal_strlit("");
    let each = |f: (String, Json)| quoted(f.0@) + ":"@ + rendered(f.1);
    let parts = fields.take(n as int).map_values(each);
    if n > 0 {
        lemma_rendered_fields(fields, (n - 1) as nat);
        let before = fields.take(n - 1).map_values(each);
        let last = quoted(fields[n - 1].0@) + ":"@ + rendered(fields[n - 1].1);
        assert(parts.drop_last() =~= before);
        assert(parts.last() == last);
        let sep = if n > 1 { ","@ } else { ""@ };
        assert(rendered_fields(fields, n) =~= rendered_fields(fields, (n - 1) as nat) + sep + last);
        if n == 1 {
            assert(before.len() == 0);
            assert(rendered_fields(fields, n) =~= last);
            assert(parts[0] == last);
        } else {
            assert(text::join(parts, ","@) == text::join(before, ","@) + ","@ + last);
        }
    } else {
        assert(rendered_fields(fields, n) =~= text::join(parts, ","@));
    }
}

/// Compact JSON puts nothing between its marks: a list is its values between brackets,
/// with a comma between every two, and an object its fields between braces, each its
/// quoted name, a colon and its value.
pub proof fn law_a_value_is_written_compactly(list: Vec<Json>, fields: Vec<(String, Json)>)
    ensures
        rendered(Json::List(list)) == "["@ + text::join(
            list@.map_values(|v: Json| rendered(v)),
            ","@,
        ) + "]"@,
        rendered(Json::Object(fields)) == "{"@ + text::join(
            fields@.map_values(|f: (String, Json)| quoted(f.0@) + ":"@ + rendered(f.1)),
            ","@,
        ) + "}"@,
        rendered(Json::Null) == "null"@,
        rendered(Json::Bool(true)) == "true"@,
        rendered(Json::Bool(false)) == "false"@,
{
    lemma_rendered_list(list@, list@.len());
    lemma_rendered_fields(fields@, fields@.len());
    assert(list@.take(list@.len() as int) =~= list@);
    assert(fields@.take(fields@.len() as int) =~= fields@);
}

proof fn lemma_modelled_list(list: Seq<Json>, n: nat)
    requires
        n <= list.len(),
    ensures
        modelled_list(list, n) == list.take(n as int).map_values(|v: Json| modelled(v)),
    decreases n,
{
    if n > 0 {
        lemma_modelled_list(list, (n - 1) as nat);
    }
    assert(modelled_list(list, n) =~= list.take(n as int).map_values(|v: Json| modelled(v)));
}

proof fn lemma_modelled_fields(fields: Seq<(String, Json)>, n: nat)
    requires
        n <= fields.len(),
    ensures
        modelled_fields(fields, n) == fields.take(n as int).map_values(
            |f: (String, Json)| (f.0@, modelled(f.1)),
        ),
    decreases n,
{
    if n > 0 {
        lemma_modelled_fields(fields, (n - 1) as nat);
    }
    assert(modelled_fields(fields, n) =~= fields.take(n as int).map_values(
        |f: (String, Json)| (f.0@, modelled(f.1)),
    ));
}

/// What a value holds is all of it: every value of a list and every field of an object, in
/// order, each as what it is.
pub proof fn law_a_value_holds_all_of_it(list: Vec<Json>, fields: Vec<(String, Json)>)
    ensures
        Json::List(list)@ == JsonModel::List(list@.map_values(|v: Json| v@)),
        Json::Object(fields)@ == JsonModel::Object(values_of(fields@)),
        values_of(fields@).len() == fields@.len(),
        forall|i: int|
            0 <= i < fields@.len() ==> #[trigger] values_of(fields@)[i] == (
                fields@[i].0@,
                fields@[i].1@,
            ),
{
    lemma_modelled_list(list@, list@.len());
    lemma_modelled_fields(fields@, fields@.len());
    assert(list@.take(list@.len() as int) =~= list@);
    assert(fields@.take(fields@.len() as int) =~= fields@);
    assert(list@.map_values(|v: Json| modelled(v)) =~= list@.map_values(|v: Json| v@));
    assert(fields@.map_values(|f: (String, Json)| (f.0@, modelled(f.1))) =~= values_of(fields@));
}

} // verus!
