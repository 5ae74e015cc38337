//! JSON values of `serde_json`: carried through the library, built and read by its functions.
use vstd::prelude::*;

verus! {

/// A JSON value of `serde_json`; what it holds is told by the functions below.
#[verifier::external_type_specification]
#[verifier::external_body]
pub struct ExJsonValue(serde_json::Value);

/// `<serde_json::Value as Clone>::clone`, which is derived: the copy is the same JSON value.
pub assume_specification[ <serde_json::Value as Clone>::clone ](v: &serde_json::Value) -> (r:
    serde_json::Value)
    ensures
        r == *v,
;

/// What `serde_json::from_str` makes of a text: the value that the text writes, or the text of
/// the error where it is not JSON.
pub uninterp spec fn parsed_json(text: Seq<char>) -> Result<serde_json::Value, Seq<char>>;

/// Calls `serde_json::from_str` for a `serde_json::Value` and takes its error as text. The result
/// is a function of the text alone, named `parsed_json`; the text `null` is JSON.
#[verifier::external_body]
pub(crate) fn parse_json(text: &str) -> (r: Result<serde_json::Value, String>)
    ensures
        match r {
            Ok(v) => parsed_json(text@) == Ok::<serde_json::Value, Seq<char>>(v),
            Err(e) => parsed_json(text@) == Err::<serde_json::Value, Seq<char>>(e@),
        },
        text@ == "null"@ ==> r is Ok,
{
    serde_json::from_str::<serde_json::Value>(text).map_err(|e| e.to_string())
}

/// The JSON value `null`.
pub open spec fn json_null() -> serde_json::Value {
    parsed_json("null"@)->Ok_0
}

/// The JSON value `null`.
pub fn null() -> (r: serde_json::Value)
    ensures
        r == json_null(),
{
    parse_json("null").unwrap()
}

/// What the formatting `{:?}` of an optional JSON value writes.
pub uninterp spec fn parameters_debug(parameters: Option<serde_json::Value>) -> Seq<char>;

/// Formats an optional JSON value with `{:?}`, that is by the `Debug` of `serde_json::Value`
/// inside that of `Option`. The text is a function of the value alone, named `parameters_debug`.
#[verifier::external_body]
pub(crate) fn parameters_text(parameters: &Option<serde_json::Value>) -> (r: String)
    ensures
        r@ == parameters_debug(*parameters),
{
    format!("{:?}", parameters)
}

/// What stands under `key` in a JSON value, if the value is an object and has it.
pub uninterp spec fn field_of(value: serde_json::Value, key: Seq<char>) -> Option<
    serde_json::Value,
>;

/// The text of a JSON value, if it is a string.
pub uninterp spec fn text_of(value: serde_json::Value) -> Option<Seq<char>>;

/// What `serde_json::Value::as_u64` gives: the number that a value is, if it is one without a sign
/// and a fraction.
pub uninterp spec fn number_of(value: serde_json::Value) -> Option<u64>;

/// What `serde_json::Value::as_i64` gives: the number that a value is, if it is one without a
/// fraction that fits.
pub uninterp spec fn signed_of(value: serde_json::Value) -> Option<i64>;

/// What `serde_json::Value::as_array` gives: the items of a value, if it is an array.
pub uninterp spec fn items_of(value: serde_json::Value) -> Option<Seq<serde_json::Value>>;

/// Calls `serde_json::Value::get` with a string: what an object has under the key, and nothing for
/// a value that is not an object. The result is a function of the value and the key, named
/// `field_of`.
#[verifier::external_body]
pub(crate) fn get_field<'a>(value: &'a serde_json::Value, key: &str) -> (r: Option<
    &'a serde_json::Value,
>)
    ensures
        match r {
            Some(v) => field_of(*value, key@) == Some(*v),
            None => field_of(*value, key@) is None,
        },
{
    value.get(key)
}

/// Calls `serde_json::Value::as_str`: the text of a string, and nothing for another value. The
/// result is a function of the value, named `text_of`.
#[verifier::external_body]
pub(crate) fn as_text(value: &serde_json::Value) -> (r: Option<&str>)
    ensures
        match r {
            Some(s) => text_of(*value) == Some(s@),
            None => text_of(*value) is None,
        },
{
    value.as_str()
}

/// Calls `serde_json::Value::is_null`: whether the value is the one that the text `null` writes.
#[verifier::external_body]
pub(crate) fn is_null(value: &serde_json::Value) -> (r: bool)
    ensures
        r == (*value == json_null()),
{
    value.is_null()
}

/// Makes a `serde_json::Value::String`: a string with this text, which is not `null`.
#[verifier::external_body]
pub(crate) fn from_text(text: String) -> (r: serde_json::Value)
    ensures
        text_of(r) == Some(text@),
        r != json_null(),
{
    serde_json::Value::String(text)
}

/// Calls `serde_json::Value::from` with a `u64`: a number, of which `as_u64` gives the value back.
#[verifier::external_body]
pub(crate) fn from_number(n: u64) -> (r: serde_json::Value)
    ensures
        number_of(r) == Some(n),
{
    serde_json::Value::from(n)
}

/// Calls `serde_json::Value::from` with an `i64`: a number, of which `as_i64` gives the value back.
#[verifier::external_body]
pub(crate) fn from_signed(n: i64) -> (r: serde_json::Value)
    ensures
        signed_of(r) == Some(n),
{
    serde_json::Value::from(n)
}

/// Makes a `serde_json::Value::Array`: an array with these items, in this order.
#[verifier::external_body]
pub(crate) fn from_items(items: Vec<serde_json::Value>) -> (r: serde_json::Value)
    ensures
        items_of(r) == Some(items@),
{
    serde_json::Value::Array(items)
}

/// What the last of `fields` with the name `key` has.
pub open spec fn last_field(fields: Seq<(String, serde_json::Value)>, key: Seq<char>) -> Option<
    serde_json::Value,
>
    decreases fields.len(),
{
    if fields.len() == 0 {
        None
    } else if fields.last().0@ == key {
        Some(fields.last().1)
    } else {
        last_field(fields.drop_last(), key)
    }
}

/// Makes a `serde_json::Value::Object` by `FromIterator` for `serde_json::Map`, from fields with
/// different names: an object with these fields and no others.
#[verifier::external_body]
pub(crate) fn from_fields(fields: Vec<(String, serde_json::Value)>) -> (r: serde_json::Value)
    requires
        forall|a: int, b: int|
            0 <= a < b < fields@.len() ==> (#[trigger] fields@[a]).0@ != (
            #[trigger] fields@[b]).0@,
    ensures
        forall|key: Seq<char>| #[trigger] field_of(r, key) == last_field(fields@, key),
{
    serde_json::Value::Object(fields.into_iter().collect())
}

/// The object with one field.
pub(crate) fn from_field(name: &str, value: serde_json::Value) -> (r: serde_json::Value)
    ensures
        forall|key: Seq<char>| #[trigger]
            field_of(r, key) == if key == name@ {
                Some(value)
            } else {
                None
            },
{
    let mut fields: Vec<(String, serde_json::Value)> = Vec::new();
    fields.push((name.to_owned(), value));
    proof {
        reveal_with_fuel(last_field, 2);
        assert(fields@.last().0@ == name@);
    }
    from_fields(fields)
}

/// Whether `value` has the text `text` under `key`.
pub open spec fn has_text(value: serde_json::Value, key: Seq<char>, text: Seq<char>) -> bool {
    field_of(value, key) matches Some(v) && text_of(v) == Some(text)
}

/// Whether `value` has the number `n` under `key`.
pub open spec fn has_number(value: serde_json::Value, key: Seq<char>, n: u64) -> bool {
    field_of(value, key) matches Some(v) && number_of(v) == Some(n)
}

/// A parameter of a tool: its name, its type, and the least number that it may be.
pub struct Parameter {
    pub name: &'static str,
    pub kind: &'static str,
    pub minimum: Option<u64>,
}

/// Whether `value` describes one parameter.
pub open spec fn describes(value: serde_json::Value, p: Parameter) -> bool {
    &&& field_of(value, "type"@) matches Some(t) && text_of(t) == Some(p.kind@)
    &&& match p.minimum {
        Some(n) => field_of(value, "minimum"@) matches Some(m) && number_of(m) == Some(n),
        None => field_of(value, "minimum"@) is None,
    }
    &&& forall|key: Seq<char>|
        key != "type"@ && key != "minimum"@ ==> #[trigger] field_of(value, key) is None
}

/// Whether `value` is the schema of an object with these parameters, of which the first
/// `required` have to be given.
pub open spec fn is_schema(
    value: serde_json::Value,
    parameters: Seq<Parameter>,
    required: int,
) -> bool {
    &&& field_of(value, "type"@) matches Some(t) && text_of(t) == Some("object"@)
    &&& field_of(value, "properties"@) matches Some(all) && is_properties(all, parameters)
    &&& field_of(value, "required"@) matches Some(names) && is_name_list(
        names,
        parameters.take(required),
    )
    &&& forall|key: Seq<char>|
        key != "type"@ && key != "properties"@ && key != "required"@ ==> #[trigger] field_of(
            value,
            key,
        ) is None
}

/// Whether `value` has one field for each parameter, and no others.
pub open spec fn is_properties(value: serde_json::Value, parameters: Seq<Parameter>) -> bool {
    &&& forall|i: int|
        0 <= i < parameters.len() ==> (field_of(value, (#[trigger] parameters[i]).name@) matches Some(
            v,
        ) && describes(v, parameters[i]))
    &&& forall|key: Seq<char>|
        (forall|i: int| 0 <= i < parameters.len() ==> (#[trigger] parameters[i]).name@ != key)
            ==> #[trigger] field_of(value, key) is None
}

/// Whether `value` is the array of the names of `parameters`.
pub open spec fn is_name_list(value: serde_json::Value, parameters: Seq<Parameter>) -> bool {
    items_of(value) matches Some(items) && items.len() == parameters.len() && forall|i: int|
        0 <= i < items.len() ==> text_of(#[trigger] items[i]) == Some(parameters[i].name@)
}

/// Of fields with different names each is found.
pub(crate) proof fn lemma_last_field(fields: Seq<(String, serde_json::Value)>, i: int)
    requires
        0 <= i < fields.len(),
        forall|a: int, b: int|
            0 <= a < b < fields.len() ==> (#[trigger] fields[a]).0@ != (#[trigger] fields[b]).0@,
    ensures
        last_field(fields, fields[i].0@) == Some(fields[i].1),
    decreases fields.len(),
{
    if i < fields.len() - 1 {
        assert(fields[i].0@ != fields[fields.len() - 1].0@);
        let front = fields.drop_last();
        assert forall|a: int, b: int| 0 <= a < b < front.len() implies (#[trigger] front[a]).0@ != (
        #[trigger] front[b]).0@ by {
            assert(fields[a].0@ != fields[b].0@);
        }
        lemma_last_field(front, i);
    }
}

/// A name that no field has is not found.
pub(crate) proof fn lemma_no_field(fields: Seq<(String, serde_json::Value)>, key: Seq<char>)
    requires
        forall|a: int| 0 <= a < fields.len() ==> (#[trigger] fields[a]).0@ != key,
    ensures
        last_field(fields, key) is None,
    decreases fields.len(),
{
    if fields.len() > 0 {
        assert(fields[fields.len() - 1].0@ != key);
        lemma_no_field(fields.drop_last(), key);
    }
}

fn describe(p: &Parameter) -> (r: serde_json::Value)
    ensures
        describes(r, *p),
{
    let mut fields: Vec<(String, serde_json::Value)> = Vec::new();
    fields.push(("type".to_owned(), from_text(p.kind.to_owned())));
    match p.minimum {
        Some(n) => {
            fields.push(("minimum".to_owned(), from_number(n)));
        },
        None => {},
    }
    proof {
        reveal_strlit("type");
        reveal_strlit("minimum");
        assert("type"@[0] == 't');
        assert("minimum"@[0] == 'm');
        assert(fields@[0].0@ == "type"@);
        assert(fields@.len() == 2 ==> fields@[1].0@ == "minimum"@);
        lemma_last_field(fields@, 0);
        if p.minimum is Some {
            lemma_last_field(fields@, 1);
        } else {
            lemma_no_field(fields@, "minimum"@);
        }
        assert forall|key: Seq<char>| key != "type"@ && key != "minimum"@ implies
            #[trigger] last_field(fields@, key) is None by {
            lemma_no_field(fields@, key);
        }
    }
    from_fields(fields)
}

/// The schema of an object with these parameters, of which the first `required` have to be given.
pub(crate) fn object_schema(parameters: Vec<Parameter>, required: usize) -> (r: serde_json::Value)
    requires
        required <= parameters@.len(),
        forall|a: int, b: int|
            0 <= a < b < parameters@.len() ==> (#[trigger] parameters@[a]).name@ != (
            #[trigger] parameters@[b]).name@,
    ensures
        is_schema(r, parameters@, required as int),
{
    let mut properties: Vec<(String, serde_json::Value)> = Vec::new();
    let mut names: Vec<serde_json::Value> = Vec::new();
    let mut i: usize = 0;
    while i < parameters.len()
        invariant
            i <= parameters@.len(),
            required <= parameters@.len(),
            properties@.len() == i,
            names@.len() == (if i < required {
                i
            } else {
                required
            }),
            forall|k: int|
                0 <= k < i ==> (#[trigger] properties@[k]).0@ == parameters@[k].name@ && describes(
                    properties@[k].1,
                    parameters@[k],
                ),
            forall|k: int|
                0 <= k < names@.len() ==> text_of(#[trigger] names@[k]) == Some(
                    parameters@[k].name@,
                ),
        decreases parameters@.len() - i,
    {
        let p = &parameters[i];
        properties.push((p.name.to_owned(), describe(p)));
        if i < required {
            names.push(from_text(p.name.to_owned()));
        }
        i += 1;
    }
    let ghost all = properties@;
    proof {
        assert forall|a: int, b: int| 0 <= a < b < all.len() implies (#[trigger] all[a]).0@ != (
        #[trigger] all[b]).0@ by {
            assert(parameters@[a].name@ != parameters@[b].name@);
        }
    }
    let properties = from_fields(properties);
    proof {
        assert forall|k: int| 0 <= k < parameters@.len() implies (field_of(
            properties,
            (#[trigger] parameters@[k]).name@,
        ) matches Some(v) && describes(v, parameters@[k])) by {
            lemma_last_field(all, k);
            assert(all[k].0@ == parameters@[k].name@);
        }
        assert forall|key: Seq<char>|
            (forall|k: int| 0 <= k < parameters@.len() ==> (#[trigger] parameters@[k]).name@ != key)
                implies #[trigger] field_of(properties, key) is None by {
            assert forall|a: int| 0 <= a < all.len() implies (#[trigger] all[a]).0@ != key by {
                assert(parameters@[a].name@ != key);
            }
            lemma_no_field(all, key);
        }
    }
    let mut fields: Vec<(String, serde_json::Value)> = Vec::new();
    fields.push(("type".to_owned(), from_text("object".to_owned())));
    fields.push(("properties".to_owned(), properties));
    fields.push(("required".to_owned(), from_items(names)));
    proof {
        reveal_strlit("type");
        reveal_strlit("properties");
        reveal_strlit("required");
        assert("properties"@[0] == 'p');
        assert("required"@[0] == 'r');
        assert("type"@[0] == 't');
        lemma_last_field(fields@, 0);
        lemma_last_field(fields@, 1);
        lemma_last_field(fields@, 2);
        assert(forall|key: Seq<char>|
            key != "type"@ && key != "properties"@ && key != "required"@ ==> #[trigger] last_field(
                fields@,
                key,
            ) is None) by {
            assert forall|key: Seq<char>|
                key != "type"@ && key != "properties"@ && key != "required"@ implies
                #[trigger] last_field(fields@, key) is None by {
                lemma_no_field(fields@, key);
            }
        }
    }
    from_fields(fields)
}

/// The schema of a tool describes each of its parameters, with its type and its least value, and
/// nothing else, and names those that have to be given, in their order.
pub proof fn law_schema_describes_every_parameter(
    value: serde_json::Value,
    parameters: Seq<Parameter>,
    required: int,
    i: int,
)
    requires
        is_schema(value, parameters, required),
        0 <= required <= parameters.len(),
        0 <= i < parameters.len(),
    ensures
        has_text(value, "type"@, "object"@),
        field_of(value, "properties"@) is Some,
        field_of(field_of(value, "properties"@)->0, parameters[i].name@) is Some,
        ({
            let own = field_of(field_of(value, "properties"@)->0, parameters[i].name@)->0;
            &&& has_text(own, "type"@, parameters[i].kind@)
            &&& parameters[i].minimum matches Some(n) ==> has_number(own, "minimum"@, n)
            &&& parameters[i].minimum is None ==> field_of(own, "minimum"@) is None
        }),
        field_of(value, "required"@) is Some,
        items_of(field_of(value, "required"@)->0) is Some,
        ({
            let names = items_of(field_of(value, "required"@)->0)->0;
            &&& names.len() == required
            &&& i < required ==> text_of(names[i]) == Some(parameters[i].name@)
        }),
{
    let all = field_of(value, "properties"@)->0;
    assert(is_properties(all, parameters));
    assert(describes(field_of(all, parameters[i].name@)->0, parameters[i]));
    let names = items_of(field_of(value, "required"@)->0)->0;
    if i < required {
        assert(text_of(names[i]) == Some(parameters.take(required)[i].name@));
    }
}

/// Of fields of one name the last one counts.
pub proof fn law_last_field_counts(
    fields: Seq<(String, serde_json::Value)>,
    key: Seq<char>,
    at: int,
)
    requires
        0 <= at < fields.len(),
        fields[at].0@ == key,
        forall|i: int| at < i < fields.len() ==> (#[trigger] fields[i]).0@ != key,
    ensures
        last_field(fields, key) == Some(fields[at].1),
    decreases fields.len(),
{
    if at < fields.len() - 1 {
        assert(fields[fields.len() - 1].0@ != key);
        law_last_field_counts(fields.drop_last(), key, at);
    }
}

} // verus!
