//! Checks of a desktop invocation's body against the input schema its
//! method declares in the connector manifest: required keys, no key the
//! schema does not name, and each value of an allowed type, within the
//! allowed values and range.
use vstd::prelude::*;
use crate::text::{chars_of, chars_eq};

verus! {

/// The JSON type of a value in the body.
#[derive(Clone, Copy, Debug, PartialEq, Eq, Structural)]
pub enum JsonKind {
    Null,
    Boolean,
    /// A number that is an integer (`is_i64() || is_u64()`).
    Integer,
    /// Any other number.
    Number,
    Text,
    Object,
    Array,
}

/// A property's `type`.
#[derive(Clone, Debug)]
pub enum TypeRule {
    /// No `type`: any value.
    Any,
    /// A type name, or a list of them (the names that are strings).
    Kinds(Vec<String>),
    /// A `type` that is neither a string nor a list: no value has it.
    Malformed,
}

/// One entry of the schema's `properties`.
#[derive(Clone, Debug)]
pub struct PropertyRule {
    pub name: String,
    pub types: TypeRule,
}

/// A method's `input_schema`.
#[derive(Clone, Debug)]
pub struct InputSchema {
    /// The schema is a `oneOf` (its method checks its own body).
    pub one_of: bool,
    /// `required`, in order.
    pub required: Vec<String>,
    pub properties: Vec<PropertyRule>,
}

/// A key of the body and what the checks read of its value: its type,
/// whether it is one of the property's `enum` values (true without an
/// `enum`), and whether it lies within `minimum` and `maximum` (true for
/// a value that is not a number, or without bounds).
#[derive(Clone, Debug)]
pub struct BodyEntry {
    pub key: String,
    pub kind: JsonKind,
    pub in_enum: bool,
    pub in_range: bool,
}

/// Why a body is refused (all 400).
#[derive(Clone, Debug, PartialEq, Eq)]
pub enum RequestRefusal {
    /// "request must be an object".
    NotObject,
    /// "`key` is required".
    Required(String),
    /// The schema does not name the key (`UNSUPPORTED_PARAMETER`).
    UnsupportedParameter(String),
    /// "invalid `key`".
    Invalid(String),
}

/// The type names and the kinds they admit.
pub open spec fn kind_named(name: Seq<char>, k: JsonKind) -> bool {
    ||| name == "string"@ && k == JsonKind::Text
    ||| name == "boolean"@ && k == JsonKind::Boolean
    ||| name == "integer"@ && k == JsonKind::Integer
    ||| name == "null"@ && k == JsonKind::Null
    ||| name == "object"@ && k == JsonKind::Object
    ||| name == "array"@ && k == JsonKind::Array
}

/// Some name of the list admits the kind.
pub open spec fn some_kind_named(names: Seq<String>, k: JsonKind) -> bool {
    exists|i: int| 0 <= i < names.len() && kind_named(#[trigger] names[i]@, k)
}

pub open spec fn type_allows(t: TypeRule, k: JsonKind) -> bool {
    match t {
        TypeRule::Any => true,
        TypeRule::Kinds(names) => some_kind_named(names@, k),
        TypeRule::Malformed => false,
    }
}

pub open spec fn has_key(body: Seq<BodyEntry>, k: Seq<char>) -> bool {
    exists|i: int| 0 <= i < body.len() && #[trigger] body[i].key@ == k
}

/// The first required key the body lacks.
pub open spec fn missing_required(required: Seq<String>, body: Seq<BodyEntry>) -> Option<Seq<char>>
    decreases required.len(),
{
    if required.len() == 0 {
        None
    } else if !has_key(body, required[0]@) {
        Some(required[0]@)
    } else {
        missing_required(required.drop_first(), body)
    }
}

/// The type rule of the first property with this name.
pub open spec fn rule_for(props: Seq<PropertyRule>, k: Seq<char>) -> Option<TypeRule>
    decreases props.len(),
{
    if props.len() == 0 {
        None
    } else if props[0].name@ == k {
        Some(props[0].types)
    } else {
        rule_for(props.drop_first(), k)
    }
}

/// The refusals as values: 0 not an object, 1 required, 2 unsupported,
/// 3 invalid, with the key.
pub open spec fn refusal_code(e: RequestRefusal) -> (int, Seq<char>) {
    match e {
        RequestRefusal::NotObject => (0, Seq::empty()),
        RequestRefusal::Required(k) => (1, k@),
        RequestRefusal::UnsupportedParameter(k) => (2, k@),
        RequestRefusal::Invalid(k) => (3, k@),
    }
}

/// The first entry, in body order, the schema does not name or whose value
/// it does not admit.
pub open spec fn entry_refusal(props: Seq<PropertyRule>, body: Seq<BodyEntry>) -> Option<(int, Seq<char>)>
    decreases body.len(),
{
    if body.len() == 0 {
        None
    } else {
        let e = body[0];
        match rule_for(props, e.key@) {
            None => Some((2, e.key@)),
            Some(t) => if type_allows(t, e.kind) && e.in_enum && e.in_range {
                entry_refusal(props, body.drop_first())
            } else {
                Some((3, e.key@))
            },
        }
    }
}

/// The outcome of the checks: a method without a schema in the manifest
/// takes any body; otherwise the body must be an object, and, unless the
/// schema is a `oneOf`, hold the required keys and only admitted values.
pub open spec fn request_verdict(schema: Option<InputSchema>, body: Option<Seq<BodyEntry>>) -> Option<(int, Seq<char>)> {
    match schema {
        None => None,
        Some(s) => match body {
            None => Some((0, Seq::empty())),
            Some(b) => if s.one_of {
                None
            } else {
                match missing_required(s.required@, b) {
                    Some(k) => Some((1, k)),
                    None => entry_refusal(s.properties@, b),
                }
            },
        },
    }
}

fn same(a: &String, b: &String) -> (r: bool)
    ensures
        r == (a@ == b@),
{
    let x = chars_of(a.as_str());
    let y = chars_of(b.as_str());
    chars_eq(x.as_slice(), y.as_slice())
}

fn is_name(a: &String, lit: &str) -> (r: bool)
    ensures
        r == (a@ == lit@),
{
    let x = chars_of(a.as_str());
    let y = chars_of(lit);
    chars_eq(x.as_slice(), y.as_slice())
}

fn kind_named_exec(name: &String, k: JsonKind) -> (r: bool)
    ensures
        r == kind_named(name@, k),
{
    match k {
        JsonKind::Text => is_name(name, "string"),
        JsonKind::Boolean => is_name(name, "boolean"),
        JsonKind::Integer => is_name(name, "integer"),
        JsonKind::Null => is_name(name, "null"),
        JsonKind::Object => is_name(name, "object"),
        JsonKind::Array => is_name(name, "array"),
        JsonKind::Number => {
            proof {
                assert(!kind_named(name@, k));
            }
            false
        },
    }
}

fn type_allows_exec(t: &TypeRule, k: JsonKind) -> (r: bool)
    ensures
        r == type_allows(*t, k),
{
    match t {
        TypeRule::Any => true,
        TypeRule::Malformed => false,
        TypeRule::Kinds(names) => {
            let n = names.len();
            let mut i: usize = 0;
            while i < n
                invariant
                    i <= n,
                    n == names@.len(),
                    forall|j: int| 0 <= j < i ==> !kind_named(#[trigger] names@[j]@, k),
                    *t == TypeRule::Kinds(*names),
                decreases n - i,
            {
                if kind_named_exec(&names[i], k) {
                    assert(kind_named(names@[i as int]@, k));
                    assert(some_kind_named(names@, k));
                    return true;
                }
                i = i + 1;
            }
            false
        },
    }
}

fn has_key_exec(body: &Vec<BodyEntry>, k: &String) -> (r: bool)
    ensures
        r == has_key(body@, k@),
{
    let n = body.len();
    let mut i: usize = 0;
    while i < n
        invariant
            i <= n,
            n == body@.len(),
            forall|j: int| 0 <= j < i ==> #[trigger] body@[j].key@ != k@,
        decreases n - i,
    {
        if same(&body[i].key, k) {
            return true;
        }
        i = i + 1;
    }
    false
}

fn missing_required_exec(required: &Vec<String>, body: &Vec<BodyEntry>) -> (r: Option<String>)
    ensures
        match r {
            Some(k) => missing_required(required@, body@) == Some(k@),
            None => missing_required(required@, body@) is None,
        },
{
    let n = required.len();
    let mut i: usize = 0;
    assert(required@.subrange(0, n as int) =~= required@);
    while i < n
        invariant
            i <= n,
            n == required@.len(),
            missing_required(required@, body@) == missing_required(required@.subrange(i as int, n as int), body@),
        decreases n - i,
    {
        let ghost rest = required@.subrange(i as int, n as int);
        assert(rest[0] == required@[i as int]);
        assert(rest.drop_first() =~= required@.subrange(i as int + 1, n as int));
        if !has_key_exec(body, &required[i]) {
            return Some(required[i].clone());
        }
        i = i + 1;
    }
    None
}

fn rule_for_exec<'a>(props: &'a Vec<PropertyRule>, k: &String) -> (r: Option<&'a TypeRule>)
    ensures
        match r {
            Some(t) => rule_for(props@, k@) == Some(*t),
            None => rule_for(props@, k@) is None,
        },
{
    let n = props.len();
    let mut i: usize = 0;
    assert(props@.subrange(0, n as int) =~= props@);
    while i < n
        invariant
            i <= n,
            n == props@.len(),
            rule_for(props@, k@) == rule_for(props@.subrange(i as int, n as int), k@),
        decreases n - i,
    {
        let ghost rest = props@.subrange(i as int, n as int);
        assert(rest[0] == props@[i as int]);
        assert(rest.drop_first() =~= props@.subrange(i as int + 1, n as int));
        if same(&props[i].name, k) {
            return Some(&props[i].types);
        }
        i = i + 1;
    }
    None
}

/// Checks a body against a method's input schema (`None` when the
/// manifest has no method for the path; `body` is `None` when it is not a
/// JSON object). The checks run in order: the body is an object; the
/// required keys, in the schema's order; then each key of the body, in
/// order: the schema names it, and its value has an allowed type, is an
/// allowed value and lies in range.
pub fn validate_request(schema: &Option<InputSchema>, body: &Option<Vec<BodyEntry>>) -> (r: Result<(), RequestRefusal>)
    ensures
        match request_verdict(
            *schema,
            match *body {
                Some(b) => Some(b@),
                None => None,
            },
        ) {
            None => r is Ok,
            Some(v) => r matches Err(e) && refusal_code(e) == v,
        },
{
    let s = match schema {
        None => return Ok(()),
        Some(s) => s,
    };
    let b = match body {
        None => return Err(RequestRefusal::NotObject),
        Some(b) => b,
    };
    if s.one_of {
        return Ok(());
    }
    if let Some(k) = missing_required_exec(&s.required, b) {
        return Err(RequestRefusal::Required(k));
    }
    let n = b.len();
    let mut i: usize = 0;
    assert(b@.subrange(0, n as int) =~= b@);
    while i < n
        invariant
            i <= n,
            n == b@.len(),
            entry_refusal(s.properties@, b@) == entry_refusal(s.properties@, b@.subrange(i as int, n as int)),
            *schema == Some(*s),
            *body == Some(*b),
            !s.one_of,
            missing_required(s.required@, b@) is None,
        decreases n - i,
    {
        let ghost rest = b@.subrange(i as int, n as int);
        assert(rest[0] == b@[i as int]);
        assert(rest.drop_first() =~= b@.subrange(i as int + 1, n as int));
        let e = &b[i];
        match rule_for_exec(&s.properties, &e.key) {
            None => {
                assert(entry_refusal(s.properties@, rest) == Some((2int, e.key@)));
                return Err(RequestRefusal::UnsupportedParameter(e.key.clone()));
            },
            Some(t) => {
                if !(type_allows_exec(t, e.kind) && e.in_enum && e.in_range) {
                    assert(entry_refusal(s.properties@, rest) == Some((3int, e.key@)));
                    return Err(RequestRefusal::Invalid(e.key.clone()));
                }
            },
        }
        i = i + 1;
    }
    assert(b@.subrange(n as int, n as int).len() == 0);
    Ok(())
}

} // verus!
