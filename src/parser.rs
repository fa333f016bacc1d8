use vstd::prelude::*;
use crate::json::{parse_json, json_parse, Json};
use crate::manifest::{BindingModel, Component, ComponentList, FragmentModel, Operation, Page};

verus! {

/// Why a manifest could not be read.
#[derive(Clone, Copy, Debug, PartialEq, Eq, Structural)]
pub enum ParseError {
    /// The text is not valid JSON.
    Malformed,
    /// An element of a binding or fragment array lacks a required string
    /// or array field, or is not an object.
    MissingField,
    /// A binding names an operation that does not exist.
    UnknownOperation,
    /// In strict mode: the document is not an object.
    NotAnObject,
}

/// How a document that is not a JSON object is read: as a manifest without
/// bindings, or as an error.
#[derive(Clone, Copy, Debug, PartialEq, Eq, Structural)]
pub enum Strictness {
    Lenient,
    Strict,
}

/// The value of the first field named `key`.
pub open spec fn field_of(fields: Seq<(String, Json)>, key: Seq<char>) -> Option<Json>
    decreases fields.len(),
{
    if fields.len() == 0 {
        None
    } else if fields[0].0@ == key {
        Some(fields[0].1)
    } else {
        field_of(fields.drop_first(), key)
    }
}

/// A fragment object: `_ref` and `html`, both strings.
pub open spec fn fragment_of(j: Json) -> Option<FragmentModel> {
    match j {
        Json::Object(fs) => match (field_of(fs@, "_ref"@), field_of(fs@, "html"@)) {
            (Some(Json::Str(r)), Some(Json::Str(h))) => Some(FragmentModel { reference: r@, html: h@ }),
            _ => None,
        },
        _ => None,
    }
}

/// Every element of `items` read as a fragment, or `None` if one is not.
pub open spec fn fragments_of(items: Seq<Json>) -> Option<Seq<FragmentModel>>
    decreases items.len(),
{
    if items.len() == 0 {
        Some(Seq::empty())
    } else {
        match (fragments_of(items.drop_last()), fragment_of(items.last())) {
            (Some(fs), Some(f)) => Some(fs.push(f)),
            _ => None,
        }
    }
}

/// The operation named by an optional `op` field; absent means replace.
pub open spec fn operation_of(op: Option<Json>) -> Option<Operation> {
    match op {
        None => Some(Operation::Replace),
        Some(Json::Str(s)) => if s@ == "replace"@ {
            Some(Operation::Replace)
        } else if s@ == "append"@ {
            Some(Operation::Append)
        } else if s@ == "prepend"@ {
            Some(Operation::Prepend)
        } else if s@ == "before"@ {
            Some(Operation::Before)
        } else if s@ == "after"@ {
            Some(Operation::After)
        } else {
            None
        },
        Some(_) => None,
    }
}

/// One element of a `selectors` array.
pub open spec fn binding_of(j: Json) -> Result<BindingModel, ParseError> {
    match j {
        Json::Object(fs) => match field_of(fs@, "selector"@) {
            Some(Json::Str(sel)) => match operation_of(field_of(fs@, "op"@)) {
                Some(op) => match field_of(fs@, "components"@) {
                    Some(Json::Array(items)) => match fragments_of(items@) {
                        Some(frags) => Ok(BindingModel { selector: sel@, op, fragments: frags }),
                        None => Err(ParseError::MissingField),
                    },
                    _ => Err(ParseError::MissingField),
                },
                None => Err(ParseError::UnknownOperation),
            },
            _ => Err(ParseError::MissingField),
        },
        _ => Err(ParseError::MissingField),
    }
}

/// Every element of a `selectors` array, in order; the first failing
/// element decides the error.
pub open spec fn bindings_of(items: Seq<Json>) -> Result<Seq<BindingModel>, ParseError>
    decreases items.len(),
{
    if items.len() == 0 {
        Ok(Seq::empty())
    } else {
        match bindings_of(items.drop_last()) {
            Err(e) => Err(e),
            Ok(bs) => match binding_of(items.last()) {
                Err(e) => Err(e),
                Ok(b) => Ok(bs.push(b)),
            },
        }
    }
}

/// The selector that a keyed list targets.
pub open spec fn list_selector(key: Seq<char>) -> Seq<char> {
    "component-list[list="@ + key + "]"@
}

/// The keyed shape: each array-valued field becomes a replacing binding for
/// the list named after its key; other fields are ignored.
/// Bindings come in field order; for a parsed document that is key order,
/// as the JSON reader yields fields sorted by key.
pub open spec fn keyed_bindings_of(fields: Seq<(String, Json)>) -> Result<Seq<BindingModel>, ParseError>
    decreases fields.len(),
{
    if fields.len() == 0 {
        Ok(Seq::empty())
    } else {
        match keyed_bindings_of(fields.drop_last()) {
            Err(e) => Err(e),
            Ok(bs) => match fields.last().1 {
                Json::Array(items) => match fragments_of(items@) {
                    Some(frags) => Ok(bs.push(BindingModel {
                        selector: list_selector(fields.last().0@),
                        op: Operation::Replace,
                        fragments: frags,
                    })),
                    None => Err(ParseError::MissingField),
                },
                _ => Ok(bs),
            },
        }
    }
}

/// The manifest a JSON document describes. An array under `selectors`
/// takes precedence over the keyed shape; a document that is not an object
/// describes no bindings, or is an error in strict mode.
pub open spec fn manifest_of(j: Json, mode: Strictness) -> Result<Seq<BindingModel>, ParseError> {
    match j {
        Json::Object(fs) => match field_of(fs@, "selectors"@) {
            Some(Json::Array(items)) => bindings_of(items@),
            _ => keyed_bindings_of(fs@),
        },
        _ => if mode == Strictness::Strict {
            Err(ParseError::NotAnObject)
        } else {
            Ok(Seq::empty())
        },
    }
}

/// The manifest that a text describes.
pub open spec fn parse_manifest(text: Seq<char>, mode: Strictness) -> Result<Seq<BindingModel>, ParseError> {
    match json_parse(text) {
        None => Err(ParseError::Malformed),
        Some(j) => manifest_of(j, mode),
    }
}

/// Malformed JSON is rejected as a whole, in either mode.
pub proof fn lemma_malformed_json_rejected(text: Seq<char>, mode: Strictness)
    requires
        json_parse(text) is None,
    ensures
        parse_manifest(text, mode) == Err::<Seq<BindingModel>, ParseError>(ParseError::Malformed),
{
}


proof fn lemma_fragments_prefix(s: Seq<Json>, k: int)
    requires
        0 <= k <= s.len(),
        fragments_of(s.take(k)) is None,
    ensures
        fragments_of(s) is None,
    decreases s.len() - k,
{
    if k < s.len() {
        assert(s.take(k + 1).drop_last() =~= s.take(k));
        lemma_fragments_prefix(s, k + 1);
    } else {
        assert(s.take(k) =~= s);
    }
}

proof fn lemma_bindings_prefix(s: Seq<Json>, k: int, e: ParseError)
    requires
        0 <= k <= s.len(),
        bindings_of(s.take(k)) == Err::<Seq<BindingModel>, ParseError>(e),
    ensures
        bindings_of(s) == Err::<Seq<BindingModel>, ParseError>(e),
    decreases s.len() - k,
{
    if k < s.len() {
        assert(s.take(k + 1).drop_last() =~= s.take(k));
        lemma_bindings_prefix(s, k + 1, e);
    } else {
        assert(s.take(k) =~= s);
    }
}

proof fn lemma_keyed_prefix(s: Seq<(String, Json)>, k: int, e: ParseError)
    requires
        0 <= k <= s.len(),
        keyed_bindings_of(s.take(k)) == Err::<Seq<BindingModel>, ParseError>(e),
    ensures
        keyed_bindings_of(s) == Err::<Seq<BindingModel>, ParseError>(e),
    decreases s.len() - k,
{
    if k < s.len() {
        assert(s.take(k + 1).drop_last() =~= s.take(k));
        lemma_keyed_prefix(s, k + 1, e);
    } else {
        assert(s.take(k) =~= s);
    }
}

/// The first field named `key`.
fn find_field<'a>(fields: &'a Vec<(String, Json)>, key: &String) -> (r: Option<&'a Json>)
    ensures
        match r {
            Some(x) => field_of(fields@, key@) == Some(*x),
            None => field_of(fields@, key@) is None,
        },
{
    let mut i: usize = 0;
    assert(fields@.skip(0) =~= fields@);
    while i < fields.len()
        invariant
            i <= fields@.len(),
            field_of(fields@, key@) == field_of(fields@.skip(i as int), key@),
        decreases fields@.len() - i,
    {
        assert(fields@.skip(i as int).drop_first() =~= fields@.skip(i as int + 1));
        if fields[i].0 == *key {
            return Some(&fields[i].1);
        }
        i = i + 1;
    }
    assert(fields@.skip(i as int).len() == 0);
    None
}

fn fragment_from(j: &Json) -> (r: Option<Component>)
    ensures
        match r {
            Some(c) => fragment_of(*j) == Some(c@),
            None => fragment_of(*j) is None,
        },
{
    match j {
        Json::Object(fs) => {
            let r = find_field(fs, &String::from_str("_ref"));
            let h = find_field(fs, &String::from_str("html"));
            match (r, h) {
                (Some(Json::Str(r)), Some(Json::Str(h))) => Some(Component { _ref: r.clone(), html: h.clone() }),
                _ => None,
            }
        },
        _ => None,
    }
}

fn fragments_from(items: &Vec<Json>) -> (r: Option<Vec<Component>>)
    ensures
        match r {
            Some(v) => fragments_of(items@) == Some(v@.map_values(|c: Component| c@)),
            None => fragments_of(items@) is None,
        },
{
    let mut out: Vec<Component> = Vec::new();
    let mut i: usize = 0;
    assert(items@.take(0) =~= Seq::<Json>::empty());
    assert(out@.map_values(|c: Component| c@) =~= Seq::<FragmentModel>::empty());
    while i < items.len()
        invariant
            i <= items@.len(),
            fragments_of(items@.take(i as int)) == Some(out@.map_values(|c: Component| c@)),
        decreases items@.len() - i,
    {
        assert(items@.take(i as int + 1).drop_last() =~= items@.take(i as int));
        assert(items@.take(i as int + 1).last() == items@[i as int]);
        match fragment_from(&items[i]) {
            Some(c) => {
                let ghost prev = out@;
                out.push(c);
                assert(out@.map_values(|c: Component| c@) =~= prev.map_values(|c: Component| c@).push(c@));
            },
            None => {
                proof { lemma_fragments_prefix(items@, i as int + 1); }
                return None;
            },
        }
        i = i + 1;
    }
    assert(items@.take(i as int) =~= items@);
    Some(out)
}

fn operation_from(op: Option<&Json>) -> (r: Option<Operation>)
    ensures
        r == operation_of(match op {
            Some(x) => Some(*x),
            None => None,
        }),
{
    match op {
        None => Some(Operation::Replace),
        Some(Json::Str(s)) => {
            if *s == String::from_str("replace") {
                Some(Operation::Replace)
            } else if *s == String::from_str("append") {
                Some(Operation::Append)
            } else if *s == String::from_str("prepend") {
                Some(Operation::Prepend)
            } else if *s == String::from_str("before") {
                Some(Operation::Before)
            } else if *s == String::from_str("after") {
                Some(Operation::After)
            } else {
                None
            }
        },
        Some(_) => None,
    }
}

fn binding_from(j: &Json) -> (r: Result<ComponentList, ParseError>)
    ensures
        match r {
            Ok(b) => binding_of(*j) == Ok::<BindingModel, ParseError>(b@),
            Err(e) => binding_of(*j) == Err::<BindingModel, ParseError>(e),
        },
{
    match j {
        Json::Object(fs) => {
            let sel = match find_field(fs, &String::from_str("selector")) {
                Some(Json::Str(sel)) => sel,
                _ => {
                    return Err(ParseError::MissingField);
                },
            };
            let op = match operation_from(find_field(fs, &String::from_str("op"))) {
                Some(op) => op,
                None => {
                    return Err(ParseError::UnknownOperation);
                },
            };
            let items = match find_field(fs, &String::from_str("components")) {
                Some(Json::Array(items)) => items,
                _ => {
                    return Err(ParseError::MissingField);
                },
            };
            match fragments_from(items) {
                Some(components) => Ok(ComponentList { name: sel.clone(), op, components }),
                None => Err(ParseError::MissingField),
            }
        },
        _ => Err(ParseError::MissingField),
    }
}

fn bindings_from(items: &Vec<Json>) -> (r: Result<Vec<ComponentList>, ParseError>)
    ensures
        match r {
            Ok(v) => bindings_of(items@) == Ok::<Seq<BindingModel>, ParseError>(v@.map_values(|b: ComponentList| b@)),
            Err(e) => bindings_of(items@) == Err::<Seq<BindingModel>, ParseError>(e),
        },
{
    let mut out: Vec<ComponentList> = Vec::new();
    let mut i: usize = 0;
    assert(items@.take(0) =~= Seq::<Json>::empty());
    assert(out@.map_values(|b: ComponentList| b@) =~= Seq::<BindingModel>::empty());
    while i < items.len()
        invariant
            i <= items@.len(),
            bindings_of(items@.take(i as int)) == Ok::<Seq<BindingModel>, ParseError>(out@.map_values(|b: ComponentList| b@)),
        decreases items@.len() - i,
    {
        assert(items@.take(i as int + 1).drop_last() =~= items@.take(i as int));
        assert(items@.take(i as int + 1).last() == items@[i as int]);
        match binding_from(&items[i]) {
            Ok(b) => {
                let ghost prev = out@;
                out.push(b);
                assert(out@.map_values(|b: ComponentList| b@) =~= prev.map_values(|b: ComponentList| b@).push(b@));
            },
            Err(e) => {
                proof { lemma_bindings_prefix(items@, i as int + 1, e); }
                return Err(e);
            },
        }
        i = i + 1;
    }
    assert(items@.take(i as int) =~= items@);
    Ok(out)
}

fn keyed_bindings_from(fields: &Vec<(String, Json)>) -> (r: Result<Vec<ComponentList>, ParseError>)
    ensures
        match r {
            Ok(v) => keyed_bindings_of(fields@) == Ok::<Seq<BindingModel>, ParseError>(v@.map_values(|b: ComponentList| b@)),
            Err(e) => keyed_bindings_of(fields@) == Err::<Seq<BindingModel>, ParseError>(e),
        },
{
    let mut out: Vec<ComponentList> = Vec::new();
    let mut i: usize = 0;
    assert(fields@.take(0) =~= Seq::<(String, Json)>::empty());
    assert(out@.map_values(|b: ComponentList| b@) =~= Seq::<BindingModel>::empty());
    while i < fields.len()
        invariant
            i <= fields@.len(),
            keyed_bindings_of(fields@.take(i as int)) == Ok::<Seq<BindingModel>, ParseError>(out@.map_values(|b: ComponentList| b@)),
        decreases fields@.len() - i,
    {
        assert(fields@.take(i as int + 1).drop_last() =~= fields@.take(i as int));
        assert(fields@.take(i as int + 1).last() == fields@[i as int]);
        match &fields[i].1 {
            Json::Array(items) => match fragments_from(items) {
                Some(components) => {
                    let mut sel = String::from_str("component-list[list=");
                    sel.append(fields[i].0.as_str());
                    sel.append("]");
                    let ghost prev = out@;
                    let b = ComponentList { name: sel, op: Operation::Replace, components };
                    out.push(b);
                    assert(out@.map_values(|b: ComponentList| b@) =~= prev.map_values(|b: ComponentList| b@).push(b@));
                },
                None => {
                    proof { lemma_keyed_prefix(fields@, i as int + 1, ParseError::MissingField); }
                    return Err(ParseError::MissingField);
                },
            },
            _ => {},
        }
        i = i + 1;
    }
    assert(fields@.take(i as int) =~= fields@);
    Ok(out)
}

impl Page {
    /// Reads the manifest a JSON document describes.
    pub fn from_json_value(j: &Json, mode: Strictness) -> (r: Result<Page, ParseError>)
        ensures
            match r {
                Ok(p) => manifest_of(*j, mode) == Ok::<Seq<BindingModel>, ParseError>(p@),
                Err(e) => manifest_of(*j, mode) == Err::<Seq<BindingModel>, ParseError>(e),
            },
    {
        let mut page = Page::new(String::from_str("page"));
        match j {
            Json::Object(fs) => {
                let found = match find_field(fs, &String::from_str("selectors")) {
                    Some(Json::Array(items)) => bindings_from(items),
                    _ => keyed_bindings_from(fs),
                };
                match found {
                    Ok(v) => {
                        page.selectors = v;
                        Ok(page)
                    },
                    Err(e) => Err(e),
                }
            },
            _ => match mode {
                Strictness::Strict => Err(ParseError::NotAnObject),
                Strictness::Lenient => Ok(page),
            },
        }
    }

    /// Parses a manifest from JSON text in the given mode. Malformed JSON is
    /// an error and yields no partial manifest.
    pub fn from_json_str_in(json: &str, mode: Strictness) -> (r: Result<Page, ParseError>)
        ensures
            match r {
                Ok(p) => parse_manifest(json@, mode) == Ok::<Seq<BindingModel>, ParseError>(p@),
                Err(e) => parse_manifest(json@, mode) == Err::<Seq<BindingModel>, ParseError>(e),
            },
    {
        match parse_json(json) {
            None => Err(ParseError::Malformed),
            Some(j) => Page::from_json_value(&j, mode),
        }
    }

    /// Parses a manifest from JSON text, reading a document that is not an
    /// object as a manifest without bindings.
    pub fn from_json_str(json: &str) -> (r: Result<Page, ParseError>)
        ensures
            match r {
                Ok(p) => parse_manifest(json@, Strictness::Lenient) == Ok::<Seq<BindingModel>, ParseError>(p@),
                Err(e) => parse_manifest(json@, Strictness::Lenient) == Err::<Seq<BindingModel>, ParseError>(e),
            },
    {
        Page::from_json_str_in(json, Strictness::Lenient)
    }
}

} // verus!
