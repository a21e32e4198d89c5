//! The OpenAPI loader and cache: locating an operation in a parsed spec,
//! resolving internal `$ref` pointers, and distilling a per-operation
//! validation plan, cached by `(spec path, method, path template)`.

use vstd::prelude::*;

use crate::config::is_param_segment;
use crate::error::{Error, ErrorV};
use crate::json::{json_get, json_pointer, obj_first, JsonV, JsonValue};
use crate::schema::{CompiledSchema, FileOutcome};
use crate::trusted::schema_compile_of;
use crate::strutil::{
    ascii_lower, ascii_upper, contains_seq, contains_str, eq_ignore_ascii_case, parse_u16,
    split_at_seps, split_str, str_eq_ignore_case, to_lower, to_upper, trim_char,
    trim_matches_char, u16_of_str,
};

verus! {

/// Where a parameter is carried.
#[derive(Clone, Copy, PartialEq, Eq, Structural, Debug)]
pub enum ParameterLocation {
    Path,
    Query,
    Header,
    Cookie,
}

/// Which response a schema applies to: one status, or the spec's default.
#[derive(Clone, Copy, PartialEq, Eq, Structural, Debug)]
pub enum ResponseKey {
    Status(u16),
    Default,
}

/// A primitive coercion a parameter schema's top-level type calls for.
#[derive(Clone, Copy, PartialEq, Eq, Structural, Debug)]
pub enum PrimitiveType {
    Integer,
    Number,
    Boolean,
}

// ---------------------------------------------------------------------------
// Path template matching between a route and a spec
// ---------------------------------------------------------------------------
/// The `/`-separated segments of a path with its outer slashes stripped; a
/// bare or all-slash path has none.
pub open spec fn spec_split_path(s: Seq<char>) -> Seq<Seq<char>> {
    let t = trim_char(s, '/');
    if t.len() == 0 {
        Seq::<Seq<char>>::empty()
    } else {
        split_at_seps(t, '/')
    }
}

/// Splits a path into segments, outer slashes stripped.
pub fn split_path(path: &str) -> (r: Vec<String>)
    ensures
        r.deep_view() == spec_split_path(path@),
{
    let trimmed = trim_matches_char(path, '/');
    if trimmed.unicode_len() == 0 {
        let r: Vec<String> = Vec::new();
        proof {
            assert(r.deep_view() =~= Seq::<Seq<char>>::empty());
        }
        r
    } else {
        split_str(trimmed.as_str(), '/')
    }
}

/// A route-side template segment standing for a parameter: `:name` or
/// `{name}`.
pub open spec fn spec_is_route_param(seg: Seq<char>) -> bool {
    is_param_segment(seg)
}

pub fn is_route_param(segment: &str) -> (r: bool)
    ensures
        r == spec_is_route_param(segment@),
{
    crate::config::is_param_segment_exec(segment)
}

/// A spec-side template segment standing for a parameter: `{name}` only.
pub open spec fn spec_is_spec_param(seg: Seq<char>) -> bool {
    seg.len() >= 2 && seg[0] == '{' && seg.last() == '}'
}

pub fn is_spec_param(segment: &str) -> (r: bool)
    ensures
        r == spec_is_spec_param(segment@),
{
    let n = segment.unicode_len();
    n >= 2 && segment.get_char(0) == '{' && segment.get_char(n - 1) == '}'
}

/// A route template and a spec template describe the same path shape: equal
/// segment counts, a parameter on either side matches anything, literals must
/// be equal.
pub open spec fn spec_paths_match(route_path: Seq<char>, spec_path: Seq<char>) -> bool {
    let rs = spec_split_path(route_path);
    let ss = spec_split_path(spec_path);
    rs.len() == ss.len() && forall|i: int|
        0 <= i < rs.len() ==> (spec_is_route_param(#[trigger] rs[i]) || spec_is_spec_param(ss[i])
            || rs[i] == ss[i])
}

/// Whether a configured route path and a spec path template match.
pub fn paths_match(route_path: &str, spec_path: &str) -> (r: bool)
    ensures
        r == spec_paths_match(route_path@, spec_path@),
{
    let rs = split_path(route_path);
    let ss = split_path(spec_path);
    if rs.len() != ss.len() {
        return false;
    }
    let mut i: usize = 0;
    while i < rs.len()
        invariant
            i <= rs.len(),
            rs.len() == ss.len(),
            rs.deep_view() == spec_split_path(route_path@),
            ss.deep_view() == spec_split_path(spec_path@),
            rs.deep_view().len() == rs.len(),
            ss.deep_view().len() == ss.len(),
            forall|j: int|
                0 <= j < i ==> (spec_is_route_param(#[trigger] rs.deep_view()[j])
                    || spec_is_spec_param(ss.deep_view()[j]) || rs.deep_view()[j]
                    == ss.deep_view()[j]),
        decreases rs.len() - i,
    {
        proof {
            assert(rs.deep_view()[i as int] == rs@[i as int]@);
            assert(ss.deep_view()[i as int] == ss@[i as int]@);
        }
        let route_is_param = is_route_param(rs[i].as_str());
        let spec_is_param = is_spec_param(ss[i].as_str());
        if !route_is_param && !spec_is_param {
            if !(rs[i] == ss[i]) {
                proof {
                    assert(!spec_paths_match(route_path@, spec_path@));
                }
                return false;
            }
        }
        i = i + 1;
    }
    true
}

// ---------------------------------------------------------------------------
// Response keys and primitive kinds
// ---------------------------------------------------------------------------
/// What a response map key denotes: `default` in any case, a status numeral,
/// or nothing.
pub open spec fn spec_parse_response_key(raw: Seq<char>) -> Option<ResponseKey> {
    if eq_ignore_ascii_case(raw, "default"@) {
        Some(ResponseKey::Default)
    } else {
        match u16_of_str(raw) {
            Some(v) => Some(ResponseKey::Status(v as u16)),
            None => None,
        }
    }
}

/// Reads a response map key.
pub fn parse_response_key(raw: &str) -> (r: Option<ResponseKey>)
    ensures
        r == spec_parse_response_key(raw@),
{
    if str_eq_ignore_case(raw, "default") {
        return Some(ResponseKey::Default);
    }
    match parse_u16(raw) {
        Some(v) => Some(ResponseKey::Status(v)),
        None => None,
    }
}

/// The coercion a schema's top-level `type` calls for, where it is one of the
/// three primitives.
pub open spec fn spec_detect_primitive(schema: JsonV) -> Option<PrimitiveType> {
    match json_get(schema, "type"@) {
        Some(JsonV::Str(t)) => if t == "integer"@ {
            Some(PrimitiveType::Integer)
        } else if t == "number"@ {
            Some(PrimitiveType::Number)
        } else if t == "boolean"@ {
            Some(PrimitiveType::Boolean)
        } else {
            None
        },
        _ => None,
    }
}

pub fn detect_primitive_type(schema: &JsonValue) -> (r: Option<PrimitiveType>)
    ensures
        r == spec_detect_primitive(schema@),
{
    match schema.get("type") {
        Some(t) => match t.as_str() {
            Some(s) => {
                let name = s.clone();
                if name == "integer".to_owned() {
                    Some(PrimitiveType::Integer)
                } else if name == "number".to_owned() {
                    Some(PrimitiveType::Number)
                } else if name == "boolean".to_owned() {
                    Some(PrimitiveType::Boolean)
                } else {
                    None
                }
            },
            None => None,
        },
        None => None,
    }
}

// ---------------------------------------------------------------------------
// Media type selection
// ---------------------------------------------------------------------------
/// The first content entry whose key, lowercased, contains `json`.
pub open spec fn first_jsonish(fields: Seq<(Seq<char>, JsonV)>) -> Option<JsonV>
    decreases fields.len(),
{
    if fields.len() == 0 {
        None
    } else if contains_seq(to_lower(fields[0].0), "json"@) {
        Some(fields[0].1)
    } else {
        first_jsonish(fields.drop_first())
    }
}

/// The media entry content negotiation picks: `application/json`, then
/// `application/*+json`, then any key containing `json` case-insensitively.
pub open spec fn spec_select_json_media(fields: Seq<(Seq<char>, JsonV)>) -> Option<JsonV> {
    match obj_first(fields, "application/json"@) {
        Some(m) => Some(m),
        None => match obj_first(fields, "application/*+json"@) {
            Some(m) => Some(m),
            None => first_jsonish(fields),
        },
    }
}

proof fn lemma_first_jsonish_at(fields: Seq<(Seq<char>, JsonV)>, at: int)
    requires
        0 <= at < fields.len(),
        contains_seq(to_lower(fields[at].0), "json"@),
        forall|j: int| 0 <= j < at ==> !contains_seq(to_lower((#[trigger] fields[j]).0), "json"@),
    ensures
        first_jsonish(fields) == Some(fields[at].1),
    decreases at,
{
    if at > 0 {
        lemma_first_jsonish_at(fields.drop_first(), at - 1);
    }
}

proof fn lemma_first_jsonish_none(fields: Seq<(Seq<char>, JsonV)>)
    requires
        forall|j: int|
            0 <= j < fields.len() ==> !contains_seq(to_lower((#[trigger] fields[j]).0), "json"@),
    ensures
        first_jsonish(fields) is None,
    decreases fields.len(),
{
    if fields.len() > 0 {
        lemma_first_jsonish_none(fields.drop_first());
    }
}

/// Picks the JSON media entry out of a `content` object's fields.
pub fn select_json_media_type<'a>(content: &'a Vec<(String, JsonValue)>) -> (r: Option<
    &'a JsonValue,
>)
    ensures
        match r {
            Some(m) => spec_select_json_media(crate::json::view_fields(content@)) == Some(m@),
            None => spec_select_json_media(crate::json::view_fields(content@)) is None,
        },
{
    proof {
        crate::json::lemma_view_fields(content@);
    }
    let ghost vf = crate::json::view_fields(content@);
    let exact = "application/json".to_owned();
    let suffixed = "application/*+json".to_owned();
    let mut i: usize = 0;
    while i < content.len()
        invariant
            i <= content.len(),
            exact@ == "application/json"@,
            vf == crate::json::view_fields(content@),
            vf.len() == content@.len(),
            forall|j: int|
                0 <= j < content@.len() ==> vf[j] == ((#[trigger] content@[j]).0@, content@[j].1@),
            forall|j: int| 0 <= j < i ==> (#[trigger] vf[j]).0 != "application/json"@,
        decreases content.len() - i,
    {
        if content[i].0 == exact {
            proof {
                lemma_obj_first_at_pub(vf, "application/json"@, i as int);
            }
            return Some(&content[i].1);
        }
        i = i + 1;
    }
    proof {
        lemma_obj_first_none_pub(vf, "application/json"@);
    }
    let mut i: usize = 0;
    while i < content.len()
        invariant
            i <= content.len(),
            suffixed@ == "application/*+json"@,
            vf == crate::json::view_fields(content@),
            vf.len() == content@.len(),
            obj_first(vf, "application/json"@) is None,
            forall|j: int|
                0 <= j < content@.len() ==> vf[j] == ((#[trigger] content@[j]).0@, content@[j].1@),
            forall|j: int| 0 <= j < i ==> (#[trigger] vf[j]).0 != "application/*+json"@,
        decreases content.len() - i,
    {
        if content[i].0 == suffixed {
            proof {
                lemma_obj_first_at_pub(vf, "application/*+json"@, i as int);
            }
            return Some(&content[i].1);
        }
        i = i + 1;
    }
    proof {
        lemma_obj_first_none_pub(vf, "application/*+json"@);
    }
    let mut i: usize = 0;
    while i < content.len()
        invariant
            i <= content.len(),
            vf == crate::json::view_fields(content@),
            vf.len() == content@.len(),
            obj_first(vf, "application/json"@) is None,
            obj_first(vf, "application/*+json"@) is None,
            forall|j: int|
                0 <= j < content@.len() ==> vf[j] == ((#[trigger] content@[j]).0@, content@[j].1@),
            forall|j: int| 0 <= j < i ==> !contains_seq(to_lower((#[trigger] vf[j]).0), "json"@),
        decreases content.len() - i,
    {
        let lowered = ascii_lower(content[i].0.as_str());
        if contains_str(lowered.as_str(), "json") {
            proof {
                lemma_first_jsonish_at(vf, i as int);
            }
            return Some(&content[i].1);
        }
        i = i + 1;
    }
    proof {
        lemma_first_jsonish_none(vf);
    }
    None
}

/// First-match lemma for object lookup, shared by the loader's scans.
pub proof fn lemma_obj_first_at_pub(fields: Seq<(Seq<char>, JsonV)>, key: Seq<char>, at: int)
    requires
        0 <= at < fields.len(),
        fields[at].0 == key,
        forall|j: int| 0 <= j < at ==> (#[trigger] fields[j]).0 != key,
    ensures
        obj_first(fields, key) == Some(fields[at].1),
    decreases at,
{
    if at > 0 {
        lemma_obj_first_at_pub(fields.drop_first(), key, at - 1);
    }
}

/// No-match lemma for object lookup, shared by the loader's scans.
pub proof fn lemma_obj_first_none_pub(fields: Seq<(Seq<char>, JsonV)>, key: Seq<char>)
    requires
        forall|j: int| 0 <= j < fields.len() ==> (#[trigger] fields[j]).0 != key,
    ensures
        obj_first(fields, key) is None,
    decreases fields.len(),
{
    if fields.len() > 0 {
        lemma_obj_first_none_pub(fields.drop_first(), key);
    }
}

// ---------------------------------------------------------------------------
// Reference resolution
// ---------------------------------------------------------------------------
pub open spec fn ref_external_msg(r: Seq<char>) -> Seq<char> {
    "unsupported external reference '"@ + r + "'"@
}

pub open spec fn ref_not_found_msg(r: Seq<char>) -> Seq<char> {
    "reference '"@ + r + "' not found"@
}

/// One step of `$ref` resolution: a local reference is replaced by what its
/// pointer addresses; anything without a string `$ref` member stands as it is.
pub open spec fn spec_resolve_reference(value: JsonV, doc: JsonV, spec_path: Seq<char>) -> Result<
    JsonV,
    ErrorV,
> {
    match json_get(value, "$ref"@) {
        Some(JsonV::Str(r)) => if r.len() > 0 && r[0] == '#' {
            match json_pointer(doc, r.drop_first()) {
                Some(t) => Ok(t),
                None => Err(
                    ErrorV::OpenApiSemantic { path: spec_path, message: ref_not_found_msg(r) },
                ),
            }
        } else {
            Err(ErrorV::OpenApiSemantic { path: spec_path, message: ref_external_msg(r) })
        },
        _ => Ok(value),
    }
}

/// Resolves a value's `$ref`, if it has one, against the spec document.
pub fn resolve_reference<'a>(value: &'a JsonValue, doc: &'a JsonValue, spec_path: &str) -> (r:
    Result<&'a JsonValue, Error>)
    ensures
        match r {
            Ok(t) => spec_resolve_reference(value@, doc@, spec_path@) == Ok::<JsonV, ErrorV>(t@),
            Err(e) => spec_resolve_reference(value@, doc@, spec_path@) == Err::<JsonV, ErrorV>(e@),
        },
{
    match value.get("$ref") {
        Some(rv) => match rv.as_str() {
            Some(reference) => {
                let n = reference.as_str().unicode_len();
                if crate::strutil::starts_with_char(reference.as_str(), '#') {
                    let ptr = reference.as_str().substring_char(1, n);
                    proof {
                        assert(reference@.subrange(1, n as int) =~= reference@.drop_first());
                    }
                    match doc.pointer(ptr) {
                        Some(t) => Ok(t),
                        None => Err(
                            Error::OpenApiSemantic {
                                path: spec_path.to_owned(),
                                message: crate::strutil::concat3(
                                    "reference '",
                                    reference.as_str(),
                                    "' not found",
                                ),
                            },
                        ),
                    }
                } else {
                    Err(
                        Error::OpenApiSemantic {
                            path: spec_path.to_owned(),
                            message: crate::strutil::concat3(
                                "unsupported external reference '",
                                reference.as_str(),
                                "'",
                            ),
                        },
                    )
                }
            },
            None => Ok(value),
        },
        None => Ok(value),
    }
}

// ---------------------------------------------------------------------------
// Deep schema resolution
// ---------------------------------------------------------------------------
pub open spec fn ref_depth_msg() -> Seq<char> {
    "'$ref' nesting exceeds the resolution limit"@
}

/// How many `$ref` steps deep resolution will follow before it reports the
/// document as cyclic.
pub const REF_RESOLUTION_LIMIT: u32 = 64;

/// A value with every reachable `$ref` subtree replaced by its referent, so
/// the result can be compiled independently of the document. Only a string
/// `$ref` member is a reference; any other value under that key is plain data.
/// A `$ref` chain longer than the fuel is a configuration error.
pub open spec fn spec_resolve_schema(v: JsonV, doc: JsonV, spec_path: Seq<char>, fuel: nat) -> Result<
    JsonV,
    ErrorV,
>
    decreases fuel, v, 0int,
{
    if json_get(v, "$ref"@) matches Some(JsonV::Str(_)) {
        if fuel == 0 {
            Err(ErrorV::InvalidOpenApi { path: spec_path, message: ref_depth_msg() })
        } else {
            match spec_resolve_reference(v, doc, spec_path) {
                Ok(t) => spec_resolve_schema(t, doc, spec_path, (fuel - 1) as nat),
                Err(e) => Err(e),
            }
        }
    } else {
        match v {
            JsonV::Object(fields) => match spec_resolve_fields(fields, doc, spec_path, fuel) {
                Ok(rf) => Ok(JsonV::Object(rf)),
                Err(e) => Err(e),
            },
            JsonV::Array(items) => match spec_resolve_items(items, doc, spec_path, fuel) {
                Ok(ri) => Ok(JsonV::Array(ri)),
                Err(e) => Err(e),
            },
            _ => Ok(v),
        }
    }
}

pub open spec fn spec_resolve_fields(
    fields: Seq<(Seq<char>, JsonV)>,
    doc: JsonV,
    spec_path: Seq<char>,
    fuel: nat,
) -> Result<Seq<(Seq<char>, JsonV)>, ErrorV>
    decreases fuel, fields, fields.len(),
{
    if fields.len() == 0 {
        Ok(Seq::<(Seq<char>, JsonV)>::empty())
    } else {
        match spec_resolve_schema(fields[0].1, doc, spec_path, fuel) {
            Err(e) => Err(e),
            Ok(h) => match spec_resolve_fields(fields.drop_first(), doc, spec_path, fuel) {
                Err(e) => Err(e),
                Ok(t) => Ok(seq![(fields[0].0, h)] + t),
            },
        }
    }
}

pub open spec fn spec_resolve_items(
    items: Seq<JsonV>,
    doc: JsonV,
    spec_path: Seq<char>,
    fuel: nat,
) -> Result<Seq<JsonV>, ErrorV>
    decreases fuel, items, items.len(),
{
    if items.len() == 0 {
        Ok(Seq::<JsonV>::empty())
    } else {
        match spec_resolve_schema(items[0], doc, spec_path, fuel) {
            Err(e) => Err(e),
            Ok(h) => match spec_resolve_items(items.drop_first(), doc, spec_path, fuel) {
                Err(e) => Err(e),
                Ok(t) => Ok(seq![h] + t),
            },
        }
    }
}

/// Deep-resolves every `$ref` in a schema value against the document.
pub fn resolve_schema_value(schema: &JsonValue, doc: &JsonValue, spec_path: &str, fuel: u32) -> (r:
    Result<JsonValue, Error>)
    ensures
        match r {
            Ok(t) => spec_resolve_schema(schema@, doc@, spec_path@, fuel as nat) == Ok::<
                JsonV,
                ErrorV,
            >(t@),
            Err(e) => spec_resolve_schema(schema@, doc@, spec_path@, fuel as nat) == Err::<
                JsonV,
                ErrorV,
            >(e@),
        },
    decreases fuel, schema, 0int,
{
    let has_ref = match schema.get("$ref") {
        Some(rv) => match rv.as_str() {
            Some(_) => true,
            None => false,
        },
        None => false,
    };
    if has_ref {
        if fuel == 0 {
            return Err(
                Error::InvalidOpenApi {
                    path: spec_path.to_owned(),
                    message: "'$ref' nesting exceeds the resolution limit".to_owned(),
                },
            );
        }
        match resolve_reference(schema, doc, spec_path) {
            Ok(target) => resolve_schema_value(target, doc, spec_path, fuel - 1),
            Err(e) => Err(e),
        }
    } else {
        match schema {
            JsonValue::Object(fields) => {
                proof {
                    crate::json::lemma_view_fields(fields@);
                    assert(crate::json::view_fields(fields@).subrange(
                        0,
                        crate::json::view_fields(fields@).len() as int,
                    ) =~= crate::json::view_fields(fields@));
                }
                match resolve_fields_from(fields, 0, doc, spec_path, fuel) {
                    Ok(rf) => Ok(JsonValue::Object(rf)),
                    Err(e) => Err(e),
                }
            },
            JsonValue::Array(items) => {
                proof {
                    crate::json::lemma_view_list(items@);
                    assert(crate::json::view_list(items@).subrange(
                        0,
                        crate::json::view_list(items@).len() as int,
                    ) =~= crate::json::view_list(items@));
                }
                match resolve_items_from(items, 0, doc, spec_path, fuel) {
                    Ok(ri) => Ok(JsonValue::Array(ri)),
                    Err(e) => Err(e),
                }
            },
            JsonValue::Null => Ok(JsonValue::Null),
            JsonValue::Bool(b) => Ok(JsonValue::Bool(*b)),
            JsonValue::Number(s) => Ok(JsonValue::Number(s.clone())),
            JsonValue::Str(s) => Ok(JsonValue::Str(s.clone())),
        }
    }
}

/// Deep-resolves the fields of an object from position `i` on.
fn resolve_fields_from(
    fields: &Vec<(String, JsonValue)>,
    i: usize,
    doc: &JsonValue,
    spec_path: &str,
    fuel: u32,
) -> (r: Result<Vec<(String, JsonValue)>, Error>)
    requires
        i <= fields.len(),
        crate::json::view_fields(fields@).len() == fields@.len(),
        forall|j: int|
            0 <= j < fields@.len() ==> crate::json::view_fields(fields@)[j] == ((
            #[trigger] fields@[j]).0@,
            fields@[j].1@,
            ),
    ensures
        match r {
            Ok(t) => spec_resolve_fields(
                crate::json::view_fields(fields@).subrange(
                    i as int,
                    crate::json::view_fields(fields@).len() as int,
                ),
                doc@,
                spec_path@,
                fuel as nat,
            ) == Ok::<Seq<(Seq<char>, JsonV)>, ErrorV>(crate::json::view_fields(t@)),
            Err(e) => spec_resolve_fields(
                crate::json::view_fields(fields@).subrange(
                    i as int,
                    crate::json::view_fields(fields@).len() as int,
                ),
                doc@,
                spec_path@,
                fuel as nat,
            ) == Err::<Seq<(Seq<char>, JsonV)>, ErrorV>(e@),
        },
    decreases fuel, fields@, fields.len() - i,
{
    let ghost vf = crate::json::view_fields(fields@);
    let ghost suffix = vf.subrange(i as int, vf.len() as int);
    if i == fields.len() {
        let out: Vec<(String, JsonValue)> = Vec::new();
        proof {
            assert(suffix =~= Seq::<(Seq<char>, JsonV)>::empty());
            assert(crate::json::view_fields(out@) =~= Seq::<(Seq<char>, JsonV)>::empty());
        }
        Ok(out)
    } else {
        proof {
            assert(suffix[0] == vf[i as int]);
            assert(suffix.drop_first() =~= vf.subrange(i + 1 as int, vf.len() as int));
        }
        match resolve_schema_value(&fields[i].1, doc, spec_path, fuel) {
            Err(e) => Err(e),
            Ok(h) => match resolve_fields_from(fields, i + 1, doc, spec_path, fuel) {
                Err(e) => Err(e),
                Ok(mut t) => {
                    let ghost told = t@;
                    let ghost tail = crate::json::view_fields(t@);
                    let entry = (fields[i].0.clone(), h);
                    let ghost elem = entry;
                    t.insert(0, entry);
                    proof {
                        crate::json::lemma_view_fields(told);
                        assert(t@ == told.insert(0, elem));
                        assert(t@ =~= seq![elem] + told);
                        crate::json::lemma_view_fields(t@);
                        assert(elem.0@ == fields@[i as int].0@);
                        assert forall|j: int| 0 <= j < t@.len() implies crate::json::view_fields(
                            t@,
                        )[j] == (seq![(fields@[i as int].0@, elem.1@)] + tail)[j] by {
                            assert(crate::json::view_fields(t@)[j] == (t@[j].0@, t@[j].1@));
                            if j == 0 {
                                assert(t@[0] == elem);
                            } else {
                                assert(t@[j] == told[j - 1]);
                                assert(tail[j - 1] == (told[j - 1].0@, told[j - 1].1@));
                            }
                        }
                        assert(crate::json::view_fields(t@) =~= seq![
                            (fields@[i as int].0@, elem.1@),
                        ] + tail);
                    }
                    Ok(t)
                },
            },
        }
    }
}

/// Deep-resolves the items of an array from position `i` on.
fn resolve_items_from(
    items: &Vec<JsonValue>,
    i: usize,
    doc: &JsonValue,
    spec_path: &str,
    fuel: u32,
) -> (r: Result<Vec<JsonValue>, Error>)
    requires
        i <= items.len(),
        crate::json::view_list(items@).len() == items@.len(),
        forall|j: int|
            0 <= j < items@.len() ==> crate::json::view_list(items@)[j] == #[trigger] items@[j]@,
    ensures
        match r {
            Ok(t) => spec_resolve_items(
                crate::json::view_list(items@).subrange(
                    i as int,
                    crate::json::view_list(items@).len() as int,
                ),
                doc@,
                spec_path@,
                fuel as nat,
            ) == Ok::<Seq<JsonV>, ErrorV>(crate::json::view_list(t@)),
            Err(e) => spec_resolve_items(
                crate::json::view_list(items@).subrange(
                    i as int,
                    crate::json::view_list(items@).len() as int,
                ),
                doc@,
                spec_path@,
                fuel as nat,
            ) == Err::<Seq<JsonV>, ErrorV>(e@),
        },
    decreases fuel, items@, items.len() - i,
{
    let ghost vl = crate::json::view_list(items@);
    let ghost suffix = vl.subrange(i as int, vl.len() as int);
    if i == items.len() {
        let out: Vec<JsonValue> = Vec::new();
        proof {
            assert(suffix =~= Seq::<JsonV>::empty());
            assert(crate::json::view_list(out@) =~= Seq::<JsonV>::empty());
        }
        Ok(out)
    } else {
        proof {
            assert(suffix[0] == vl[i as int]);
            assert(suffix.drop_first() =~= vl.subrange(i + 1 as int, vl.len() as int));
        }
        match resolve_schema_value(&items[i], doc, spec_path, fuel) {
            Err(e) => Err(e),
            Ok(h) => match resolve_items_from(items, i + 1, doc, spec_path, fuel) {
                Err(e) => Err(e),
                Ok(mut t) => {
                    let ghost told = t@;
                    let ghost tail = crate::json::view_list(t@);
                    let ghost elem_view = h@;
                    t.insert(0, h);
                    proof {
                        crate::json::lemma_view_list(told);
                        assert(t@ == told.insert(0, t@[0]));
                        assert(t@ =~= seq![t@[0]] + told);
                        crate::json::lemma_view_list(t@);
                        assert forall|j: int| 0 <= j < t@.len() implies crate::json::view_list(
                            t@,
                        )[j] == (seq![elem_view] + tail)[j] by {
                            assert(crate::json::view_list(t@)[j] == t@[j]@);
                            if j == 0 {
                            } else {
                                assert(t@[j] == told[j - 1]);
                                assert(tail[j - 1] == told[j - 1]@);
                            }
                        }
                        assert(crate::json::view_list(t@) =~= seq![elem_view] + tail);
                    }
                    Ok(t)
                },
            },
        }
    }
}

// ---------------------------------------------------------------------------
// Operation dissection: request body, parameters, responses
// ---------------------------------------------------------------------------
/// A parameter as the spec declares it, before compiling its schema.
pub struct ParameterSpec {
    pub name: String,
    pub location: ParameterLocation,
    pub required: bool,
    pub schema: Option<JsonValue>,
}

pub struct ParameterSpecV {
    pub name: Seq<char>,
    pub location: ParameterLocation,
    pub required: bool,
    pub schema: Option<JsonV>,
}

impl View for ParameterSpec {
    type V = ParameterSpecV;

    open spec fn view(&self) -> ParameterSpecV {
        ParameterSpecV {
            name: self.name@,
            location: self.location,
            required: self.required,
            schema: match self.schema {
                Some(s) => Some(s@),
                None => None,
            },
        }
    }
}

pub open spec fn view_param_specs(params: Seq<ParameterSpec>) -> Seq<ParameterSpecV>
    decreases params,
{
    if params.len() == 0 {
        Seq::<ParameterSpecV>::empty()
    } else {
        seq![params[0]@] + view_param_specs(params.drop_first())
    }
}

pub broadcast proof fn lemma_view_param_specs(params: Seq<ParameterSpec>)
    ensures
        (#[trigger] view_param_specs(params)).len() == params.len(),
        forall|i: int|
            0 <= i < params.len() ==> view_param_specs(params)[i] == #[trigger] params[i]@,
    decreases params,
{
    if params.len() > 0 {
        lemma_view_param_specs(params.drop_first());
        assert(view_param_specs(params) == seq![params[0]@] + view_param_specs(
            params.drop_first(),
        ));
        assert(forall|i: int|
            1 <= i < params.len() ==> view_param_specs(params)[i] == view_param_specs(
                params.drop_first(),
            )[i - 1]);
        assert(forall|i: int|
            1 <= i < params.len() ==> view_param_specs(params.drop_first())[i - 1]
                == #[trigger] params.drop_first()[i - 1]@);
        assert(forall|i: int| 1 <= i < params.len() ==> params.drop_first()[i - 1] == params[i]);
    } else {
        assert(view_param_specs(params) == Seq::<ParameterSpecV>::empty());
    }
}

/// A boolean member read leniently: anything but a boolean counts as `false`.
pub open spec fn bool_member_or_false(fields: Seq<(Seq<char>, JsonV)>, key: Seq<char>) -> bool {
    match obj_first(fields, key) {
        Some(JsonV::Bool(b)) => b,
        _ => false,
    }
}

/// What the operation's `requestBody` contributes to the plan: the selected
/// media type's schema (one `$ref` step resolved) and whether a body is
/// required.
pub open spec fn spec_extract_request_body(operation: JsonV, doc: JsonV, sp: Seq<char>) -> Result<
    (Option<JsonV>, bool),
    ErrorV,
> {
    if !(operation is Object) {
        Err(ErrorV::OpenApiSemantic { path: sp, message: "operation is not an object"@ })
    } else {
        match json_get(operation, "requestBody"@) {
            None => Ok((None, false)),
            Some(rb) => match spec_resolve_reference(rb, doc, sp) {
                Err(e) => Err(e),
                Ok(body) => match body {
                    JsonV::Object(bf) => {
                        let required = bool_member_or_false(bf, "required"@);
                        match obj_first(bf, "content"@) {
                            Some(JsonV::Object(cf)) => match spec_select_json_media(cf) {
                                Some(media) => match media {
                                    JsonV::Object(mf) => match obj_first(mf, "schema"@) {
                                        Some(sv) => match spec_resolve_reference(sv, doc, sp) {
                                            Ok(sch) => Ok((Some(sch), required)),
                                            Err(e) => Err(e),
                                        },
                                        None => Ok((None, required)),
                                    },
                                    _ => Err(
                                        ErrorV::OpenApiSemantic {
                                            path: sp,
                                            message: "media type must be an object"@,
                                        },
                                    ),
                                },
                                None => Ok((None, required)),
                            },
                            _ => Ok((None, required)),
                        }
                    },
                    _ => Err(
                        ErrorV::OpenApiSemantic {
                            path: sp,
                            message: "requestBody must be an object"@,
                        },
                    ),
                },
            },
        }
    }
}

/// Reads a boolean member, anything else counting as `false`.
fn get_bool_member(v: &JsonValue, key: &str) -> (r: bool)
    ensures
        v@ is Object ==> r == bool_member_or_false(v@->Object_0, key@),
{
    match v.get(key) {
        Some(b) => match b.as_bool() {
            Some(x) => x,
            None => false,
        },
        None => false,
    }
}

/// Extracts the request-body schema and the `required` flag of an operation.
pub fn extract_request_body_info<'a>(
    operation: &'a JsonValue,
    doc: &'a JsonValue,
    spec_path: &str,
) -> (r: Result<(Option<&'a JsonValue>, bool), Error>)
    ensures
        match r {
            Ok(p) => spec_extract_request_body(operation@, doc@, spec_path@) == Ok::<
                (Option<JsonV>, bool),
                ErrorV,
            >(
                (
                    match p.0 {
                        Some(s) => Some(s@),
                        None => None,
                    },
                    p.1,
                ),
            ),
            Err(e) => spec_extract_request_body(operation@, doc@, spec_path@) == Err::<
                (Option<JsonV>, bool),
                ErrorV,
            >(e@),
        },
{
    if !operation.is_object() {
        return Err(
            Error::OpenApiSemantic {
                path: spec_path.to_owned(),
                message: "operation is not an object".to_owned(),
            },
        );
    }
    let rb = match operation.get("requestBody") {
        None => {
            return Ok((None, false));
        },
        Some(rb) => rb,
    };
    let body = match resolve_reference(rb, doc, spec_path) {
        Ok(b) => b,
        Err(e) => {
            return Err(e);
        },
    };
    if !body.is_object() {
        return Err(
            Error::OpenApiSemantic {
                path: spec_path.to_owned(),
                message: "requestBody must be an object".to_owned(),
            },
        );
    }
    let required = get_bool_member(body, "required");
    let content = match body.get("content") {
        Some(c) => c,
        None => {
            return Ok((None, required));
        },
    };
    let content_fields = match content {
        JsonValue::Object(cf) => cf,
        _ => {
            return Ok((None, required));
        },
    };
    let media = match select_json_media_type(content_fields) {
        Some(m) => m,
        None => {
            return Ok((None, required));
        },
    };
    if !media.is_object() {
        return Err(
            Error::OpenApiSemantic {
                path: spec_path.to_owned(),
                message: "media type must be an object".to_owned(),
            },
        );
    }
    let schema_val = match media.get("schema") {
        Some(sv) => sv,
        None => {
            return Ok((None, required));
        },
    };
    match resolve_reference(schema_val, doc, spec_path) {
        Ok(sch) => Ok((Some(sch), required)),
        Err(e) => Err(e),
    }
}

// ---------------------------------------------------------------------------
// Parameters
// ---------------------------------------------------------------------------
/// What one declared parameter contributes: a parsed parameter, nothing where
/// its location is unsupported, or an error.
pub open spec fn spec_parse_parameter(value: JsonV, doc: JsonV, sp: Seq<char>) -> Result<
    Option<ParameterSpecV>,
    ErrorV,
> {
    match spec_resolve_reference(value, doc, sp) {
        Err(e) => Err(e),
        Ok(p) => match p {
            JsonV::Object(pf) => match obj_first(pf, "name"@) {
                Some(JsonV::Str(name)) => match obj_first(pf, "in"@) {
                    Some(JsonV::Str(loc)) => if loc == "path"@ || loc == "query"@ || loc
                        == "header"@ || loc == "cookie"@ {
                        let location = if loc == "path"@ {
                            ParameterLocation::Path
                        } else if loc == "query"@ {
                            ParameterLocation::Query
                        } else if loc == "header"@ {
                            ParameterLocation::Header
                        } else {
                            ParameterLocation::Cookie
                        };
                        let required = if location is Path {
                            true
                        } else {
                            bool_member_or_false(pf, "required"@)
                        };
                        match obj_first(pf, "schema"@) {
                            Some(sv) => match spec_resolve_schema(
                                sv,
                                doc,
                                sp,
                                REF_RESOLUTION_LIMIT as nat,
                            ) {
                                Ok(s) => Ok(
                                    Some(
                                        ParameterSpecV { name, location, required, schema: Some(s) },
                                    ),
                                ),
                                Err(e) => Err(e),
                            },
                            None => Ok(
                                Some(ParameterSpecV { name, location, required, schema: None }),
                            ),
                        }
                    } else {
                        Ok(None)
                    },
                    _ => Err(
                        ErrorV::OpenApiSemantic {
                            path: sp,
                            message: "parameter '"@ + name + "' missing 'in'"@,
                        },
                    ),
                },
                _ => Err(
                    ErrorV::OpenApiSemantic { path: sp, message: "parameter missing 'name'"@ },
                ),
            },
            _ => Err(
                ErrorV::OpenApiSemantic { path: sp, message: "parameter must be an object"@ },
            ),
        },
    }
}

/// Parses one declared parameter; an unsupported `in` location is skipped.
pub fn parse_parameter(value: &JsonValue, doc: &JsonValue, spec_path: &str) -> (r: Result<
    Option<ParameterSpec>,
    Error,
>)
    ensures
        match r {
            Ok(Some(p)) => spec_parse_parameter(value@, doc@, spec_path@) == Ok::<
                Option<ParameterSpecV>,
                ErrorV,
            >(Some(p@)),
            Ok(None) => spec_parse_parameter(value@, doc@, spec_path@) == Ok::<
                Option<ParameterSpecV>,
                ErrorV,
            >(None),
            Err(e) => spec_parse_parameter(value@, doc@, spec_path@) == Err::<
                Option<ParameterSpecV>,
                ErrorV,
            >(e@),
        },
{
    let resolved = match resolve_reference(value, doc, spec_path) {
        Ok(p) => p,
        Err(e) => {
            return Err(e);
        },
    };
    if !resolved.is_object() {
        return Err(
            Error::OpenApiSemantic {
                path: spec_path.to_owned(),
                message: "parameter must be an object".to_owned(),
            },
        );
    }
    let name = match resolved.get("name") {
        Some(nv) => match nv.as_str() {
            Some(n) => n.clone(),
            None => {
                return Err(
                    Error::OpenApiSemantic {
                        path: spec_path.to_owned(),
                        message: "parameter missing 'name'".to_owned(),
                    },
                );
            },
        },
        None => {
            return Err(
                Error::OpenApiSemantic {
                    path: spec_path.to_owned(),
                    message: "parameter missing 'name'".to_owned(),
                },
            );
        },
    };
    let loc_name = match resolved.get("in") {
        Some(lv) => match lv.as_str() {
            Some(l) => l.clone(),
            None => {
                return Err(
                    Error::OpenApiSemantic {
                        path: spec_path.to_owned(),
                        message: crate::strutil::concat3(
                            "parameter '",
                            name.as_str(),
                            "' missing 'in'",
                        ),
                    },
                );
            },
        },
        None => {
            return Err(
                Error::OpenApiSemantic {
                    path: spec_path.to_owned(),
                    message: crate::strutil::concat3(
                        "parameter '",
                        name.as_str(),
                        "' missing 'in'",
                    ),
                },
            );
        },
    };
    let location = if loc_name == "path".to_owned() {
        ParameterLocation::Path
    } else if loc_name == "query".to_owned() {
        ParameterLocation::Query
    } else if loc_name == "header".to_owned() {
        ParameterLocation::Header
    } else if loc_name == "cookie".to_owned() {
        ParameterLocation::Cookie
    } else {
        return Ok(None);
    };
    let required = match location {
        ParameterLocation::Path => true,
        _ => get_bool_member(resolved, "required"),
    };
    let schema = match resolved.get("schema") {
        Some(sv) => match resolve_schema_value(sv, doc, spec_path, REF_RESOLUTION_LIMIT) {
            Ok(s) => Some(s),
            Err(e) => {
                return Err(e);
            },
        },
        None => None,
    };
    Ok(Some(ParameterSpec { name, location, required, schema }))
}

/// Replaces the first parameter with the same name and location, or appends.
pub open spec fn spec_upsert(params: Seq<ParameterSpecV>, p: ParameterSpecV) -> Seq<
    ParameterSpecV,
>
    decreases params.len(),
{
    if params.len() == 0 {
        seq![p]
    } else if params[0].name == p.name && params[0].location == p.location {
        seq![p] + params.drop_first()
    } else {
        seq![params[0]] + spec_upsert(params.drop_first(), p)
    }
}

proof fn lemma_upsert_at(params: Seq<ParameterSpecV>, p: ParameterSpecV, at: int)
    requires
        0 <= at < params.len(),
        params[at].name == p.name && params[at].location == p.location,
        forall|j: int|
            0 <= j < at ==> !((#[trigger] params[j]).name == p.name && params[j].location
                == p.location),
    ensures
        spec_upsert(params, p) =~= params.update(at, p),
    decreases at,
{
    if at > 0 {
        lemma_upsert_at(params.drop_first(), p, at - 1);
        assert(spec_upsert(params, p) == seq![params[0]] + spec_upsert(params.drop_first(), p));
        assert(params.drop_first().update(at - 1, p) =~= params.update(at, p).drop_first());
    }
}

proof fn lemma_upsert_none(params: Seq<ParameterSpecV>, p: ParameterSpecV)
    requires
        forall|j: int|
            0 <= j < params.len() ==> !((#[trigger] params[j]).name == p.name && params[j].location
                == p.location),
    ensures
        spec_upsert(params, p) =~= params.push(p),
    decreases params.len(),
{
    if params.len() > 0 {
        lemma_upsert_none(params.drop_first(), p);
        assert(params.drop_first().push(p) =~= params.push(p).drop_first());
    }
}

/// Inserts a parameter, overriding any earlier one with its name and location.
pub fn upsert_parameter(params: &mut Vec<ParameterSpec>, p: ParameterSpec)
    ensures
        view_param_specs(final(params)@) == spec_upsert(view_param_specs(old(params)@), p@),
{
    proof {
        lemma_view_param_specs(params@);
    }
    let ghost vp = view_param_specs(params@);
    let mut i: usize = 0;
    while i < params.len()
        invariant
            i <= params.len(),
            vp == view_param_specs(params@),
            vp == view_param_specs(old(params)@),
            vp.len() == params@.len(),
            forall|j: int|
                0 <= j < params@.len() ==> vp[j] == #[trigger] params@[j]@,
            forall|j: int|
                0 <= j < i ==> !((#[trigger] vp[j]).name == p@.name && vp[j].location
                    == p@.location),
        decreases params.len() - i,
    {
        let name_eq = params[i].name == p.name;
        let loc_eq = params[i].location == p.location;
        proof {
            assert(vp[i as int] == params@[i as int]@);
        }
        if name_eq && loc_eq {
            proof {
                lemma_upsert_at(vp, p@, i as int);
            }
            let ghost pv = p@;
            let ghost before = params@;
            vstd::pervasive::VecAdditionalExecFns::set(params, i, p);
            proof {
                lemma_view_param_specs(params@);
                assert forall|j: int|
                    0 <= j < params@.len() implies view_param_specs(params@)[j] == vp.update(
                    i as int,
                    pv,
                )[j] by {
                    assert(view_param_specs(params@)[j] == params@[j]@);
                    if j != i {
                        assert(params@[j] == before[j]);
                        assert(vp[j] == before[j]@);
                    }
                }
                assert(view_param_specs(params@) =~= vp.update(i as int, pv));
                assert(view_param_specs(params@) == spec_upsert(vp, pv));
                assert(vp == view_param_specs(old(params)@));
            }
            return ;
        }
        i = i + 1;
    }
    proof {
        lemma_upsert_none(vp, p@);
    }
    let ghost pv = p@;
    let ghost before = params@;
    params.push(p);
    proof {
        lemma_view_param_specs(params@);
        assert forall|j: int|
            0 <= j < params@.len() implies view_param_specs(params@)[j] == vp.push(pv)[j] by {
            assert(view_param_specs(params@)[j] == params@[j]@);
            if j != i {
                assert(params@[j] == before[j]);
                assert(vp[j] == before[j]@);
            }
        }
        assert(view_param_specs(params@) =~= vp.push(pv));
        assert(view_param_specs(params@) == spec_upsert(vp, pv));
        assert(vp == view_param_specs(old(params)@));
    }
}

/// Folds a declared parameter list into an accumulator, later entries
/// overriding earlier ones by name and location.
pub open spec fn spec_collect_from_list(
    list: Seq<JsonV>,
    doc: JsonV,
    sp: Seq<char>,
    acc: Seq<ParameterSpecV>,
) -> Result<Seq<ParameterSpecV>, ErrorV>
    decreases list.len(),
{
    if list.len() == 0 {
        Ok(acc)
    } else {
        match spec_parse_parameter(list[0], doc, sp) {
            Err(e) => Err(e),
            Ok(None) => spec_collect_from_list(list.drop_first(), doc, sp, acc),
            Ok(Some(p)) => spec_collect_from_list(list.drop_first(), doc, sp, spec_upsert(acc, p)),
        }
    }
}

/// The declared parameter list of a path item or operation; anything else
/// counts as none.
pub open spec fn spec_param_list(v: JsonV) -> Seq<JsonV> {
    match json_get(v, "parameters"@) {
        Some(JsonV::Array(l)) => l,
        _ => Seq::<JsonV>::empty(),
    }
}

/// The operation's effective parameters: path-item parameters first, then
/// operation parameters, the latter overriding by name and location.
pub open spec fn spec_collect_parameters(
    path_item: JsonV,
    operation: JsonV,
    doc: JsonV,
    sp: Seq<char>,
) -> Result<Seq<ParameterSpecV>, ErrorV> {
    match spec_collect_from_list(
        spec_param_list(path_item),
        doc,
        sp,
        Seq::<ParameterSpecV>::empty(),
    ) {
        Err(e) => Err(e),
        Ok(acc) => spec_collect_from_list(spec_param_list(operation), doc, sp, acc),
    }
}

/// Folds the parameters declared in one list into `params`.
fn collect_from_list(
    list: &Vec<JsonValue>,
    doc: &JsonValue,
    spec_path: &str,
    params: &mut Vec<ParameterSpec>,
) -> (r: Result<(), Error>)
    ensures
        match r {
            Ok(_) => spec_collect_from_list(
                crate::json::view_list(list@),
                doc@,
                spec_path@,
                view_param_specs(old(params)@),
            ) == Ok::<Seq<ParameterSpecV>, ErrorV>(view_param_specs(final(params)@)),
            Err(e) => spec_collect_from_list(
                crate::json::view_list(list@),
                doc@,
                spec_path@,
                view_param_specs(old(params)@),
            ) == Err::<Seq<ParameterSpecV>, ErrorV>(e@),
        },
{
    proof {
        crate::json::lemma_view_list(list@);
    }
    let ghost vl = crate::json::view_list(list@);
    let ghost acc0 = view_param_specs(params@);
    proof {
        assert(vl.subrange(0, vl.len() as int) =~= vl);
    }
    let mut i: usize = 0;
    while i < list.len()
        invariant
            i <= list.len(),
            vl == crate::json::view_list(list@),
            vl.len() == list@.len(),
            forall|j: int| 0 <= j < list@.len() ==> vl[j] == #[trigger] list@[j]@,
            acc0 == view_param_specs(old(params)@),
            spec_collect_from_list(vl, doc@, spec_path@, acc0) == spec_collect_from_list(
                vl.subrange(i as int, vl.len() as int),
                doc@,
                spec_path@,
                view_param_specs(params@),
            ),
        decreases list.len() - i,
    {
        let ghost rest = vl.subrange(i as int, vl.len() as int);
        proof {
            assert(rest[0] == vl[i as int]);
            assert(rest.drop_first() =~= vl.subrange(i + 1 as int, vl.len() as int));
        }
        match parse_parameter(&list[i], doc, spec_path) {
            Err(e) => {
                proof {
                    assert(spec_collect_from_list(rest, doc@, spec_path@, view_param_specs(params@))
                        == Err::<Seq<ParameterSpecV>, ErrorV>(e@));
                    assert(acc0 == view_param_specs(old(params)@));
                }
                return Err(e);
            },
            Ok(Some(p)) => {
                upsert_parameter(params, p);
            },
            Ok(None) => {},
        }
        i = i + 1;
    }
    proof {
        assert(vl.subrange(list@.len() as int, vl.len() as int) =~= Seq::<JsonV>::empty());
    }
    Ok(())
}

/// Concatenates the path item's and the operation's parameter declarations,
/// operation entries overriding by name and location.
pub fn collect_parameters(
    path_item: &JsonValue,
    operation: &JsonValue,
    doc: &JsonValue,
    spec_path: &str,
) -> (r: Result<Vec<ParameterSpec>, Error>)
    ensures
        match r {
            Ok(ps) => spec_collect_parameters(path_item@, operation@, doc@, spec_path@) == Ok::<
                Seq<ParameterSpecV>,
                ErrorV,
            >(view_param_specs(ps@)),
            Err(e) => spec_collect_parameters(path_item@, operation@, doc@, spec_path@) == Err::<
                Seq<ParameterSpecV>,
                ErrorV,
            >(e@),
        },
{
    let mut params: Vec<ParameterSpec> = Vec::new();
    proof {
        assert(view_param_specs(params@) =~= Seq::<ParameterSpecV>::empty());
    }
    let empty_list: Vec<JsonValue> = Vec::new();
    proof {
        assert(crate::json::view_list(empty_list@) =~= Seq::<JsonV>::empty());
    }
    match path_item.get("parameters") {
        Some(pv) => match pv {
            JsonValue::Array(items) => {
                if let Err(e) = collect_from_list(items, doc, spec_path, &mut params) {
                    return Err(e);
                }
            },
            _ => {
                if let Err(e) = collect_from_list(&empty_list, doc, spec_path, &mut params) {
                    return Err(e);
                }
            },
        },
        None => {
            if let Err(e) = collect_from_list(&empty_list, doc, spec_path, &mut params) {
                return Err(e);
            }
        },
    }
    match operation.get("parameters") {
        Some(pv) => match pv {
            JsonValue::Array(items) => {
                if let Err(e) = collect_from_list(items, doc, spec_path, &mut params) {
                    return Err(e);
                }
            },
            _ => {
                if let Err(e) = collect_from_list(&empty_list, doc, spec_path, &mut params) {
                    return Err(e);
                }
            },
        },
        None => {
            if let Err(e) = collect_from_list(&empty_list, doc, spec_path, &mut params) {
                return Err(e);
            }
        },
    }
    Ok(params)
}

// ---------------------------------------------------------------------------
// Response schemas
// ---------------------------------------------------------------------------
pub open spec fn view_resp_entries(entries: Seq<(ResponseKey, JsonValue)>) -> Seq<
    (ResponseKey, JsonV),
>
    decreases entries,
{
    if entries.len() == 0 {
        Seq::<(ResponseKey, JsonV)>::empty()
    } else {
        seq![(entries[0].0, entries[0].1@)] + view_resp_entries(entries.drop_first())
    }
}

pub broadcast proof fn lemma_view_resp_entries(entries: Seq<(ResponseKey, JsonValue)>)
    ensures
        (#[trigger] view_resp_entries(entries)).len() == entries.len(),
        forall|i: int|
            0 <= i < entries.len() ==> view_resp_entries(entries)[i] == ((
            #[trigger] entries[i]).0, entries[i].1@),
    decreases entries,
{
    if entries.len() > 0 {
        lemma_view_resp_entries(entries.drop_first());
        assert(view_resp_entries(entries) == seq![(entries[0].0, entries[0].1@)]
            + view_resp_entries(entries.drop_first()));
        assert(forall|i: int|
            1 <= i < entries.len() ==> view_resp_entries(entries)[i] == view_resp_entries(
                entries.drop_first(),
            )[i - 1]);
        assert(forall|i: int|
            1 <= i < entries.len() ==> view_resp_entries(entries.drop_first())[i - 1] == ((
            #[trigger] entries.drop_first()[i - 1]).0,
            entries.drop_first()[i - 1].1@,
            ));
        assert(forall|i: int|
            1 <= i < entries.len() ==> entries.drop_first()[i - 1] == entries[i]);
    } else {
        assert(view_resp_entries(entries) == Seq::<(ResponseKey, JsonV)>::empty());
    }
}

/// Replaces the entry under a response key, or appends a new one.
pub open spec fn spec_upsert_response(
    acc: Seq<(ResponseKey, JsonV)>,
    k: ResponseKey,
    s: JsonV,
) -> Seq<(ResponseKey, JsonV)>
    decreases acc.len(),
{
    if acc.len() == 0 {
        seq![(k, s)]
    } else if acc[0].0 == k {
        seq![(k, s)] + acc.drop_first()
    } else {
        seq![acc[0]] + spec_upsert_response(acc.drop_first(), k, s)
    }
}

proof fn lemma_upsert_response_at(acc: Seq<(ResponseKey, JsonV)>, k: ResponseKey, s: JsonV, at: int)
    requires
        0 <= at < acc.len(),
        acc[at].0 == k,
        forall|j: int| 0 <= j < at ==> (#[trigger] acc[j]).0 != k,
    ensures
        spec_upsert_response(acc, k, s) =~= acc.update(at, (k, s)),
    decreases at,
{
    if at > 0 {
        lemma_upsert_response_at(acc.drop_first(), k, s, at - 1);
        assert(acc.drop_first().update(at - 1, (k, s)) =~= acc.update(at, (k, s)).drop_first());
    }
}

proof fn lemma_upsert_response_none(acc: Seq<(ResponseKey, JsonV)>, k: ResponseKey, s: JsonV)
    requires
        forall|j: int| 0 <= j < acc.len() ==> (#[trigger] acc[j]).0 != k,
    ensures
        spec_upsert_response(acc, k, s) =~= acc.push((k, s)),
    decreases acc.len(),
{
    if acc.len() > 0 {
        lemma_upsert_response_none(acc.drop_first(), k, s);
        assert(acc.drop_first().push((k, s)) =~= acc.push((k, s)).drop_first());
    }
}

/// Stores a response schema under its key, replacing an earlier one.
fn upsert_response(entries: &mut Vec<(ResponseKey, JsonValue)>, k: ResponseKey, s: JsonValue)
    ensures
        view_resp_entries(final(entries)@) == spec_upsert_response(
            view_resp_entries(old(entries)@),
            k,
            s@,
        ),
{
    proof {
        lemma_view_resp_entries(entries@);
    }
    let ghost ve = view_resp_entries(entries@);
    let mut i: usize = 0;
    while i < entries.len()
        invariant
            i <= entries.len(),
            ve == view_resp_entries(entries@),
            ve == view_resp_entries(old(entries)@),
            ve.len() == entries@.len(),
            forall|j: int|
                0 <= j < entries@.len() ==> ve[j] == ((#[trigger] entries@[j]).0, entries@[j].1@),
            forall|j: int| 0 <= j < i ==> (#[trigger] ve[j]).0 != k,
        decreases entries.len() - i,
    {
        if entries[i].0 == k {
            proof {
                lemma_upsert_response_at(ve, k, s@, i as int);
            }
            let ghost sv = s@;
            let ghost before = entries@;
            vstd::pervasive::VecAdditionalExecFns::set(entries, i, (k, s));
            proof {
                lemma_view_resp_entries(entries@);
                assert forall|j: int|
                    0 <= j < entries@.len() implies view_resp_entries(entries@)[j] == ve.update(
                    i as int,
                    (k, sv),
                )[j] by {
                    assert(view_resp_entries(entries@)[j] == (entries@[j].0, entries@[j].1@));
                    if j != i {
                        assert(entries@[j] == before[j]);
                        assert(ve[j] == (before[j].0, before[j].1@));
                    }
                }
                assert(view_resp_entries(entries@) =~= ve.update(i as int, (k, sv)));
            }
            return ;
        }
        i = i + 1;
    }
    proof {
        lemma_upsert_response_none(ve, k, s@);
    }
    let ghost sv = s@;
    let ghost before = entries@;
    entries.push((k, s));
    proof {
        lemma_view_resp_entries(entries@);
        assert forall|j: int|
            0 <= j < entries@.len() implies view_resp_entries(entries@)[j] == ve.push(
            (k, sv),
        )[j] by {
            assert(view_resp_entries(entries@)[j] == (entries@[j].0, entries@[j].1@));
            if j != i {
                assert(entries@[j] == before[j]);
                assert(ve[j] == (before[j].0, before[j].1@));
            }
        }
        assert(view_resp_entries(entries@) =~= ve.push((k, sv)));
    }
}

/// What one member of the `responses` object contributes to the accumulator:
/// a deep-resolved schema under its key, or nothing where it declares no JSON
/// content, a schemaless media type, or an unusable key.
pub open spec fn spec_fold_responses(
    fields: Seq<(Seq<char>, JsonV)>,
    doc: JsonV,
    sp: Seq<char>,
    acc: Seq<(ResponseKey, JsonV)>,
) -> Result<Seq<(ResponseKey, JsonV)>, ErrorV>
    decreases fields.len(),
{
    if fields.len() == 0 {
        Ok(acc)
    } else {
        let key_raw = fields[0].0;
        match spec_resolve_reference(fields[0].1, doc, sp) {
            Err(e) => Err(e),
            Ok(resp) => match json_get(resp, "content"@) {
                Some(JsonV::Object(cf)) => match spec_select_json_media(cf) {
                    Some(media) => match media {
                        JsonV::Object(mf) => match obj_first(mf, "schema"@) {
                            Some(sv) => match spec_resolve_schema(
                                sv,
                                doc,
                                sp,
                                REF_RESOLUTION_LIMIT as nat,
                            ) {
                                Err(e) => Err(e),
                                Ok(rs) => match spec_parse_response_key(key_raw) {
                                    Some(k) => spec_fold_responses(
                                        fields.drop_first(),
                                        doc,
                                        sp,
                                        spec_upsert_response(acc, k, rs),
                                    ),
                                    None => spec_fold_responses(fields.drop_first(), doc, sp, acc),
                                },
                            },
                            None => spec_fold_responses(fields.drop_first(), doc, sp, acc),
                        },
                        _ => Err(
                            ErrorV::OpenApiSemantic {
                                path: sp,
                                message: "response media type must be an object"@,
                            },
                        ),
                    },
                    None => spec_fold_responses(fields.drop_first(), doc, sp, acc),
                },
                _ => spec_fold_responses(fields.drop_first(), doc, sp, acc),
            },
        }
    }
}

/// The response schemas an operation declares, keyed by status or default.
pub open spec fn spec_extract_responses(operation: JsonV, doc: JsonV, sp: Seq<char>) -> Result<
    Seq<(ResponseKey, JsonV)>,
    ErrorV,
> {
    match json_get(operation, "responses"@) {
        Some(JsonV::Object(rf)) => spec_fold_responses(
            rf,
            doc,
            sp,
            Seq::<(ResponseKey, JsonV)>::empty(),
        ),
        _ => Ok(Seq::<(ResponseKey, JsonV)>::empty()),
    }
}

/// Extracts and deep-resolves the response schemas of an operation.
pub fn extract_response_schemas(operation: &JsonValue, doc: &JsonValue, spec_path: &str) -> (r:
    Result<Vec<(ResponseKey, JsonValue)>, Error>)
    ensures
        match r {
            Ok(out) => spec_extract_responses(operation@, doc@, spec_path@) == Ok::<
                Seq<(ResponseKey, JsonV)>,
                ErrorV,
            >(view_resp_entries(out@)),
            Err(e) => spec_extract_responses(operation@, doc@, spec_path@) == Err::<
                Seq<(ResponseKey, JsonV)>,
                ErrorV,
            >(e@),
        },
{
    let mut out: Vec<(ResponseKey, JsonValue)> = Vec::new();
    proof {
        assert(view_resp_entries(out@) =~= Seq::<(ResponseKey, JsonV)>::empty());
    }
    let responses = match operation.get("responses") {
        Some(rv) => rv,
        None => {
            return Ok(out);
        },
    };
    let fields = match responses {
        JsonValue::Object(rf) => rf,
        _ => {
            return Ok(out);
        },
    };
    proof {
        crate::json::lemma_view_fields(fields@);
    }
    let ghost vf = crate::json::view_fields(fields@);
    proof {
        assert(vf.subrange(0, vf.len() as int) =~= vf);
    }
    let mut i: usize = 0;
    while i < fields.len()
        invariant
            i <= fields.len(),
            vf == crate::json::view_fields(fields@),
            vf.len() == fields@.len(),
            json_get(operation@, "responses"@) == Some(JsonV::Object(vf)),
            forall|j: int|
                0 <= j < fields@.len() ==> vf[j] == ((#[trigger] fields@[j]).0@, fields@[j].1@),
            spec_fold_responses(vf, doc@, spec_path@, Seq::<(ResponseKey, JsonV)>::empty())
                == spec_fold_responses(
                vf.subrange(i as int, vf.len() as int),
                doc@,
                spec_path@,
                view_resp_entries(out@),
            ),
        decreases fields.len() - i,
    {
        let ghost rest = vf.subrange(i as int, vf.len() as int);
        proof {
            assert(rest[0] == vf[i as int]);
            assert(rest.drop_first() =~= vf.subrange(i + 1 as int, vf.len() as int));
        }
        let resp = match resolve_reference(&fields[i].1, doc, spec_path) {
            Ok(x) => x,
            Err(e) => {
                proof {
                    assert(spec_fold_responses(rest, doc@, spec_path@, view_resp_entries(out@))
                        == Err::<Seq<(ResponseKey, JsonV)>, ErrorV>(e@));
                }
                return Err(e);
            },
        };
        match resp.get("content") {
            Some(content) => {
                match content {
                    JsonValue::Object(cf) => {
                        match select_json_media_type(cf) {
                            Some(media) => {
                                if !media.is_object() {
                                    let err = Error::OpenApiSemantic {
                                        path: spec_path.to_owned(),
                                        message: "response media type must be an object".to_owned(),
                                    };
                                    proof {
                                        assert(spec_fold_responses(
                                            rest,
                                            doc@,
                                            spec_path@,
                                            view_resp_entries(out@),
                                        ) == Err::<Seq<(ResponseKey, JsonV)>, ErrorV>(err@));
                                    }
                                    return Err(err);
                                }
                                match media.get("schema") {
                                    Some(sv) => {
                                        let rs = match resolve_schema_value(
                                            sv,
                                            doc,
                                            spec_path,
                                            REF_RESOLUTION_LIMIT,
                                        ) {
                                            Ok(x) => x,
                                            Err(e) => {
                                                proof {
                                                    assert(spec_fold_responses(
                                                        rest,
                                                        doc@,
                                                        spec_path@,
                                                        view_resp_entries(out@),
                                                    ) == Err::<
                                                        Seq<(ResponseKey, JsonV)>,
                                                        ErrorV,
                                                    >(e@));
                                                }
                                                return Err(e);
                                            },
                                        };
                                        match parse_response_key(fields[i].0.as_str()) {
                                            Some(k) => {
                                                upsert_response(&mut out, k, rs);
                                            },
                                            None => {},
                                        }
                                    },
                                    None => {},
                                }
                            },
                            None => {},
                        }
                    },
                    _ => {},
                }
            },
            None => {},
        }
        i = i + 1;
    }
    proof {
        assert(vf.subrange(fields@.len() as int, vf.len() as int) =~= Seq::<
            (Seq<char>, JsonV),
        >::empty());
    }
    Ok(out)
}

// ---------------------------------------------------------------------------
// Locating the operation
// ---------------------------------------------------------------------------
/// An operation located in the spec, its pieces deep-resolved and ready to
/// compile.
pub struct OperationMatch {
    pub path: String,
    pub body_required: bool,
    pub schema: Option<JsonValue>,
    pub parameters: Vec<ParameterSpec>,
    pub responses: Vec<(ResponseKey, JsonValue)>,
}

pub struct OperationMatchV {
    pub path: Seq<char>,
    pub body_required: bool,
    pub schema: Option<JsonV>,
    pub parameters: Seq<ParameterSpecV>,
    pub responses: Seq<(ResponseKey, JsonV)>,
}

impl View for OperationMatch {
    type V = OperationMatchV;

    open spec fn view(&self) -> OperationMatchV {
        OperationMatchV {
            path: self.path@,
            body_required: self.body_required,
            schema: match self.schema {
                Some(s) => Some(s@),
                None => None,
            },
            parameters: view_param_specs(self.parameters@),
            responses: view_resp_entries(self.responses@),
        }
    }
}

/// The operation distilled: its request-body schema deep-resolved, the
/// effective parameters, and the response schemas.
pub open spec fn spec_build_operation(
    tpl: Seq<char>,
    path_item: JsonV,
    operation: JsonV,
    doc: JsonV,
    sp: Seq<char>,
) -> Result<OperationMatchV, ErrorV> {
    match spec_extract_request_body(operation, doc, sp) {
        Err(e) => Err(e),
        Ok(body) => {
            let schema_r = match body.0 {
                None => Ok(None),
                Some(sv) => match spec_resolve_schema(sv, doc, sp, REF_RESOLUTION_LIMIT as nat) {
                    Ok(rs) => Ok(Some(rs)),
                    Err(e) => Err(e),
                },
            };
            match schema_r {
                Err(e) => Err(e),
                Ok(schema) => match spec_collect_parameters(path_item, operation, doc, sp) {
                    Err(e) => Err(e),
                    Ok(params) => match spec_extract_responses(operation, doc, sp) {
                        Err(e) => Err(e),
                        Ok(resps) => Ok(
                            OperationMatchV {
                                path: tpl,
                                body_required: body.1,
                                schema,
                                parameters: params,
                                responses: resps,
                            },
                        ),
                    },
                },
            }
        },
    }
}

/// Distills one located operation into an [`OperationMatch`].
pub fn build_operation_match(
    tpl: &str,
    path_item: &JsonValue,
    operation: &JsonValue,
    doc: &JsonValue,
    spec_path: &str,
) -> (r: Result<OperationMatch, Error>)
    ensures
        match r {
            Ok(m) => spec_build_operation(tpl@, path_item@, operation@, doc@, spec_path@) == Ok::<
                OperationMatchV,
                ErrorV,
            >(m@),
            Err(e) => spec_build_operation(tpl@, path_item@, operation@, doc@, spec_path@) == Err::<
                OperationMatchV,
                ErrorV,
            >(e@),
        },
{
    let body = match extract_request_body_info(operation, doc, spec_path) {
        Ok(b) => b,
        Err(e) => {
            return Err(e);
        },
    };
    let schema = match body.0 {
        None => None,
        Some(sv) => match resolve_schema_value(sv, doc, spec_path, REF_RESOLUTION_LIMIT) {
            Ok(rs) => Some(rs),
            Err(e) => {
                return Err(e);
            },
        },
    };
    let parameters = match collect_parameters(path_item, operation, doc, spec_path) {
        Ok(ps) => ps,
        Err(e) => {
            return Err(e);
        },
    };
    let responses = match extract_response_schemas(operation, doc, spec_path) {
        Ok(rs) => rs,
        Err(e) => {
            return Err(e);
        },
    };
    Ok(
        OperationMatch {
            path: tpl.to_owned(),
            body_required: body.1,
            schema,
            parameters,
            responses,
        },
    )
}

/// The lowercased HTTP method names an OpenAPI path item can carry, in the
/// order they are searched.
pub open spec fn method_keys() -> Seq<Seq<char>> {
    seq!["get"@, "put"@, "post"@, "delete"@, "options"@, "head"@, "patch"@, "trace"@]
}

fn method_key_at(k: usize) -> (r: &'static str)
    requires
        k < 8,
    ensures
        r@ == method_keys()[k as int],
{
    if k == 0 {
        "get"
    } else if k == 1 {
        "put"
    } else if k == 2 {
        "post"
    } else if k == 3 {
        "delete"
    } else if k == 4 {
        "options"
    } else if k == 5 {
        "head"
    } else if k == 6 {
        "patch"
    } else {
        "trace"
    }
}

/// Scans one path item's method members for the operation with the given id:
/// the match, an error where it stands at the wrong method or template, or
/// nothing where the id is not here.
pub open spec fn spec_scan_methods(
    pi: JsonV,
    tpl: Seq<char>,
    keys: Seq<Seq<char>>,
    id: Seq<char>,
    method: Seq<char>,
    route: Seq<char>,
    doc: JsonV,
    sp: Seq<char>,
) -> Result<Option<OperationMatchV>, ErrorV>
    decreases keys.len(),
{
    if keys.len() == 0 {
        Ok(None)
    } else {
        match json_get(pi, keys[0]) {
            None => spec_scan_methods(pi, tpl, keys.drop_first(), id, method, route, doc, sp),
            Some(ov) => match spec_resolve_reference(ov, doc, sp) {
                Err(e) => Err(e),
                Ok(op) => match json_get(op, "operationId"@) {
                    Some(JsonV::Str(oid)) => if oid == id {
                        if keys[0] != method {
                            Err(
                                ErrorV::OpenApiSemantic {
                                    path: sp,
                                    message: "operation '"@ + id + "' uses HTTP method '"@ + keys[0]
                                        + "', not '"@ + method + "'"@,
                                },
                            )
                        } else if !spec_paths_match(route, tpl) {
                            Err(
                                ErrorV::OpenApiSemantic {
                                    path: sp,
                                    message: "operation '"@ + id + "' is defined at '"@ + tpl
                                        + "' which does not match route '"@ + route + "'"@,
                                },
                            )
                        } else {
                            match spec_build_operation(tpl, pi, op, doc, sp) {
                                Ok(m) => Ok(Some(m)),
                                Err(e) => Err(e),
                            }
                        }
                    } else {
                        spec_scan_methods(pi, tpl, keys.drop_first(), id, method, route, doc, sp)
                    },
                    _ => spec_scan_methods(pi, tpl, keys.drop_first(), id, method, route, doc, sp),
                },
            },
        }
    }
}

/// Scans one path item's method members from position `k` of the key list.
fn scan_methods(
    tpl: &str,
    path_item: &JsonValue,
    k: usize,
    target_id: &str,
    method: &str,
    route_path: &str,
    doc: &JsonValue,
    spec_path: &str,
) -> (r: Result<Option<OperationMatch>, Error>)
    requires
        k <= 8,
    ensures
        match r {
            Ok(Some(m)) => spec_scan_methods(
                path_item@,
                tpl@,
                method_keys().subrange(k as int, 8),
                target_id@,
                method@,
                route_path@,
                doc@,
                spec_path@,
            ) == Ok::<Option<OperationMatchV>, ErrorV>(Some(m@)),
            Ok(None) => spec_scan_methods(
                path_item@,
                tpl@,
                method_keys().subrange(k as int, 8),
                target_id@,
                method@,
                route_path@,
                doc@,
                spec_path@,
            ) == Ok::<Option<OperationMatchV>, ErrorV>(None),
            Err(e) => spec_scan_methods(
                path_item@,
                tpl@,
                method_keys().subrange(k as int, 8),
                target_id@,
                method@,
                route_path@,
                doc@,
                spec_path@,
            ) == Err::<Option<OperationMatchV>, ErrorV>(e@),
        },
    decreases 8 - k,
{
    let ghost keys = method_keys().subrange(k as int, 8);
    if k == 8 {
        proof {
            assert(keys =~= Seq::<Seq<char>>::empty());
        }
        return Ok(None);
    }
    proof {
        assert(keys[0] == method_keys()[k as int]);
        assert(keys.drop_first() =~= method_keys().subrange(k + 1 as int, 8));
    }
    let key = method_key_at(k);
    let ov = match path_item.get(key) {
        None => {
            return scan_methods(
                tpl,
                path_item,
                k + 1,
                target_id,
                method,
                route_path,
                doc,
                spec_path,
            );
        },
        Some(x) => x,
    };
    let op = match resolve_reference(ov, doc, spec_path) {
        Ok(x) => x,
        Err(e) => {
            return Err(e);
        },
    };
    let oid = match op.get("operationId") {
        Some(x) => match x.as_str() {
            Some(s) => s,
            None => {
                return scan_methods(
                    tpl,
                    path_item,
                    k + 1,
                    target_id,
                    method,
                    route_path,
                    doc,
                    spec_path,
                );
            },
        },
        None => {
            return scan_methods(
                tpl,
                path_item,
                k + 1,
                target_id,
                method,
                route_path,
                doc,
                spec_path,
            );
        },
    };
    if !(oid.clone() == target_id.to_owned()) {
        return scan_methods(tpl, path_item, k + 1, target_id, method, route_path, doc, spec_path);
    }
    if !(key.to_owned() == method.to_owned()) {
        let msg = {
            let mut m = crate::strutil::concat5(
                "operation '",
                target_id,
                "' uses HTTP method '",
                key,
                "', not '",
            );
            m.append(method);
            m.append("'");
            m
        };
        return Err(Error::OpenApiSemantic { path: spec_path.to_owned(), message: msg });
    }
    if !paths_match(route_path, tpl) {
        let msg = {
            let mut m = crate::strutil::concat5(
                "operation '",
                target_id,
                "' is defined at '",
                tpl,
                "' which does not match route '",
            );
            m.append(route_path);
            m.append("'");
            m
        };
        return Err(Error::OpenApiSemantic { path: spec_path.to_owned(), message: msg });
    }
    match build_operation_match(tpl, path_item, op, doc, spec_path) {
        Ok(m) => Ok(Some(m)),
        Err(e) => Err(e),
    }
}

/// Locates an operation by its id: the first one declared under `paths`, in
/// document order, then method-key order.
pub open spec fn spec_find_by_opid(
    paths: Seq<(Seq<char>, JsonV)>,
    id: Seq<char>,
    method: Seq<char>,
    route: Seq<char>,
    doc: JsonV,
    sp: Seq<char>,
) -> Result<OperationMatchV, ErrorV>
    decreases paths.len(),
{
    if paths.len() == 0 {
        Err(
            ErrorV::OpenApiSemantic {
                path: sp,
                message: "operation '"@ + id + "' was not found"@,
            },
        )
    } else {
        match spec_resolve_reference(paths[0].1, doc, sp) {
            Err(e) => Err(e),
            Ok(pi) => if !(pi is Object) {
                Err(
                    ErrorV::OpenApiSemantic {
                        path: sp,
                        message: "Path item '"@ + paths[0].0 + "' is not an object"@,
                    },
                )
            } else {
                match spec_scan_methods(pi, paths[0].0, method_keys(), id, method, route, doc, sp) {
                    Err(e) => Err(e),
                    Ok(Some(m)) => Ok(m),
                    Ok(None) => spec_find_by_opid(paths.drop_first(), id, method, route, doc, sp),
                }
            },
        }
    }
}

/// Walks the paths entries from position `i` looking for the operation id.
fn find_by_opid_from(
    paths: &Vec<(String, JsonValue)>,
    i: usize,
    id: &str,
    method: &str,
    route_path: &str,
    doc: &JsonValue,
    spec_path: &str,
) -> (r: Result<OperationMatch, Error>)
    requires
        i <= paths.len(),
        crate::json::view_fields(paths@).len() == paths@.len(),
        forall|j: int|
            0 <= j < paths@.len() ==> crate::json::view_fields(paths@)[j] == ((
            #[trigger] paths@[j]).0@,
            paths@[j].1@,
            ),
    ensures
        match r {
            Ok(m) => spec_find_by_opid(
                crate::json::view_fields(paths@).subrange(i as int, paths@.len() as int),
                id@,
                method@,
                route_path@,
                doc@,
                spec_path@,
            ) == Ok::<OperationMatchV, ErrorV>(m@),
            Err(e) => spec_find_by_opid(
                crate::json::view_fields(paths@).subrange(i as int, paths@.len() as int),
                id@,
                method@,
                route_path@,
                doc@,
                spec_path@,
            ) == Err::<OperationMatchV, ErrorV>(e@),
        },
    decreases paths.len() - i,
{
    let ghost vf = crate::json::view_fields(paths@);
    let ghost rest = vf.subrange(i as int, paths@.len() as int);
    if i == paths.len() {
        proof {
            assert(rest =~= Seq::<(Seq<char>, JsonV)>::empty());
        }
        return Err(
            Error::OpenApiSemantic {
                path: spec_path.to_owned(),
                message: crate::strutil::concat3("operation '", id, "' was not found"),
            },
        );
    }
    proof {
        assert(rest[0] == vf[i as int]);
        assert(rest.drop_first() =~= vf.subrange(i + 1 as int, paths@.len() as int));
    }
    let pi = match resolve_reference(&paths[i].1, doc, spec_path) {
        Ok(x) => x,
        Err(e) => {
            return Err(e);
        },
    };
    if !pi.is_object() {
        return Err(
            Error::OpenApiSemantic {
                path: spec_path.to_owned(),
                message: crate::strutil::concat3(
                    "Path item '",
                    paths[i].0.as_str(),
                    "' is not an object",
                ),
            },
        );
    }
    match scan_methods(paths[i].0.as_str(), pi, 0, id, method, route_path, doc, spec_path) {
        Err(e) => {
            proof {
                assert(method_keys().subrange(0, 8) =~= method_keys());
            }
            Err(e)
        },
        Ok(Some(m)) => {
            proof {
                assert(method_keys().subrange(0, 8) =~= method_keys());
            }
            Ok(m)
        },
        Ok(None) => {
            proof {
                assert(method_keys().subrange(0, 8) =~= method_keys());
            }
            find_by_opid_from(paths, i + 1, id, method, route_path, doc, spec_path)
        },
    }
}

/// Locates an operation by route template and method: the first paths entry
/// whose template matches the route and declares the method.
pub open spec fn spec_find_by_path(
    paths: Seq<(Seq<char>, JsonV)>,
    route: Seq<char>,
    method: Seq<char>,
    doc: JsonV,
    sp: Seq<char>,
) -> Result<OperationMatchV, ErrorV>
    decreases paths.len(),
{
    if paths.len() == 0 {
        Err(
            ErrorV::OpenApiSemantic {
                path: sp,
                message: "no OpenAPI operation for '"@ + crate::strutil::to_upper(method) + "' "@
                    + route,
            },
        )
    } else if spec_paths_match(route, paths[0].0) {
        match spec_resolve_reference(paths[0].1, doc, sp) {
            Err(e) => Err(e),
            Ok(pi) => if !(pi is Object) {
                Err(
                    ErrorV::OpenApiSemantic {
                        path: sp,
                        message: "Path item '"@ + paths[0].0 + "' is not an object"@,
                    },
                )
            } else {
                match json_get(pi, method) {
                    Some(ov) => match spec_resolve_reference(ov, doc, sp) {
                        Err(e) => Err(e),
                        Ok(op) => spec_build_operation(paths[0].0, pi, op, doc, sp),
                    },
                    None => spec_find_by_path(paths.drop_first(), route, method, doc, sp),
                }
            },
        }
    } else {
        spec_find_by_path(paths.drop_first(), route, method, doc, sp)
    }
}

/// Walks the paths entries from position `i` looking for a matching template
/// that declares the method.
fn find_by_path_from(
    paths: &Vec<(String, JsonValue)>,
    i: usize,
    route_path: &str,
    method: &str,
    doc: &JsonValue,
    spec_path: &str,
) -> (r: Result<OperationMatch, Error>)
    requires
        i <= paths.len(),
        crate::json::view_fields(paths@).len() == paths@.len(),
        forall|j: int|
            0 <= j < paths@.len() ==> crate::json::view_fields(paths@)[j] == ((
            #[trigger] paths@[j]).0@,
            paths@[j].1@,
            ),
    ensures
        match r {
            Ok(m) => spec_find_by_path(
                crate::json::view_fields(paths@).subrange(i as int, paths@.len() as int),
                route_path@,
                method@,
                doc@,
                spec_path@,
            ) == Ok::<OperationMatchV, ErrorV>(m@),
            Err(e) => spec_find_by_path(
                crate::json::view_fields(paths@).subrange(i as int, paths@.len() as int),
                route_path@,
                method@,
                doc@,
                spec_path@,
            ) == Err::<OperationMatchV, ErrorV>(e@),
        },
    decreases paths.len() - i,
{
    let ghost vf = crate::json::view_fields(paths@);
    let ghost rest = vf.subrange(i as int, paths@.len() as int);
    if i == paths.len() {
        proof {
            assert(rest =~= Seq::<(Seq<char>, JsonV)>::empty());
        }
        let upper = crate::strutil::ascii_upper(method);
        let mut msg = "no OpenAPI operation for '".to_owned();
        msg.append(upper.as_str());
        msg.append("' ");
        msg.append(route_path);
        return Err(Error::OpenApiSemantic { path: spec_path.to_owned(), message: msg });
    }
    proof {
        assert(rest[0] == vf[i as int]);
        assert(rest.drop_first() =~= vf.subrange(i + 1 as int, paths@.len() as int));
    }
    if !paths_match(route_path, paths[i].0.as_str()) {
        return find_by_path_from(paths, i + 1, route_path, method, doc, spec_path);
    }
    let pi = match resolve_reference(&paths[i].1, doc, spec_path) {
        Ok(x) => x,
        Err(e) => {
            return Err(e);
        },
    };
    if !pi.is_object() {
        return Err(
            Error::OpenApiSemantic {
                path: spec_path.to_owned(),
                message: crate::strutil::concat3(
                    "Path item '",
                    paths[i].0.as_str(),
                    "' is not an object",
                ),
            },
        );
    }
    let ov = match pi.get(method) {
        Some(x) => x,
        None => {
            return find_by_path_from(paths, i + 1, route_path, method, doc, spec_path);
        },
    };
    let op = match resolve_reference(ov, doc, spec_path) {
        Ok(x) => x,
        Err(e) => {
            return Err(e);
        },
    };
    build_operation_match(paths[i].0.as_str(), pi, op, doc, spec_path)
}

/// What the loader finds for a query: by operation id where one is given, else
/// by route template and method; a document without a `paths` object is an
/// error.
pub open spec fn spec_find_operation(
    doc: JsonV,
    route: Seq<char>,
    method: Seq<char>,
    opid: Option<Seq<char>>,
    sp: Seq<char>,
) -> Result<OperationMatchV, ErrorV> {
    match json_get(doc, "paths"@) {
        Some(JsonV::Object(paths)) => match opid {
            Some(id) => spec_find_by_opid(paths, id, method, route, doc, sp),
            None => spec_find_by_path(paths, route, method, doc, sp),
        },
        _ => Err(
            ErrorV::OpenApiSemantic {
                path: sp,
                message: "OpenAPI document missing 'paths' section"@,
            },
        ),
    }
}

/// Locates the operation a route queries, by id or by template and method.
pub fn find_operation(
    doc: &JsonValue,
    route_path: &str,
    method: &str,
    operation_id: Option<&str>,
    spec_path: &str,
) -> (r: Result<OperationMatch, Error>)
    ensures
        match r {
            Ok(m) => spec_find_operation(
                doc@,
                route_path@,
                method@,
                match operation_id {
                    Some(id) => Some(id@),
                    None => None,
                },
                spec_path@,
            ) == Ok::<OperationMatchV, ErrorV>(m@),
            Err(e) => spec_find_operation(
                doc@,
                route_path@,
                method@,
                match operation_id {
                    Some(id) => Some(id@),
                    None => None,
                },
                spec_path@,
            ) == Err::<OperationMatchV, ErrorV>(e@),
        },
{
    let paths_val = match doc.get("paths") {
        Some(p) => p,
        None => {
            return Err(
                Error::OpenApiSemantic {
                    path: spec_path.to_owned(),
                    message: "OpenAPI document missing 'paths' section".to_owned(),
                },
            );
        },
    };
    let paths = match paths_val {
        JsonValue::Object(pf) => pf,
        _ => {
            return Err(
                Error::OpenApiSemantic {
                    path: spec_path.to_owned(),
                    message: "OpenAPI document missing 'paths' section".to_owned(),
                },
            );
        },
    };
    proof {
        crate::json::lemma_view_fields(paths@);
        assert(crate::json::view_fields(paths@).subrange(
            0,
            paths@.len() as int,
        ) =~= crate::json::view_fields(paths@));
    }
    match operation_id {
        Some(id) => find_by_opid_from(paths, 0, id, method, route_path, doc, spec_path),
        None => find_by_path_from(paths, 0, route_path, method, doc, spec_path),
    }
}

// ---------------------------------------------------------------------------
// The validation plan
// ---------------------------------------------------------------------------
/// One parameter's validator: its compiled schema and the primitive coercion
/// its declared type calls for.
pub struct ParameterValidator {
    pub name: String,
    pub location: ParameterLocation,
    pub required: bool,
    pub schema: Option<CompiledSchema>,
    pub value_type: Option<PrimitiveType>,
}

pub struct ParameterValidatorV {
    pub name: Seq<char>,
    pub location: ParameterLocation,
    pub required: bool,
    pub schema: Option<JsonV>,
    pub value_type: Option<PrimitiveType>,
}

impl View for ParameterValidator {
    type V = ParameterValidatorV;

    open spec fn view(&self) -> ParameterValidatorV {
        ParameterValidatorV {
            name: self.name@,
            location: self.location,
            required: self.required,
            schema: match self.schema {
                Some(s) => Some(s@),
                None => None,
            },
            value_type: self.value_type,
        }
    }
}

impl ParameterValidator {
    /// A copy sharing the same compiled schema handle.
    pub fn duplicate(&self) -> (r: Self)
        ensures
            r.name == self.name,
            r.location == self.location,
            r.required == self.required,
            r.schema == self.schema,
            r.value_type == self.value_type,
    {
        ParameterValidator {
            name: self.name.clone(),
            location: self.location,
            required: self.required,
            schema: match &self.schema {
                Some(s) => Some(s.share()),
                None => None,
            },
            value_type: self.value_type,
        }
    }

    /// Coerces a raw textual parameter value as the validator's primitive type
    /// reads it: a signed 64-bit integer, a number (the text normalized toward
    /// the JSON grammar — a leading plus dropped, a bare leading or trailing
    /// dot padded — then read by the engine; non-finite values fail), a strict
    /// boolean, or the text itself where no primitive type applies.
    pub fn coerce_value(&self, raw: &str) -> (r: Result<JsonValue, String>)
        ensures
            match r {
                Ok(v) => spec_coerce(self.value_type, self@.name, raw@) == Ok::<JsonV, Seq<char>>(
                    v@,
                ),
                Err(e) => spec_coerce(self.value_type, self@.name, raw@) == Err::<
                    JsonV,
                    Seq<char>,
                >(e@),
            },
    {
        match self.value_type {
            Some(PrimitiveType::Integer) => match crate::strutil::parse_i64(raw) {
                Some(v) => Ok(JsonValue::Number(crate::strutil::i64_to_string(v))),
                None => Err(
                    crate::strutil::concat3(
                        "Failed to parse integer for parameter '",
                        self.name.as_str(),
                        "'",
                    ),
                ),
            },
            Some(PrimitiveType::Number) => {
                let normalized = crate::strutil::normalize_number_token(raw);
                match crate::trusted::parse_number_token(normalized.as_str()) {
                    Some(t) => Ok(JsonValue::Number(t)),
                    None => Err(
                        crate::strutil::concat3(
                            "Failed to parse number for parameter '",
                            self.name.as_str(),
                            "'",
                        ),
                    ),
                }
            },
            Some(PrimitiveType::Boolean) => {
                let raw_owned = raw.to_owned();
                if raw_owned == "true".to_owned() {
                    Ok(JsonValue::Bool(true))
                } else if raw_owned == "false".to_owned() {
                    Ok(JsonValue::Bool(false))
                } else {
                    Err(
                        crate::strutil::concat3(
                            "Failed to parse boolean for parameter '",
                            self.name.as_str(),
                            "'",
                        ),
                    )
                }
            },
            None => Ok(JsonValue::Str(raw.to_owned())),
        }
    }
}

/// What coercion yields for each primitive kind, or the exact error message.
pub open spec fn spec_coerce(
    vt: Option<PrimitiveType>,
    name: Seq<char>,
    raw: Seq<char>,
) -> Result<JsonV, Seq<char>> {
    match vt {
        Some(PrimitiveType::Integer) => match crate::strutil::i64_of_str(raw) {
            Some(v) => Ok(JsonV::Number(crate::strutil::i64_string(v))),
            None => Err("Failed to parse integer for parameter '"@ + name + "'"@),
        },
        Some(PrimitiveType::Number) => match crate::trusted::number_token_of(
            crate::strutil::normalize_number_text(raw),
        ) {
            Some(t) => Ok(JsonV::Number(t)),
            None => Err("Failed to parse number for parameter '"@ + name + "'"@),
        },
        Some(PrimitiveType::Boolean) => if raw == "true"@ {
            Ok(JsonV::Bool(true))
        } else if raw == "false"@ {
            Ok(JsonV::Bool(false))
        } else {
            Err("Failed to parse boolean for parameter '"@ + name + "'"@)
        },
        None => Ok(JsonV::Str(raw)),
    }
}

pub open spec fn view_validators(vs: Seq<ParameterValidator>) -> Seq<ParameterValidatorV>
    decreases vs,
{
    if vs.len() == 0 {
        Seq::<ParameterValidatorV>::empty()
    } else {
        seq![vs[0]@] + view_validators(vs.drop_first())
    }
}

pub broadcast proof fn lemma_view_validators(vs: Seq<ParameterValidator>)
    ensures
        (#[trigger] view_validators(vs)).len() == vs.len(),
        forall|i: int| 0 <= i < vs.len() ==> view_validators(vs)[i] == #[trigger] vs[i]@,
    decreases vs,
{
    if vs.len() > 0 {
        lemma_view_validators(vs.drop_first());
        assert(view_validators(vs) == seq![vs[0]@] + view_validators(vs.drop_first()));
        assert(forall|i: int|
            1 <= i < vs.len() ==> view_validators(vs)[i] == view_validators(vs.drop_first())[i - 1]);
        assert(forall|i: int|
            1 <= i < vs.len() ==> view_validators(vs.drop_first())[i - 1]
                == #[trigger] vs.drop_first()[i - 1]@);
        assert(forall|i: int| 1 <= i < vs.len() ==> vs.drop_first()[i - 1] == vs[i]);
    } else {
        assert(view_validators(vs) == Seq::<ParameterValidatorV>::empty());
    }
}

pub open spec fn view_plan_responses(entries: Seq<(ResponseKey, CompiledSchema)>) -> Seq<
    (ResponseKey, JsonV),
>
    decreases entries,
{
    if entries.len() == 0 {
        Seq::<(ResponseKey, JsonV)>::empty()
    } else {
        seq![(entries[0].0, entries[0].1@)] + view_plan_responses(entries.drop_first())
    }
}

pub broadcast proof fn lemma_view_plan_responses(entries: Seq<(ResponseKey, CompiledSchema)>)
    ensures
        (#[trigger] view_plan_responses(entries)).len() == entries.len(),
        forall|i: int|
            0 <= i < entries.len() ==> view_plan_responses(entries)[i] == ((
            #[trigger] entries[i]).0, entries[i].1@),
    decreases entries,
{
    if entries.len() > 0 {
        lemma_view_plan_responses(entries.drop_first());
        assert(view_plan_responses(entries) == seq![(entries[0].0, entries[0].1@)]
            + view_plan_responses(entries.drop_first()));
        assert(forall|i: int|
            1 <= i < entries.len() ==> view_plan_responses(entries)[i] == view_plan_responses(
                entries.drop_first(),
            )[i - 1]);
        assert(forall|i: int|
            1 <= i < entries.len() ==> view_plan_responses(entries.drop_first())[i - 1] == ((
            #[trigger] entries.drop_first()[i - 1]).0,
            entries.drop_first()[i - 1].1@,
            ));
        assert(forall|i: int|
            1 <= i < entries.len() ==> entries.drop_first()[i - 1] == entries[i]);
    } else {
        assert(view_plan_responses(entries) == Seq::<(ResponseKey, JsonV)>::empty());
    }
}

/// The precompiled artifact for one operation: its body schema, body
/// requirement, parameter validators, and status-indexed response schemas.
pub struct OperationValidationPlan {
    pub schema: Option<CompiledSchema>,
    pub body_required: bool,
    pub method: String,
    pub path_template: String,
    pub parameters: Vec<ParameterValidator>,
    pub response_schemas: Vec<(ResponseKey, CompiledSchema)>,
}

pub struct PlanV {
    pub schema: Option<JsonV>,
    pub body_required: bool,
    pub method: Seq<char>,
    pub path_template: Seq<char>,
    pub parameters: Seq<ParameterValidatorV>,
    pub response_schemas: Seq<(ResponseKey, JsonV)>,
}

impl View for OperationValidationPlan {
    type V = PlanV;

    open spec fn view(&self) -> PlanV {
        PlanV {
            schema: match self.schema {
                Some(s) => Some(s@),
                None => None,
            },
            body_required: self.body_required,
            method: self.method@,
            path_template: self.path_template@,
            parameters: view_validators(self.parameters@),
            response_schemas: view_plan_responses(self.response_schemas@),
        }
    }
}

/// Two plans carry the same values: the same shared schema handles, flags,
/// names and entries.
pub open spec fn plan_like(a: OperationValidationPlan, b: OperationValidationPlan) -> bool {
    &&& a.schema == b.schema
    &&& a.body_required == b.body_required
    &&& a.method == b.method
    &&& a.path_template == b.path_template
    &&& a.parameters@ == b.parameters@
    &&& a.response_schemas@ == b.response_schemas@
}

impl OperationValidationPlan {
    /// A copy of the plan sharing every compiled schema handle.
    pub fn duplicate(&self) -> (r: Self)
        ensures
            plan_like(r, *self),
            r@ == self@,
    {
        let mut parameters: Vec<ParameterValidator> = Vec::new();
        let mut i: usize = 0;
        while i < self.parameters.len()
            invariant
                i <= self.parameters.len(),
                parameters@.len() == i,
                forall|j: int| 0 <= j < i ==> #[trigger] parameters@[j] == self.parameters@[j],
            decreases self.parameters.len() - i,
        {
            parameters.push(self.parameters[i].duplicate());
            i = i + 1;
        }
        proof {
            assert(parameters@ =~= self.parameters@);
        }
        let mut response_schemas: Vec<(ResponseKey, CompiledSchema)> = Vec::new();
        let mut i: usize = 0;
        while i < self.response_schemas.len()
            invariant
                i <= self.response_schemas.len(),
                response_schemas@.len() == i,
                forall|j: int|
                    0 <= j < i ==> #[trigger] response_schemas@[j] == self.response_schemas@[j],
            decreases self.response_schemas.len() - i,
        {
            response_schemas.push((self.response_schemas[i].0, self.response_schemas[i].1.share()));
            i = i + 1;
        }
        proof {
            assert(response_schemas@ =~= self.response_schemas@);
        }
        OperationValidationPlan {
            schema: match &self.schema {
                Some(s) => Some(s.share()),
                None => None,
            },
            body_required: self.body_required,
            method: self.method.clone(),
            path_template: self.path_template.clone(),
            parameters,
            response_schemas,
        }
    }
}

/// What compiling the parameter validators yields: each schema must compile,
/// the primitive kind read off its top-level type.
pub open spec fn spec_compile_params(ps: Seq<ParameterSpecV>, sp: Seq<char>) -> Result<
    Seq<ParameterValidatorV>,
    ErrorV,
>
    decreases ps.len(),
{
    if ps.len() == 0 {
        Ok(Seq::<ParameterValidatorV>::empty())
    } else {
        let p = ps[0];
        let compile_r = match p.schema {
            Some(s) => schema_compile_of(s),
            None => Ok(()),
        };
        match compile_r {
            Err(ce) => Err(ErrorV::InvalidOpenApi { path: sp, message: ce }),
            Ok(_) => match spec_compile_params(ps.drop_first(), sp) {
                Err(e) => Err(e),
                Ok(t) => Ok(
                    seq![
                        ParameterValidatorV {
                            name: p.name,
                            location: p.location,
                            required: p.required,
                            schema: p.schema,
                            value_type: match p.schema {
                                Some(s) => spec_detect_primitive(s),
                                None => None,
                            },
                        },
                    ] + t,
                ),
            },
        }
    }
}

/// Compiles each declared parameter's schema into a validator.
fn compile_parameter_validators(specs: &Vec<ParameterSpec>, i: usize, spec_path: &str) -> (r:
    Result<Vec<ParameterValidator>, Error>)
    requires
        i <= specs.len(),
        view_param_specs(specs@).len() == specs@.len(),
        forall|j: int|
            0 <= j < specs@.len() ==> view_param_specs(specs@)[j] == #[trigger] specs@[j]@,
    ensures
        match r {
            Ok(vs) => spec_compile_params(
                view_param_specs(specs@).subrange(i as int, specs@.len() as int),
                spec_path@,
            ) == Ok::<Seq<ParameterValidatorV>, ErrorV>(view_validators(vs@)),
            Err(e) => spec_compile_params(
                view_param_specs(specs@).subrange(i as int, specs@.len() as int),
                spec_path@,
            ) == Err::<Seq<ParameterValidatorV>, ErrorV>(e@),
        },
    decreases specs.len() - i,
{
    let ghost vp = view_param_specs(specs@);
    let ghost rest = vp.subrange(i as int, specs@.len() as int);
    if i == specs.len() {
        let out: Vec<ParameterValidator> = Vec::new();
        proof {
            assert(rest =~= Seq::<ParameterSpecV>::empty());
            assert(view_validators(out@) =~= Seq::<ParameterValidatorV>::empty());
        }
        return Ok(out);
    }
    proof {
        assert(rest[0] == vp[i as int]);
        assert(rest[0] == specs@[i as int]@);
        assert(rest.drop_first() =~= vp.subrange(i + 1 as int, specs@.len() as int));
    }
    let value_type = match &specs[i].schema {
        Some(s) => detect_primitive_type(s),
        None => None,
    };
    let schema = match &specs[i].schema {
        Some(s) => match crate::schema::compile_schema(s) {
            Ok(c) => Some(c),
            Err(ce) => {
                return Err(Error::InvalidOpenApi { path: spec_path.to_owned(), message: ce });
            },
        },
        None => None,
    };
    let head = ParameterValidator {
        name: specs[i].name.clone(),
        location: specs[i].location,
        required: specs[i].required,
        schema,
        value_type,
    };
    let ghost headv = head@;
    match compile_parameter_validators(specs, i + 1, spec_path) {
        Err(e) => Err(e),
        Ok(mut t) => {
            let ghost told = t@;
            let ghost tail = view_validators(t@);
            t.insert(0, head);
            proof {
                lemma_view_validators(told);
                assert(t@ =~= seq![t@[0]] + told);
                lemma_view_validators(t@);
                assert forall|j: int|
                    0 <= j < t@.len() implies view_validators(t@)[j] == (seq![headv] + tail)[j] by {
                    assert(view_validators(t@)[j] == t@[j]@);
                    if j > 0 {
                        assert(t@[j] == told[j - 1]);
                        assert(tail[j - 1] == told[j - 1]@);
                    }
                }
                assert(view_validators(t@) =~= seq![headv] + tail);
            }
            Ok(t)
        },
    }
}

/// What compiling the response schemas yields: each entry's schema must
/// compile; the entries themselves are kept.
pub open spec fn spec_compile_responses(rs: Seq<(ResponseKey, JsonV)>, sp: Seq<char>) -> Result<
    Seq<(ResponseKey, JsonV)>,
    ErrorV,
>
    decreases rs.len(),
{
    if rs.len() == 0 {
        Ok(Seq::<(ResponseKey, JsonV)>::empty())
    } else {
        match schema_compile_of(rs[0].1) {
            Err(ce) => Err(ErrorV::InvalidOpenApi { path: sp, message: ce }),
            Ok(_) => match spec_compile_responses(rs.drop_first(), sp) {
                Err(e) => Err(e),
                Ok(t) => Ok(seq![rs[0]] + t),
            },
        }
    }
}

/// Compiles each response schema.
fn compile_response_schemas(entries: &Vec<(ResponseKey, JsonValue)>, i: usize, spec_path: &str) -> (r:
    Result<Vec<(ResponseKey, CompiledSchema)>, Error>)
    requires
        i <= entries.len(),
        view_resp_entries(entries@).len() == entries@.len(),
        forall|j: int|
            0 <= j < entries@.len() ==> view_resp_entries(entries@)[j] == ((
            #[trigger] entries@[j]).0,
            entries@[j].1@,
            ),
    ensures
        match r {
            Ok(vs) => spec_compile_responses(
                view_resp_entries(entries@).subrange(i as int, entries@.len() as int),
                spec_path@,
            ) == Ok::<Seq<(ResponseKey, JsonV)>, ErrorV>(view_plan_responses(vs@)),
            Err(e) => spec_compile_responses(
                view_resp_entries(entries@).subrange(i as int, entries@.len() as int),
                spec_path@,
            ) == Err::<Seq<(ResponseKey, JsonV)>, ErrorV>(e@),
        },
    decreases entries.len() - i,
{
    let ghost ve = view_resp_entries(entries@);
    let ghost rest = ve.subrange(i as int, entries@.len() as int);
    if i == entries.len() {
        let out: Vec<(ResponseKey, CompiledSchema)> = Vec::new();
        proof {
            assert(rest =~= Seq::<(ResponseKey, JsonV)>::empty());
            assert(view_plan_responses(out@) =~= Seq::<(ResponseKey, JsonV)>::empty());
        }
        return Ok(out);
    }
    proof {
        assert(rest[0] == ve[i as int]);
        assert(rest[0] == (entries@[i as int].0, entries@[i as int].1@));
        assert(rest.drop_first() =~= ve.subrange(i + 1 as int, entries@.len() as int));
    }
    let compiled = match crate::schema::compile_schema(&entries[i].1) {
        Ok(c) => c,
        Err(ce) => {
            return Err(Error::InvalidOpenApi { path: spec_path.to_owned(), message: ce });
        },
    };
    let head = (entries[i].0, compiled);
    let ghost headv = (head.0, head.1@);
    match compile_response_schemas(entries, i + 1, spec_path) {
        Err(e) => Err(e),
        Ok(mut t) => {
            let ghost told = t@;
            let ghost tail = view_plan_responses(t@);
            t.insert(0, head);
            proof {
                lemma_view_plan_responses(told);
                assert(t@ =~= seq![t@[0]] + told);
                lemma_view_plan_responses(t@);
                assert forall|j: int|
                    0 <= j < t@.len() implies view_plan_responses(t@)[j] == (seq![headv]
                    + tail)[j] by {
                    assert(view_plan_responses(t@)[j] == (t@[j].0, t@[j].1@));
                    if j > 0 {
                        assert(t@[j] == told[j - 1]);
                        assert(tail[j - 1] == (told[j - 1].0, told[j - 1].1@));
                    }
                }
                assert(view_plan_responses(t@) =~= seq![headv] + tail);
            }
            Ok(t)
        },
    }
}

/// The plan a located operation compiles to.
pub open spec fn spec_build_plan(m: OperationMatchV, method_key: Seq<char>, sp: Seq<char>) -> Result<
    PlanV,
    ErrorV,
> {
    let schema_r = match m.schema {
        None => Ok(None),
        Some(rs) => match schema_compile_of(rs) {
            Ok(_) => Ok(Some(rs)),
            Err(ce) => Err(ErrorV::InvalidOpenApi { path: sp, message: ce }),
        },
    };
    match schema_r {
        Err(e) => Err(e),
        Ok(schema) => match spec_compile_params(m.parameters, sp) {
            Err(e) => Err(e),
            Ok(ps) => match spec_compile_responses(m.responses, sp) {
                Err(e) => Err(e),
                Ok(rs) => Ok(
                    PlanV {
                        schema,
                        body_required: m.body_required,
                        method: crate::strutil::to_upper(method_key),
                        path_template: m.path,
                        parameters: ps,
                        response_schemas: rs,
                    },
                ),
            },
        },
    }
}

/// What one load yields from a parsed spec document.
pub open spec fn spec_load_operation(
    doc: JsonV,
    route: Seq<char>,
    method_key: Seq<char>,
    opid: Option<Seq<char>>,
    sp: Seq<char>,
) -> Result<PlanV, ErrorV> {
    match spec_find_operation(doc, route, method_key, opid, sp) {
        Err(e) => Err(e),
        Ok(m) => spec_build_plan(m, method_key, sp),
    }
}

// ---------------------------------------------------------------------------
// The cache
// ---------------------------------------------------------------------------
/// What one cached plan is filed under.
pub struct OperationCacheKey {
    pub spec_path: String,
    pub method: String,
    pub path_template: String,
}

/// The first cached spec document under a path.
pub open spec fn specs_first(entries: Seq<(String, JsonValue)>, path: Seq<char>) -> Option<JsonV>
    decreases entries.len(),
{
    if entries.len() == 0 {
        None
    } else if entries[0].0@ == path {
        Some(entries[0].1@)
    } else {
        specs_first(entries.drop_first(), path)
    }
}

proof fn lemma_specs_first_at(entries: Seq<(String, JsonValue)>, path: Seq<char>, at: int)
    requires
        0 <= at < entries.len(),
        entries[at].0@ == path,
        forall|j: int| 0 <= j < at ==> (#[trigger] entries[j]).0@ != path,
    ensures
        specs_first(entries, path) == Some(entries[at].1@),
    decreases at,
{
    if at > 0 {
        lemma_specs_first_at(entries.drop_first(), path, at - 1);
    }
}

proof fn lemma_specs_first_none(entries: Seq<(String, JsonValue)>, path: Seq<char>)
    requires
        forall|j: int| 0 <= j < entries.len() ==> (#[trigger] entries[j]).0@ != path,
    ensures
        specs_first(entries, path) is None,
    decreases entries.len(),
{
    if entries.len() > 0 {
        lemma_specs_first_none(entries.drop_first(), path);
    }
}

proof fn lemma_specs_first_push(
    entries: Seq<(String, JsonValue)>,
    path: Seq<char>,
    entry: (String, JsonValue),
)
    requires
        specs_first(entries, path) is None,
        entry.0@ == path,
    ensures
        specs_first(entries.push(entry), path) == Some(entry.1@),
    decreases entries.len(),
{
    if entries.len() == 0 {
        assert(entries.push(entry)[0] == entry);
    } else {
        lemma_specs_first_push(entries.drop_first(), path, entry);
        assert(entries.push(entry).drop_first() =~= entries.drop_first().push(entry));
    }
}

/// The first cached plan under a `(spec path, method, template)` key.
pub open spec fn ops_first(
    entries: Seq<(OperationCacheKey, OperationValidationPlan)>,
    sp: Seq<char>,
    method: Seq<char>,
    tpl: Seq<char>,
) -> Option<OperationValidationPlan>
    decreases entries.len(),
{
    if entries.len() == 0 {
        None
    } else if entries[0].0.spec_path@ == sp && entries[0].0.method@ == method
        && entries[0].0.path_template@ == tpl {
        Some(entries[0].1)
    } else {
        ops_first(entries.drop_first(), sp, method, tpl)
    }
}

proof fn lemma_ops_first_at(
    entries: Seq<(OperationCacheKey, OperationValidationPlan)>,
    sp: Seq<char>,
    method: Seq<char>,
    tpl: Seq<char>,
    at: int,
)
    requires
        0 <= at < entries.len(),
        entries[at].0.spec_path@ == sp && entries[at].0.method@ == method
            && entries[at].0.path_template@ == tpl,
        forall|j: int|
            0 <= j < at ==> !((#[trigger] entries[j]).0.spec_path@ == sp && entries[j].0.method@
                == method && entries[j].0.path_template@ == tpl),
    ensures
        ops_first(entries, sp, method, tpl) == Some(entries[at].1),
    decreases at,
{
    if at > 0 {
        lemma_ops_first_at(entries.drop_first(), sp, method, tpl, at - 1);
    }
}

proof fn lemma_ops_first_none(
    entries: Seq<(OperationCacheKey, OperationValidationPlan)>,
    sp: Seq<char>,
    method: Seq<char>,
    tpl: Seq<char>,
)
    requires
        forall|j: int|
            0 <= j < entries.len() ==> !((#[trigger] entries[j]).0.spec_path@ == sp
                && entries[j].0.method@ == method && entries[j].0.path_template@ == tpl),
    ensures
        ops_first(entries, sp, method, tpl) is None,
    decreases entries.len(),
{
    if entries.len() > 0 {
        lemma_ops_first_none(entries.drop_first(), sp, method, tpl);
    }
}

/// After filing a plan under a fresh key, it is the one the key finds.
pub proof fn lemma_ops_first_push(
    entries: Seq<(OperationCacheKey, OperationValidationPlan)>,
    sp: Seq<char>,
    method: Seq<char>,
    tpl: Seq<char>,
    entry: (OperationCacheKey, OperationValidationPlan),
)
    requires
        ops_first(entries, sp, method, tpl) is None,
        entry.0.spec_path@ == sp,
        entry.0.method@ == method,
        entry.0.path_template@ == tpl,
    ensures
        ops_first(entries.push(entry), sp, method, tpl) == Some(entry.1),
    decreases entries.len(),
{
    if entries.len() == 0 {
        assert(entries.push(entry)[0] == entry);
    } else {
        lemma_ops_first_push(entries.drop_first(), sp, method, tpl, entry);
        assert(entries.push(entry).drop_first() =~= entries.drop_first().push(entry));
    }
}

/// The position of the cached document under `path`, where one is filed.
fn spec_doc_index(specs: &Vec<(String, JsonValue)>, path: &str) -> (r: Option<usize>)
    ensures
        match r {
            Some(i) => i < specs@.len() && specs_first(specs@, path@) == Some(
                specs@[i as int].1@,
            ),
            None => specs_first(specs@, path@) is None,
        },
{
    let path_owned = path.to_owned();
    let mut i: usize = 0;
    while i < specs.len()
        invariant
            i <= specs.len(),
            path_owned@ == path@,
            forall|j: int| 0 <= j < i ==> (#[trigger] specs@[j]).0@ != path@,
        decreases specs.len() - i,
    {
        if specs[i].0 == path_owned {
            proof {
                lemma_specs_first_at(specs@, path@, i as int);
            }
            return Some(i);
        }
        i = i + 1;
    }
    proof {
        lemma_specs_first_none(specs@, path@);
    }
    None
}

/// The two mappings of the OpenAPI loader: parsed spec documents by path, and
/// compiled plans by `(spec path, method, path template)`. Both grow on first
/// use and are never invalidated.
pub struct OpenApiCache {
    pub specs: Vec<(String, JsonValue)>,
    pub operations: Vec<(OperationCacheKey, OperationValidationPlan)>,
}

impl OpenApiCache {
    pub fn new() -> (r: Self)
        ensures
            r.specs@.len() == 0,
            r.operations@.len() == 0,
    {
        OpenApiCache { specs: Vec::new(), operations: Vec::new() }
    }

    /// Whether a document is already cached under this spec path.
    pub fn has_spec(&self, path: &str) -> (r: bool)
        ensures
            r == (specs_first(self.specs@, path@) is Some),
    {
        match spec_doc_index(&self.specs, path) {
            Some(_) => true,
            None => false,
        }
    }

    /// Loads the validation plan for one route's operation. The spec document
    /// comes from the cache or from the given file read; the plan comes from
    /// the cache where the same operation was compiled before, sharing its
    /// schema handles, and is otherwise built, filed and returned.
    pub fn load_operation(
        &mut self,
        spec_path: &str,
        route_path: &str,
        method: &str,
        operation_id: Option<&str>,
        read: FileOutcome,
    ) -> (r: Result<OperationValidationPlan, Error>)
        ensures
            ({
                let method_key = to_lower(method@);
                let opidv: Option<Seq<char>> = match operation_id {
                    Some(id) => Some(id@),
                    None => None,
                };
                let doc_r: Result<JsonV, ErrorV> = match specs_first(
                    old(self).specs@,
                    spec_path@,
                ) {
                    Some(d) => Ok(d),
                    None => match read {
                        FileOutcome::Contents(c) => match crate::trusted::yaml_doc_of(c@) {
                            Ok(d) => Ok(d),
                            Err(pe) => Err(
                                ErrorV::InvalidOpenApi { path: spec_path@, message: pe },
                            ),
                        },
                        FileOutcome::NotFound => Err(
                            ErrorV::OpenApiNotFound { path: spec_path@ },
                        ),
                        FileOutcome::Unreadable(m) => Err(ErrorV::Io { message: m@ }),
                    },
                };
                match doc_r {
                    Err(de) => {
                        &&& r matches Err(e)
                        &&& e@ == de
                        &&& final(self).specs@ == old(self).specs@
                        &&& final(self).operations@ == old(self).operations@
                    },
                    Ok(doc) => {
                        &&& specs_first(final(self).specs@, spec_path@) == Some(doc)
                        &&& match spec_find_operation(
                            doc,
                            route_path@,
                            method_key,
                            opidv,
                            spec_path@,
                        ) {
                            Err(fe) => {
                                &&& r matches Err(e)
                                &&& e@ == fe
                                &&& final(self).operations@ == old(self).operations@
                            },
                            Ok(m) => match ops_first(
                                old(self).operations@,
                                spec_path@,
                                method_key,
                                m.path,
                            ) {
                                Some(cached) => {
                                    &&& r matches Ok(plan)
                                    &&& plan_like(plan, cached)
                                    &&& final(self).operations@ == old(self).operations@
                                },
                                None => match spec_build_plan(m, method_key, spec_path@) {
                                    Err(be) => {
                                        &&& r matches Err(e)
                                        &&& e@ == be
                                        &&& final(self).operations@ == old(self).operations@
                                    },
                                    Ok(pv) => {
                                        &&& r matches Ok(plan)
                                        &&& plan@ == pv
                                        &&& final(self).operations@.len() == old(
                                            self,
                                        ).operations@.len() + 1
                                        &&& final(self).operations@.subrange(
                                            0,
                                            old(self).operations@.len() as int,
                                        ) == old(self).operations@
                                        &&& final(self).operations@.last().0.spec_path@
                                            == spec_path@
                                        &&& final(self).operations@.last().0.method@ == method_key
                                        &&& final(self).operations@.last().0.path_template@
                                            == m.path
                                        &&& plan_like(plan, final(self).operations@.last().1)
                                    },
                                },
                            },
                        }
                    },
                }
            }),
    {
        let ghost specs0 = self.specs@;
        let ghost ops0 = self.operations@;
        // locate or store the parsed document
        let path_owned = spec_path.to_owned();
        let doc_idx: usize = match spec_doc_index(&self.specs, spec_path) {
            Some(i) => i,
            None => {
                let contents = match read {
                    FileOutcome::Contents(c) => c,
                    FileOutcome::NotFound => {
                        return Err(Error::OpenApiNotFound { path: path_owned });
                    },
                    FileOutcome::Unreadable(m) => {
                        return Err(Error::Io { message: m });
                    },
                };
                let value = match crate::trusted::parse_yaml(contents.as_str()) {
                    Ok(v) => v,
                    Err(pe) => {
                        return Err(Error::InvalidOpenApi { path: path_owned, message: pe });
                    },
                };
                let at = self.specs.len();
                self.specs.push((path_owned, value));
                proof {
                    lemma_specs_first_push(specs0, spec_path@, self.specs@.last());
                }
                at
            },
        };
        let ghost the_doc = self.specs@[doc_idx as int].1@;
        let method_key = ascii_lower(method);
        let found_op = {
            let doc_ref = &self.specs[doc_idx].1;
            match find_operation(doc_ref, route_path, method_key.as_str(), operation_id, spec_path)
            {
                Ok(m) => m,
                Err(e) => {
                    return Err(e);
                },
            }
        };
        // probe the plan cache
        let ghost specs_now = self.specs@;
        let ghost mview = found_op@;
        let mut k: usize = 0;
        while k < self.operations.len()
            invariant
                k <= self.operations.len(),
                ops0 == self.operations@,
                ops0 == old(self).operations@,
                self.specs@ == specs_now,
                specs_first(specs_now, spec_path@) == Some(the_doc),
                specs0 == old(self).specs@,
                match specs_first(specs0, spec_path@) {
                    Some(d) => the_doc == d,
                    None => read matches FileOutcome::Contents(c)
                        && crate::trusted::yaml_doc_of(c@) == Ok::<JsonV, Seq<char>>(the_doc),
                },
                found_op@ == mview,
                method_key@ == to_lower(method@),
                spec_find_operation(
                    the_doc,
                    route_path@,
                    to_lower(method@),
                    match operation_id {
                        Some(id) => Some(id@),
                        None => None,
                    },
                    spec_path@,
                ) == Ok::<OperationMatchV, ErrorV>(mview),
                forall|j: int|
                    0 <= j < k ==> !((#[trigger] ops0[j]).0.spec_path@ == spec_path@
                        && ops0[j].0.method@ == to_lower(method@) && ops0[j].0.path_template@
                        == mview.path),
            decreases self.operations.len() - k,
        {
            let key_matches = self.operations[k].0.spec_path == spec_path.to_owned()
                && self.operations[k].0.method == method_key
                && self.operations[k].0.path_template == found_op.path;
            if key_matches {
                proof {
                    lemma_ops_first_at(ops0, spec_path@, to_lower(method@), mview.path, k as int);
                }
                return Ok(self.operations[k].1.duplicate());
            }
            k = k + 1;
        }
        proof {
            lemma_ops_first_none(ops0, spec_path@, to_lower(method@), mview.path);
        }
        // build the plan
        let schema = match &found_op.schema {
            Some(sv) => match crate::schema::compile_schema(sv) {
                Ok(c) => Some(c),
                Err(ce) => {
                    return Err(Error::InvalidOpenApi { path: spec_path.to_owned(), message: ce });
                },
            },
            None => None,
        };
        proof {
            lemma_view_param_specs(found_op.parameters@);
            assert(view_param_specs(found_op.parameters@).subrange(
                0,
                found_op.parameters@.len() as int,
            ) =~= view_param_specs(found_op.parameters@));
        }
        let parameters = match compile_parameter_validators(&found_op.parameters, 0, spec_path) {
            Ok(ps) => ps,
            Err(e) => {
                return Err(e);
            },
        };
        proof {
            lemma_view_resp_entries(found_op.responses@);
            assert(view_resp_entries(found_op.responses@).subrange(
                0,
                found_op.responses@.len() as int,
            ) =~= view_resp_entries(found_op.responses@));
        }
        let response_schemas = match compile_response_schemas(&found_op.responses, 0, spec_path) {
            Ok(rs) => rs,
            Err(e) => {
                return Err(e);
            },
        };
        let plan = OperationValidationPlan {
            schema,
            body_required: found_op.body_required,
            method: ascii_upper(method_key.as_str()),
            path_template: found_op.path,
            parameters,
            response_schemas,
        };
        let key = OperationCacheKey {
            spec_path: spec_path.to_owned(),
            method: method_key,
            path_template: plan.path_template.clone(),
        };
        let stored = plan.duplicate();
        let ghost before_ops = self.operations@;
        self.operations.push((key, stored));
        proof {
            assert(self.operations@.last() == self.operations@[before_ops.len() as int]);
        }
        Ok(plan)
    }
}

impl Default for OpenApiCache {
    fn default() -> (r: Self)
        ensures
            r.specs@.len() == 0,
            r.operations@.len() == 0,
    {
        OpenApiCache::new()
    }
}

} // verus!
