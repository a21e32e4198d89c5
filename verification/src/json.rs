//! The gateway's JSON document model: a tagged value with insertion-order
//! preserving objects, its mathematical view, and JSON-pointer lookup.
//!
//! A number is carried as its decimal rendering, so the model holds plain
//! values only; the loader never inspects a number.

use vstd::prelude::*;

use crate::strutil::{all_digits, digits_value, parse_u64_digits, split_at_seps, split_str};

verus! {

/// A JSON value. Object fields keep the order in which they were inserted.
pub enum JsonValue {
    Null,
    Bool(bool),
    Number(String),
    Str(String),
    Array(Vec<JsonValue>),
    Object(Vec<(String, JsonValue)>),
}

/// The mathematical shape of a [`JsonValue`].
pub enum JsonV {
    Null,
    Bool(bool),
    Number(Seq<char>),
    Str(Seq<char>),
    Array(Seq<JsonV>),
    Object(Seq<(Seq<char>, JsonV)>),
}

/// The views of the elements of a JSON array.
pub open spec fn view_list(items: Seq<JsonValue>) -> Seq<JsonV>
    decreases items,
{
    if items.len() == 0 {
        Seq::<JsonV>::empty()
    } else {
        seq![items[0]@] + view_list(items.drop_first())
    }
}

/// The views of the fields of a JSON object.
pub open spec fn view_fields(fields: Seq<(String, JsonValue)>) -> Seq<(Seq<char>, JsonV)>
    decreases fields,
{
    if fields.len() == 0 {
        Seq::<(Seq<char>, JsonV)>::empty()
    } else {
        seq![(fields[0].0@, fields[0].1@)] + view_fields(fields.drop_first())
    }
}

impl View for JsonValue {
    type V = JsonV;

    open spec fn view(&self) -> JsonV
        decreases self,
    {
        match self {
            JsonValue::Null => JsonV::Null,
            JsonValue::Bool(b) => JsonV::Bool(*b),
            JsonValue::Number(s) => JsonV::Number(s@),
            JsonValue::Str(s) => JsonV::Str(s@),
            JsonValue::Array(items) => JsonV::Array(view_list(items@)),
            JsonValue::Object(fields) => JsonV::Object(view_fields(fields@)),
        }
    }
}

impl DeepView for JsonValue {
    type V = JsonV;

    open spec fn deep_view(&self) -> JsonV {
        self.view()
    }
}

pub broadcast proof fn lemma_view_list(items: Seq<JsonValue>)
    ensures
        (#[trigger] view_list(items)).len() == items.len(),
        forall|i: int| 0 <= i < items.len() ==> view_list(items)[i] == #[trigger] items[i]@,
    decreases items,
{
    if items.len() > 0 {
        lemma_view_list(items.drop_first());
        assert(view_list(items) == seq![items[0]@] + view_list(items.drop_first()));
        assert(forall|i: int|
            1 <= i < items.len() ==> view_list(items)[i] == view_list(items.drop_first())[i - 1]);
        assert(forall|i: int|
            1 <= i < items.len() ==> view_list(items.drop_first())[i - 1]
                == #[trigger] items.drop_first()[i - 1]@);
        assert(forall|i: int| 1 <= i < items.len() ==> items.drop_first()[i - 1] == items[i]);
    } else {
        assert(view_list(items) == Seq::<JsonV>::empty());
    }
}

pub broadcast proof fn lemma_view_fields(fields: Seq<(String, JsonValue)>)
    ensures
        (#[trigger] view_fields(fields)).len() == fields.len(),
        forall|i: int|
            0 <= i < fields.len() ==> view_fields(fields)[i] == (
                (#[trigger] fields[i]).0@,
                fields[i].1@,
            ),
    decreases fields,
{
    if fields.len() > 0 {
        lemma_view_fields(fields.drop_first());
        assert(view_fields(fields) == seq![(fields[0].0@, fields[0].1@)] + view_fields(
            fields.drop_first(),
        ));
        assert(forall|i: int|
            1 <= i < fields.len() ==> view_fields(fields)[i] == view_fields(fields.drop_first())[i
                - 1]);
        assert(forall|i: int|
            1 <= i < fields.len() ==> view_fields(fields.drop_first())[i - 1] == ((
            #[trigger] fields.drop_first()[i - 1]).0@,
            fields.drop_first()[i - 1].1@,
            ));
        assert(forall|i: int| 1 <= i < fields.len() ==> fields.drop_first()[i - 1] == fields[i]);
    } else {
        assert(view_fields(fields) == Seq::<(Seq<char>, JsonV)>::empty());
    }
}

/// The first value under `key`, scanning fields front to back.
pub open spec fn obj_first(fields: Seq<(Seq<char>, JsonV)>, key: Seq<char>) -> Option<JsonV>
    decreases fields.len(),
{
    if fields.len() == 0 {
        None
    } else if fields[0].0 == key {
        Some(fields[0].1)
    } else {
        obj_first(fields.drop_first(), key)
    }
}

/// The value of an object member, `None` on anything that is not an object or
/// has no such member.
pub open spec fn json_get(v: JsonV, key: Seq<char>) -> Option<JsonV> {
    match v {
        JsonV::Object(fields) => obj_first(fields, key),
        _ => None,
    }
}

proof fn lemma_obj_first_at(fields: Seq<(Seq<char>, JsonV)>, key: Seq<char>, at: int)
    requires
        0 <= at < fields.len(),
        fields[at].0 == key,
        forall|j: int| 0 <= j < at ==> (#[trigger] fields[j]).0 != key,
    ensures
        obj_first(fields, key) == Some(fields[at].1),
    decreases at,
{
    if at > 0 {
        lemma_obj_first_at(fields.drop_first(), key, at - 1);
    }
}

proof fn lemma_obj_first_none(fields: Seq<(Seq<char>, JsonV)>, key: Seq<char>)
    requires
        forall|j: int| 0 <= j < fields.len() ==> (#[trigger] fields[j]).0 != key,
    ensures
        obj_first(fields, key) is None,
    decreases fields.len(),
{
    if fields.len() > 0 {
        lemma_obj_first_none(fields.drop_first(), key);
    }
}

impl JsonValue {
    /// Looks a member up in an object value.
    pub fn get<'a>(&'a self, key: &str) -> (r: Option<&'a JsonValue>)
        ensures
            match r {
                Some(x) => json_get(self@, key@) == Some(x@),
                None => json_get(self@, key@) is None,
            },
    {
        match self {
            JsonValue::Object(fields) => {
                proof {
                    lemma_view_fields(fields@);
                }
                let ghost vf = view_fields(fields@);
                let key_owned = key.to_owned();
                let mut i: usize = 0;
                while i < fields.len()
                    invariant
                        i <= fields.len(),
                        key_owned@ == key@,
                        vf == view_fields(fields@),
                        self@ == JsonV::Object(vf),
                        vf.len() == fields@.len(),
                        forall|j: int|
                            0 <= j < fields@.len() ==> vf[j] == (
                                (#[trigger] fields@[j]).0@,
                                fields@[j].1@,
                            ),
                        forall|j: int| 0 <= j < i ==> (#[trigger] vf[j]).0 != key@,
                    decreases fields.len() - i,
                {
                    if fields[i].0 == key_owned {
                        proof {
                            lemma_obj_first_at(vf, key@, i as int);
                            assert(self@ == JsonV::Object(vf));
                            assert(json_get(self@, key@) == obj_first(vf, key@));
                            assert(fields@[i as int].1@ == vf[i as int].1);
                        }
                        return Some(&fields[i].1);
                    }
                    i = i + 1;
                }
                proof {
                    lemma_obj_first_none(vf, key@);
                }
                None
            },
            _ => None,
        }
    }

    pub fn as_str<'a>(&'a self) -> (r: Option<&'a String>)
        ensures
            match r {
                Some(s) => self@ == JsonV::Str(s@),
                None => !(self@ is Str),
            },
    {
        match self {
            JsonValue::Str(s) => Some(s),
            _ => None,
        }
    }

    pub fn as_bool(&self) -> (r: Option<bool>)
        ensures
            match r {
                Some(b) => self@ == JsonV::Bool(b),
                None => !(self@ is Bool),
            },
    {
        match self {
            JsonValue::Bool(b) => Some(*b),
            _ => None,
        }
    }

    pub fn is_object(&self) -> (r: bool)
        ensures
            r == (self@ is Object),
    {
        match self {
            JsonValue::Object(_) => true,
            _ => false,
        }
    }
}

// ---------------------------------------------------------------------------
// JSON pointers (RFC 6901), as `serde_json`'s pointer lookup reads them
// ---------------------------------------------------------------------------
/// Rewrites `~1` to `/` and `~0` to `~`, left to right.
pub open spec fn unescape_token(s: Seq<char>) -> Seq<char>
    decreases s.len(),
{
    if s.len() >= 2 && s[0] == '~' && s[1] == '1' {
        seq!['/'] + unescape_token(s.subrange(2, s.len() as int))
    } else if s.len() >= 2 && s[0] == '~' && s[1] == '0' {
        seq!['~'] + unescape_token(s.subrange(2, s.len() as int))
    } else if s.len() > 0 {
        seq![s[0]] + unescape_token(s.drop_first())
    } else {
        Seq::<char>::empty()
    }
}

pub fn unescape_token_exec(s: &str) -> (r: String)
    ensures
        r@ == unescape_token(s@),
{
    let n: usize = s.unicode_len();
    let mut r = String::new();
    proof {
        assert(s@.subrange(0, n as int) =~= s@);
        assert(r@ + unescape_token(s@) =~= unescape_token(s@));
    }
    let mut i: usize = 0;
    while i < n
        invariant
            i <= n,
            n == s@.len(),
            unescape_token(s@) =~= r@ + unescape_token(s@.subrange(i as int, n as int)),
        decreases n - i,
    {
        let ghost before = r@;
        let ghost tail = s@.subrange(i as int, n as int);
        let c = s.get_char(i);
        if c == '~' && i + 1 < n && s.get_char(i + 1) == '1' {
            r.push('/');
            proof {
                assert(tail.subrange(2, tail.len() as int) =~= s@.subrange(i + 2 as int, n as int));
                assert(before + (seq!['/'] + unescape_token(
                    s@.subrange(i + 2 as int, n as int),
                )) =~= before.push('/') + unescape_token(s@.subrange(i + 2 as int, n as int)));
            }
            i = i + 2;
        } else if c == '~' && i + 1 < n && s.get_char(i + 1) == '0' {
            r.push('~');
            proof {
                assert(tail.subrange(2, tail.len() as int) =~= s@.subrange(i + 2 as int, n as int));
                assert(before + (seq!['~'] + unescape_token(
                    s@.subrange(i + 2 as int, n as int),
                )) =~= before.push('~') + unescape_token(s@.subrange(i + 2 as int, n as int)));
            }
            i = i + 2;
        } else {
            r.push(c);
            proof {
                assert(tail.drop_first() =~= s@.subrange(i + 1 as int, n as int));
                assert(before + (seq![tail[0]] + unescape_token(
                    s@.subrange(i + 1 as int, n as int),
                )) =~= before.push(c) + unescape_token(s@.subrange(i + 1 as int, n as int)));
            }
            i = i + 1;
        }
    }
    proof {
        assert(s@.subrange(n as int, n as int) =~= Seq::<char>::empty());
        assert(r@ + Seq::<char>::empty() =~= r@);
    }
    r
}

/// An array index as `serde_json`'s pointer lookup reads one: plain digits,
/// no sign, no leading zero unless the index is exactly `0`.
pub open spec fn array_index_of(s: Seq<char>) -> Option<int> {
    if s.len() == 0 || (s[0] == '0' && s.len() != 1) || s[0] == '+' {
        None
    } else if all_digits(s) && digits_value(s) <= usize::MAX {
        Some(digits_value(s))
    } else {
        None
    }
}

pub fn parse_array_index(s: &str) -> (r: Option<usize>)
    ensures
        match r {
            Some(v) => array_index_of(s@) == Some(v as int),
            None => array_index_of(s@) is None,
        },
{
    let n: usize = s.unicode_len();
    if n == 0 {
        return None;
    }
    let first = s.get_char(0);
    if first == '+' || (first == '0' && n != 1) {
        return None;
    }
    match parse_u64_digits(s) {
        None => {
            proof {
                if all_digits(s@) && digits_value(s@) <= usize::MAX {
                    assert(digits_value(s@) <= u64::MAX);
                }
            }
            None
        },
        Some(v) => {
            if v <= usize::MAX as u64 {
                Some(v as usize)
            } else {
                None
            }
        },
    }
}

/// One step of pointer traversal for each token, front to back.
pub open spec fn walk_tokens(v: JsonV, tokens: Seq<Seq<char>>) -> Option<JsonV>
    decreases tokens.len(),
{
    if tokens.len() == 0 {
        Some(v)
    } else {
        let tok = unescape_token(tokens[0]);
        match v {
            JsonV::Object(fields) => match obj_first(fields, tok) {
                Some(child) => walk_tokens(child, tokens.drop_first()),
                None => None,
            },
            JsonV::Array(items) => match array_index_of(tok) {
                Some(idx) => if idx < items.len() {
                    walk_tokens(items[idx], tokens.drop_first())
                } else {
                    None
                },
                None => None,
            },
            _ => None,
        }
    }
}

/// What a JSON pointer addresses: the whole value for the empty pointer, a
/// walk along `/`-separated tokens otherwise.
pub open spec fn json_pointer(v: JsonV, pointer: Seq<char>) -> Option<JsonV> {
    if pointer.len() == 0 {
        Some(v)
    } else if pointer[0] != '/' {
        None
    } else {
        walk_tokens(v, split_at_seps(pointer, '/').drop_first())
    }
}

impl JsonValue {
    /// Looks up the value a JSON pointer addresses.
    pub fn pointer<'a>(&'a self, pointer: &str) -> (r: Option<&'a JsonValue>)
        ensures
            match r {
                Some(x) => json_pointer(self@, pointer@) == Some(x@),
                None => json_pointer(self@, pointer@) is None,
            },
    {
        if pointer.unicode_len() == 0 {
            return Some(self);
        }
        if !(pointer.get_char(0) == '/') {
            return None;
        }
        let tokens = split_str(pointer, '/');
        proof {
            crate::strutil::lemma_split_len(pointer@, '/');
            assert(tokens.deep_view().subrange(1, tokens.deep_view().len() as int)
                =~= tokens.deep_view().drop_first());
        }
        let mut cur: &JsonValue = self;
        let mut ti: usize = 1;
        while ti < tokens.len()
            invariant
                1 <= ti <= tokens.len(),
                tokens.deep_view() == split_at_seps(pointer@, '/'),
                tokens.deep_view().len() == tokens.len(),
                walk_tokens(self@, tokens.deep_view().drop_first()) == walk_tokens(
                    cur@,
                    tokens.deep_view().subrange(ti as int, tokens.len() as int),
                ),
            decreases tokens.len() - ti,
        {
            let ghost rest = tokens.deep_view().subrange(ti as int, tokens.len() as int);
            proof {
                assert(rest[0] == tokens.deep_view()[ti as int]);
                assert(rest.drop_first() =~= tokens.deep_view().subrange(
                    ti + 1 as int,
                    tokens.len() as int,
                ));
            }
            let tok = unescape_token_exec(tokens[ti].as_str());
            match cur {
                JsonValue::Object(_) => {
                    match cur.get(tok.as_str()) {
                        Some(child) => {
                            cur = child;
                        },
                        None => {
                            return None;
                        },
                    }
                },
                JsonValue::Array(items) => {
                    proof {
                        lemma_view_list(items@);
                    }
                    match parse_array_index(tok.as_str()) {
                        Some(idx) => {
                            if idx < items.len() {
                                cur = &items[idx];
                            } else {
                                return None;
                            }
                        },
                        None => {
                            return None;
                        },
                    }
                },
                _ => {
                    return None;
                },
            }
            ti = ti + 1;
        }
        proof {
            assert(tokens.deep_view().subrange(ti as int, tokens.len() as int) =~= Seq::<
                Seq<char>,
            >::empty());
        }
        Some(cur)
    }
}

} // verus!
