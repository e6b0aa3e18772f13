//! JSON values and their compact text.
//!
//! An object keeps its members in the order in which they were put: that order
//! is part of the wire format.

use crate::sort::views;
use crate::text::{byte_size, decimal, decimal_text, owned, size};
use vstd::prelude::*;

verus! {

/// A JSON value.
pub enum Json {
    Null,
    Bool(bool),
    Number(u64),
    Text(String),
    Array(Vec<Json>),
    Object(Vec<Member>),
}

/// One member of a JSON object.
pub struct Member {
    pub key: String,
    pub value: Json,
}

/// What a [`Json`] stands for.
pub enum JsonModel {
    Null,
    Bool(bool),
    Number(nat),
    Text(Seq<char>),
    Array(Seq<JsonModel>),
    Object(Seq<(Seq<char>, JsonModel)>),
}

impl Json {
    /// What the value stands for.
    pub open spec fn model(&self) -> JsonModel
        decreases self,
    {
        match self {
            Json::Null => JsonModel::Null,
            Json::Bool(b) => JsonModel::Bool(*b),
            Json::Number(n) => JsonModel::Number(*n as nat),
            Json::Text(s) => JsonModel::Text(s@),
            Json::Array(v) => JsonModel::Array(
                Seq::new(
                    v@.len(),
                    |i: int|
                        if 0 <= i < v@.len() {
                            v[i].model()
                        } else {
                            JsonModel::Null
                        },
                ),
            ),
            Json::Object(v) => JsonModel::Object(
                Seq::new(
                    v@.len(),
                    |i: int|
                        if 0 <= i < v@.len() {
                            (v[i].key@, v[i].value.model())
                        } else {
                            (seq![], JsonModel::Null)
                        },
                ),
            ),
        }
    }
}

/// The models of a list of values.
pub open spec fn models(v: Seq<Json>) -> Seq<JsonModel> {
    v.map_values(|j: Json| j.model())
}

/// The models of a list of members.
pub open spec fn member_models(v: Seq<Member>) -> Seq<(Seq<char>, JsonModel)> {
    v.map_values(|m: Member| (m.key@, m.value.model()))
}

/// An array stands for the array of its elements.
pub proof fn lemma_array_model(v: Vec<Json>)
    ensures
        Json::Array(v).model() == JsonModel::Array(models(v@)),
{
    let j = Json::Array(v);
    match j.model() {
        JsonModel::Array(s) => {
            assert(s =~= models(v@));
        },
        _ => {},
    }
}

/// An object stands for the object of its members.
pub proof fn lemma_object_model(v: Vec<Member>)
    ensures
        Json::Object(v).model() == JsonModel::Object(member_models(v@)),
{
    let j = Json::Object(v);
    match j.model() {
        JsonModel::Object(s) => {
            assert(s =~= member_models(v@));
        },
        _ => {},
    }
}

// ----- compact text -----

/// A lowercase hexadecimal digit.
pub open spec fn hex_digit(d: nat) -> char {
    if d < 10 {
        (48 + d) as char
    } else {
        (87 + d) as char
    }
}

/// A character inside a JSON string: the quote, the backslash and the control
/// characters are escaped, everything else stands for itself.
pub open spec fn escaped_char(c: char) -> Seq<char> {
    if c == '"' {
        seq!['\\', '"']
    } else if c == '\\' {
        seq!['\\', '\\']
    } else if c == '\u{8}' {
        seq!['\\', 'b']
    } else if c == '\t' {
        seq!['\\', 't']
    } else if c == '\n' {
        seq!['\\', 'n']
    } else if c == '\u{c}' {
        seq!['\\', 'f']
    } else if c == '\r' {
        seq!['\\', 'r']
    } else if c as nat <= 31 {
        seq!['\\', 'u', '0', '0', hex_digit(c as nat / 16), hex_digit(c as nat % 16)]
    } else {
        seq![c]
    }
}

/// The characters of a text, each escaped.
pub open spec fn escaped(s: Seq<char>) -> Seq<char>
    decreases s.len(),
{
    if s.len() == 0 {
        seq![]
    } else {
        escaped(s.drop_last()) + escaped_char(s.last())
    }
}

/// A JSON string literal.
pub open spec fn quoted(s: Seq<char>) -> Seq<char> {
    seq!['"'] + escaped(s) + seq!['"']
}

/// The compact text of a value: no white space, members in their order.
pub open spec fn render(j: JsonModel) -> Seq<char>
    decreases j, 0nat,
{
    match j {
        JsonModel::Null => "null"@,
        JsonModel::Bool(b) => if b {
            "true"@
        } else {
            "false"@
        },
        JsonModel::Number(n) => decimal(n),
        JsonModel::Text(s) => quoted(s),
        JsonModel::Array(v) => "["@ + render_elements(v, v.len()) + "]"@,
        JsonModel::Object(v) => "{"@ + render_members(v, v.len()) + "}"@,
    }
}

/// The first `n` elements of an array, with commas between them.
pub open spec fn render_elements(v: Seq<JsonModel>, n: nat) -> Seq<char>
    decreases v, n,
{
    if n == 0 || n > v.len() {
        seq![]
    } else if n == 1 {
        render(v[0])
    } else {
        render_elements(v, (n - 1) as nat) + ","@ + render(v[n - 1])
    }
}

/// The first `n` members of an object, with commas between them.
pub open spec fn render_members(v: Seq<(Seq<char>, JsonModel)>, n: nat) -> Seq<char>
    decreases v, n,
{
    if n == 0 || n > v.len() {
        seq![]
    } else if n == 1 {
        quoted(v[0].0) + ":"@ + render(v[0].1)
    } else {
        render_members(v, (n - 1) as nat) + ","@ + (quoted(v[n - 1].0) + ":"@ + render(v[n - 1].1))
    }
}

/// The JSON string literal of a text, from `serde_json::to_string`.
///
/// Claimed of it: the literal is the text between quotes, with the quote, the
/// backslash and the characters below U+0020 escaped (the short forms `\b \t
/// \n \f \r` where JSON has them, else `\u00` and two lowercase hexadecimal
/// digits), and every other character unchanged. Serializing a string does not
/// fail.
#[verifier::external_body]
fn string_literal(s: &str) -> (r: String)
    ensures
        r@ == quoted(s@),
{
    serde_json::to_string(s).unwrap_or_default()
}

impl Json {
    /// Appends the compact text of a value.
    fn write(&self, out: &mut String)
        ensures
            final(out)@ == old(out)@ + render(self.model()),
        decreases self,
    {
        match self {
            Json::Null => {
                out.append("null");
            },
            Json::Bool(b) => {
                if *b {
                    out.append("true");
                } else {
                    out.append("false");
                }
            },
            Json::Number(n) => {
                let t = decimal_text(*n);
                out.append(t.as_str());
            },
            Json::Text(s) => {
                let t = string_literal(s.as_str());
                out.append(t.as_str());
            },
            Json::Array(v) => {
                let ghost before = out@;
                proof {
                    lemma_array_model(*v);
                }
                out.append("[");
                let ghost start = out@;
                assert(out@ =~= start + render_elements(models(v@), 0));
                let mut i: usize = 0;
                while i < v.len()
                    invariant
                        i <= v@.len(),
                        *self is Array,
                        self->Array_0 == *v,
                        out@ == start + render_elements(models(v@), i as nat),
                    decreases v@.len() - i,
                {
                    let ghost done = render_elements(models(v@), i as nat);
                    if i > 0 {
                        out.append(",");
                    }
                    assert(decreases_to!(*self => self->Array_0));
                    assert(decreases_to!(*v => v[i as int]));
                    v[i].write(out);
                    proof {
                        let last = render(v@[i as int].model());
                        if i == 0 {
                            assert(done =~= seq![]);
                            assert(start + done + last =~= start + last);
                        } else {
                            assert(start + done + ","@ + last =~= start + (done + ","@ + last));
                        }
                    }
                    i = i + 1;
                }
                out.append("]");
                proof {
                    let body = render_elements(models(v@), v@.len());
                    assert(before + "["@ + body + "]"@ =~= before + ("["@ + body + "]"@));
                }
            },
            Json::Object(v) => {
                let ghost before = out@;
                proof {
                    lemma_object_model(*v);
                }
                out.append("{");
                let ghost start = out@;
                let ghost ms = member_models(v@);
                assert(out@ =~= start + render_members(ms, 0));
                let mut i: usize = 0;
                while i < v.len()
                    invariant
                        i <= v@.len(),
                        *self is Object,
                        self->Object_0 == *v,
                        ms == member_models(v@),
                        out@ == start + render_members(ms, i as nat),
                    decreases v@.len() - i,
                {
                    let ghost done = render_members(ms, i as nat);
                    if i > 0 {
                        out.append(",");
                    }
                    let k = string_literal(v[i].key.as_str());
                    out.append(k.as_str());
                    out.append(":");
                    assert(decreases_to!(*self => self->Object_0));
                    assert(decreases_to!(*v => v[i as int]));
                    v[i].value.write(out);
                    proof {
                        let key = quoted(v@[i as int].key@);
                        let last = render(v@[i as int].value.model());
                        if i == 0 {
                            assert(done =~= seq![]);
                            assert(start + done + key + ":"@ + last =~= start + (key + ":"@ + last));
                        } else {
                            assert(start + done + ","@ + key + ":"@ + last =~= start + (done + ","@
                                + (key + ":"@ + last)));
                        }
                    }
                    i = i + 1;
                }
                out.append("}");
                proof {
                    let body = render_members(ms, ms.len());
                    assert(before + "{"@ + body + "}"@ =~= before + ("{"@ + body + "}"@));
                }
            },
        }
    }

    /// The compact text of a value.
    pub fn to_text(&self) -> (r: String)
        ensures
            r@ == render(self.model()),
    {
        let mut out = String::new();
        self.write(&mut out);
        assert(out@ =~= render(self.model()));
        out
    }

    /// How many bytes the compact text takes.
    pub fn text_size(&self) -> (r: usize)
        ensures
            r == size(render(self.model())),
    {
        byte_size(self.to_text().as_str())
    }
}

// ----- building values -----

impl View for Json {
    type V = JsonModel;

    open spec fn view(&self) -> JsonModel {
        self.model()
    }
}

impl Json {
    /// A copy of a value.
    pub fn copy(&self) -> (r: Json)
        ensures
            r.model() == self.model(),
        decreases self,
    {
        match self {
            Json::Null => Json::Null,
            Json::Bool(b) => Json::Bool(*b),
            Json::Number(n) => Json::Number(*n),
            Json::Text(s) => Json::Text(s.clone()),
            Json::Array(v) => {
                let mut out: Vec<Json> = Vec::new();
                let mut i: usize = 0;
                while i < v.len()
                    invariant
                        i <= v@.len(),
                        *self is Array,
                        self->Array_0 == *v,
                        out@.len() == i,
                        forall|k: int| 0 <= k < i ==> #[trigger] out@[k].model() == v@[k].model(),
                    decreases v@.len() - i,
                {
                    assert(decreases_to!(*self => self->Array_0));
                    assert(decreases_to!(*v => v[i as int]));
                    out.push(v[i].copy());
                    i = i + 1;
                }
                proof {
                    lemma_array_model(*v);
                    lemma_array_model(out);
                    assert(models(out@) =~= models(v@));
                }
                Json::Array(out)
            },
            Json::Object(v) => {
                let mut out: Vec<Member> = Vec::new();
                let mut i: usize = 0;
                while i < v.len()
                    invariant
                        i <= v@.len(),
                        *self is Object,
                        self->Object_0 == *v,
                        out@.len() == i,
                        forall|k: int|
                            0 <= k < i ==> #[trigger] out@[k].key@ == v@[k].key@
                                && out@[k].value.model() == v@[k].value.model(),
                    decreases v@.len() - i,
                {
                    assert(decreases_to!(*self => self->Object_0));
                    assert(decreases_to!(*v => v[i as int]));
                    out.push(Member { key: v[i].key.clone(), value: v[i].value.copy() });
                    i = i + 1;
                }
                proof {
                    lemma_object_model(*v);
                    lemma_object_model(out);
                    assert(member_models(out@) =~= member_models(v@));
                }
                Json::Object(out)
            },
        }
    }
}

/// What can be put on the wire as JSON.
pub trait ToJson: View + Sized {
    /// The JSON value that stands for a value with this view.
    spec fn json_of(v: Self::V) -> JsonModel;

    /// The JSON value that stands for this one.
    fn to_json(&self) -> (r: Json)
        ensures
            r.model() == Self::json_of(self@),
    ;
}

/// The JSON values of a list.
pub open spec fn jsons<T: ToJson>(v: Seq<T::V>) -> Seq<JsonModel> {
    v.map_values(|t: T::V| T::json_of(t))
}

/// A JSON array of a list.
pub fn array_of<T: ToJson>(v: &Vec<T>) -> (r: Json)
    ensures
        r.model() == JsonModel::Array(jsons::<T>(views(v@))),
{
    let mut out: Vec<Json> = Vec::new();
    let mut i: usize = 0;
    while i < v.len()
        invariant
            i <= v@.len(),
            out@.len() == i,
            forall|k: int| 0 <= k < i ==> #[trigger] out@[k].model() == T::json_of(v@[k]@),
        decreases v@.len() - i,
    {
        out.push(v[i].to_json());
        i = i + 1;
    }
    proof {
        lemma_array_model(out);
        assert(models(out@) =~= jsons::<T>(views(v@)));
    }
    Json::Array(out)
}

impl<T: ToJson> ToJson for Vec<T> {
    open spec fn json_of(v: Seq<T>) -> JsonModel {
        JsonModel::Array(jsons::<T>(views(v)))
    }

    fn to_json(&self) -> (r: Json) {
        array_of(self)
    }
}

impl ToJson for Json {
    open spec fn json_of(v: JsonModel) -> JsonModel {
        v
    }

    fn to_json(&self) -> (r: Json) {
        self.copy()
    }
}

impl ToJson for String {
    open spec fn json_of(v: Seq<char>) -> JsonModel {
        JsonModel::Text(v)
    }

    fn to_json(&self) -> (r: Json) {
        Json::Text(self.clone())
    }
}

/// A text value.
pub fn text(s: &str) -> (r: Json)
    ensures
        r.model() == JsonModel::Text(s@),
{
    Json::Text(owned(s))
}

/// A number.
pub fn number(n: u32) -> (r: Json)
    ensures
        r.model() == JsonModel::Number(n as nat),
{
    Json::Number(n as u64)
}

/// A text, or null where there is none.
pub open spec fn text_or_null(o: Option<Seq<char>>) -> JsonModel {
    match o {
        Some(s) => JsonModel::Text(s),
        None => JsonModel::Null,
    }
}

/// A number, or null where there is none.
pub open spec fn number_or_null(o: Option<u32>) -> JsonModel {
    match o {
        Some(n) => JsonModel::Number(n as nat),
        None => JsonModel::Null,
    }
}

/// A number, or null where there is none.
pub fn optional_number(o: Option<u32>) -> (r: Json)
    ensures
        r.model() == number_or_null(o),
{
    match o {
        Some(n) => number(n),
        None => Json::Null,
    }
}

/// A text, or null where there is none.
pub fn optional_text(o: &Option<String>) -> (r: Json)
    ensures
        r.model() == text_or_null(opt_view(*o)),
{
    match o {
        Some(s) => text(s.as_str()),
        None => Json::Null,
    }
}

/// The view of a value that may be absent.
pub open spec fn opt_view<T: View>(o: Option<T>) -> Option<T::V> {
    match o {
        Some(t) => Some(t@),
        None => None,
    }
}

/// An object with these members.
pub fn object(members: Vec<Member>) -> (r: Json)
    ensures
        r.model() == JsonModel::Object(member_models(members@)),
{
    proof {
        lemma_object_model(members);
    }
    Json::Object(members)
}

/// No members yet.
pub fn no_members() -> (r: Vec<Member>)
    ensures
        member_models(r@) == Seq::<(Seq<char>, JsonModel)>::empty(),
{
    let r: Vec<Member> = Vec::new();
    assert(member_models(r@) =~= Seq::<(Seq<char>, JsonModel)>::empty());
    r
}

/// Adds a member at the end.
pub fn put(members: &mut Vec<Member>, key: &str, value: Json)
    ensures
        member_models(final(members)@) == member_models(old(members)@).push((key@, value.model())),
{
    members.push(Member { key: owned(key), value });
    assert(member_models(members@) =~= member_models(old(members)@).push((key@, value.model())));
}

/// A member that is left out where the number is zero.
pub open spec fn unless_zero(key: Seq<char>, n: u32) -> Seq<(Seq<char>, JsonModel)> {
    if n == 0 {
        seq![]
    } else {
        seq![(key, JsonModel::Number(n as nat))]
    }
}

/// A member that is left out where the text is empty.
pub open spec fn unless_empty(key: Seq<char>, s: Seq<char>) -> Seq<(Seq<char>, JsonModel)> {
    if s.len() == 0 {
        seq![]
    } else {
        seq![(key, JsonModel::Text(s))]
    }
}

/// Whether a number is zero, and its member is left out.
pub fn is_zero_u32(n: &u32) -> (r: bool)
    ensures
        r == (*n == 0),
{
    *n == 0
}

/// Adds a member at the end unless the number is zero.
pub fn put_unless_zero(members: &mut Vec<Member>, key: &str, n: u32)
    ensures
        member_models(final(members)@) == member_models(old(members)@) + unless_zero(key@, n),
{
    let ghost before = member_models(members@);
    if is_zero_u32(&n) {
        assert(before + unless_zero(key@, n) =~= before);
    } else {
        put(members, key, number(n));
        assert(before + unless_zero(key@, n) =~= before.push((key@, JsonModel::Number(n as nat))));
    }
}

/// Adds a member at the end unless the text is empty.
pub fn put_unless_empty(members: &mut Vec<Member>, key: &str, s: &str)
    ensures
        member_models(final(members)@) == member_models(old(members)@) + unless_empty(key@, s@),
{
    let ghost before = member_models(members@);
    if s.is_empty() {
        assert(before + unless_empty(key@, s@) =~= before);
    } else {
        put(members, key, text(s));
        assert(before + unless_empty(key@, s@) =~= before.push((key@, JsonModel::Text(s@))));
    }
}

} // verus!
