//! A structured JSON value for the schema-drifting lines the backends
//! stream, with a mathematical model for contracts.
//!
//! Backends disagree on field naming, so the normalizer works by ordered
//! fallback lookups against this generic value type, never against
//! backend-specific structs. Parsing a line is delegated to serde_json
//! behind one trusted wrapper; everything that reads the parsed value is
//! verified against the model.

use vstd::prelude::*;
use crate::strutil::{all_digits, dec_val, parse_u64, push_char, str_eq};
use vstd::string::StringExecFns;
use vstd::string::StrSliceExecFns;

verus! {

/// The mathematical shape of a JSON value. Numbers carry their own source
/// text: the normalizer only ever reads them as unsigned integers, and
/// anything else round-trips through the text unchanged.
#[verifier::ext_equal]
pub enum JsonModel {
    Null,
    Bool(bool),
    Num(Seq<char>),
    Str(Seq<char>),
    Arr(Seq<JsonModel>),
    Obj(Seq<(Seq<char>, JsonModel)>),
}

/// A parsed JSON value. Object members keep the order the parser handed
/// them out in; keys are unique as parsed.
pub enum JsonValue {
    Null,
    Bool(bool),
    Num(String),
    Str(String),
    Arr(Vec<JsonValue>),
    Obj(Vec<(String, JsonValue)>),
}

pub open spec fn models_of(s: Seq<JsonValue>) -> Seq<JsonModel>
    decreases s,
{
    if s.len() == 0 {
        Seq::empty()
    } else {
        seq![model_of(s[0])] + models_of(s.drop_first())
    }
}

pub open spec fn pair_models_of(s: Seq<(String, JsonValue)>) -> Seq<(Seq<char>, JsonModel)>
    decreases s,
{
    if s.len() == 0 {
        Seq::empty()
    } else {
        seq![(s[0].0@, model_of(s[0].1))] + pair_models_of(s.drop_first())
    }
}

pub open spec fn model_of(v: JsonValue) -> JsonModel
    decreases v,
{
    match v {
        JsonValue::Null => JsonModel::Null,
        JsonValue::Bool(b) => JsonModel::Bool(b),
        JsonValue::Num(t) => JsonModel::Num(t@),
        JsonValue::Str(s) => JsonModel::Str(s@),
        JsonValue::Arr(items) => JsonModel::Arr(models_of(items@)),
        JsonValue::Obj(pairs) => JsonModel::Obj(pair_models_of(pairs@)),
    }
}

impl View for JsonValue {
    type V = JsonModel;

    open spec fn view(&self) -> JsonModel {
        model_of(*self)
    }
}

pub broadcast proof fn lemma_models_of_index(s: Seq<JsonValue>)
    ensures
        (#[trigger] models_of(s)).len() == s.len(),
        forall|i: int| 0 <= i < s.len() ==> #[trigger] models_of(s)[i] == model_of(s[i]),
    decreases s.len(),
{
    if s.len() > 0 {
        lemma_models_of_index(s.drop_first());
        assert(forall|i: int|
            1 <= i < s.len() ==> #[trigger] models_of(s)[i] == models_of(s.drop_first())[i - 1]);
        assert(forall|i: int| 1 <= i < s.len() ==> s.drop_first()[i - 1] == s[i]);
    }
}

pub broadcast proof fn lemma_pair_models_of_index(s: Seq<(String, JsonValue)>)
    ensures
        (#[trigger] pair_models_of(s)).len() == s.len(),
        forall|i: int|
            0 <= i < s.len() ==> #[trigger] pair_models_of(s)[i] == (s[i].0@, model_of(s[i].1)),
    decreases s.len(),
{
    if s.len() > 0 {
        lemma_pair_models_of_index(s.drop_first());
        assert(forall|i: int|
            1 <= i < s.len() ==> #[trigger] pair_models_of(s)[i] == pair_models_of(
                s.drop_first(),
            )[i - 1]);
        assert(forall|i: int| 1 <= i < s.len() ==> s.drop_first()[i - 1] == s[i]);
    }
}

/// The first member of an object with the given key, if any.
pub open spec fn spec_lookup(pairs: Seq<(Seq<char>, JsonModel)>, k: Seq<char>) -> Option<JsonModel>
    decreases pairs.len(),
{
    if pairs.len() == 0 {
        None
    } else if pairs[0].0 == k {
        Some(pairs[0].1)
    } else {
        spec_lookup(pairs.drop_first(), k)
    }
}

pub proof fn lemma_lookup_at(pairs: Seq<(Seq<char>, JsonModel)>, k: Seq<char>, i: int)
    requires
        0 <= i < pairs.len(),
        pairs[i].0 == k,
        forall|j: int| 0 <= j < i ==> (#[trigger] pairs[j]).0 != k,
    ensures
        spec_lookup(pairs, k) == Some(pairs[i].1),
    decreases i,
{
    if i > 0 {
        assert(pairs[0].0 != k);
        lemma_lookup_at(pairs.drop_first(), k, i - 1);
        assert(pairs.drop_first()[i - 1] == pairs[i]);
        assert(forall|j: int| 0 <= j < i - 1 ==> (#[trigger] pairs.drop_first()[j]) == pairs[j + 1]);
    }
}

pub proof fn lemma_lookup_absent(pairs: Seq<(Seq<char>, JsonModel)>, k: Seq<char>)
    requires
        forall|j: int| 0 <= j < pairs.len() ==> (#[trigger] pairs[j]).0 != k,
    ensures
        spec_lookup(pairs, k) is None,
    decreases pairs.len(),
{
    if pairs.len() > 0 {
        lemma_lookup_absent(pairs.drop_first(), k);
    }
}

/// Field access: the member named `k` of an object; `None` on anything that
/// is not an object with that member.
pub open spec fn spec_get(m: JsonModel, k: Seq<char>) -> Option<JsonModel> {
    match m {
        JsonModel::Obj(pairs) => spec_lookup(pairs, k),
        _ => None,
    }
}

/// The character content of a string value.
pub open spec fn spec_as_str(m: JsonModel) -> Option<Seq<char>> {
    match m {
        JsonModel::Str(s) => Some(s),
        _ => None,
    }
}

/// The value of a number that is a plain unsigned decimal integer fitting
/// a `u64`; negative, fractional, or exponent-form numbers have none.
pub open spec fn spec_as_u64(m: JsonModel) -> Option<u64> {
    match m {
        JsonModel::Num(t) => if t.len() > 0 && all_digits(t) && dec_val(t) <= u64::MAX {
            Some(dec_val(t) as u64)
        } else {
            None
        },
        _ => None,
    }
}

impl JsonValue {
    /// The member named `k`, when this is an object that has one.
    #[verifier::loop_isolation(false)]
    pub fn get<'a>(&'a self, k: &str) -> (r: Option<&'a JsonValue>)
        ensures
            match r {
                Some(x) => spec_get(self@, k@) == Some(x@),
                None => spec_get(self@, k@) is None,
            },
    {
        match self {
            JsonValue::Obj(pairs) => {
                proof {
                    lemma_pair_models_of_index(pairs@);
                }
                let ghost mp = pair_models_of(pairs@);
                proof {
                    assert(self@ == JsonModel::Obj(mp));
                    assert(mp.skip(0) =~= mp);
                }
                let mut i: usize = 0;
                while i < pairs.len()
                    invariant
                        i <= pairs@.len(),
                        mp == pair_models_of(pairs@),
                        mp.len() == pairs@.len(),
                        forall|j: int|
                            0 <= j < pairs@.len() ==> mp[j] == ((#[trigger] pairs@[j]).0@,
                            model_of(pairs@[j].1)),
                        spec_lookup(mp, k@) == spec_lookup(mp.skip(i as int), k@),
                        forall|j: int| 0 <= j < i ==> mp[j].0 != k@,
                    decreases pairs@.len() - i,
                {
                    proof {
                        assert(mp.skip(i as int)[0] == mp[i as int]);
                        assert(mp.skip(i as int).drop_first() =~= mp.skip(i + 1));
                    }
                    if str_eq(pairs[i].0.as_str(), k) {
                        proof {
                            assert(spec_lookup(mp.skip(i as int), k@) == Some(mp[i as int].1));
                        }
                        return Some(&pairs[i].1);
                    }
                    i = i + 1;
                }
                proof {
                    assert(mp.skip(pairs@.len() as int) =~= Seq::<(Seq<char>, JsonModel)>::empty());
                }
                None
            },
            _ => None,
        }
    }

    /// The string content, when this is a string.
    pub fn as_str<'a>(&'a self) -> (r: Option<&'a str>)
        ensures
            match r {
                Some(s) => spec_as_str(self@) == Some(s@),
                None => spec_as_str(self@) is None,
            },
    {
        match self {
            JsonValue::Str(s) => Some(s.as_str()),
            _ => None,
        }
    }

    /// The numeric value, when this is a plain unsigned decimal integer in
    /// `u64` range.
    pub fn as_u64(&self) -> (r: Option<u64>)
        ensures
            r == spec_as_u64(self@),
    {
        match self {
            JsonValue::Num(t) => parse_u64(t.as_str()),
            _ => None,
        }
    }

    /// The elements, when this is an array.
    pub fn as_array<'a>(&'a self) -> (r: Option<&'a Vec<JsonValue>>)
        ensures
            match r {
                Some(items) => self@ is Arr && self@->Arr_0 == models_of(items@),
                None => !(self@ is Arr),
            },
    {
        match self {
            JsonValue::Arr(items) => Some(items),
            _ => None,
        }
    }

    /// The members, when this is an object.
    pub fn as_object<'a>(&'a self) -> (r: Option<&'a Vec<(String, JsonValue)>>)
        ensures
            match r {
                Some(pairs) => self@ is Obj && self@->Obj_0 == pair_models_of(pairs@),
                None => !(self@ is Obj),
            },
    {
        match self {
            JsonValue::Obj(pairs) => Some(pairs),
            _ => None,
        }
    }

    /// A structurally equal copy.
    #[verifier::loop_isolation(false)]
    pub fn deep_clone(&self) -> (r: JsonValue)
        ensures
            r@ == self@,
        decreases self,
    {
        match self {
            JsonValue::Null => JsonValue::Null,
            JsonValue::Bool(b) => JsonValue::Bool(*b),
            JsonValue::Num(t) => JsonValue::Num(t.clone()),
            JsonValue::Str(s) => JsonValue::Str(s.clone()),
            JsonValue::Arr(items) => {
                let mut out: Vec<JsonValue> = Vec::new();
                let mut i: usize = 0;
                while i < items.len()
                    invariant
                        i <= items@.len(),
                        out@.len() == i,
                        forall|j: int| 0 <= j < i ==> (#[trigger] out@[j])@ == items@[j]@,
                    decreases items@.len() - i,
                {
                    proof {
                        assert(decreases_to!(*self => (*self)->Arr_0));
                        assert((*self)->Arr_0 == *items);
                        assert(decreases_to!(*items => items@));
                        assert(decreases_to!(items@ => items@[i as int]));
                    }
                    let c = items[i].deep_clone();
                    out.push(c);
                    i = i + 1;
                }
                proof {
                    lemma_models_of_index(items@);
                    lemma_models_of_index(out@);
                    assert(models_of(out@) =~= models_of(items@));
                }
                JsonValue::Arr(out)
            },
            JsonValue::Obj(pairs) => {
                let mut out: Vec<(String, JsonValue)> = Vec::new();
                let mut i: usize = 0;
                while i < pairs.len()
                    invariant
                        i <= pairs@.len(),
                        out@.len() == i,
                        forall|j: int|
                            0 <= j < i ==> (#[trigger] out@[j]).0@ == pairs@[j].0@ && out@[j].1@
                                == pairs@[j].1@,
                    decreases pairs@.len() - i,
                {
                    proof {
                        assert(decreases_to!(*self => (*self)->Obj_0));
                        assert((*self)->Obj_0 == *pairs);
                        assert(decreases_to!(*pairs => pairs@));
                        assert(decreases_to!(pairs@ => pairs@[i as int]));
                        assert(decreases_to!(pairs@[i as int] => pairs@[i as int].1));
                    }
                    let k = pairs[i].0.clone();
                    let v = pairs[i].1.deep_clone();
                    out.push((k, v));
                    i = i + 1;
                }
                proof {
                    lemma_pair_models_of_index(pairs@);
                    lemma_pair_models_of_index(out@);
                    assert(pair_models_of(out@) =~= pair_models_of(pairs@));
                }
                JsonValue::Obj(out)
            },
        }
    }
}

/// A hexadecimal digit, lower case.
pub open spec fn hex_digit(n: int) -> char {
    if n == 0 { '0' } else if n == 1 { '1' } else if n == 2 { '2' } else if n == 3 { '3' }
    else if n == 4 { '4' } else if n == 5 { '5' } else if n == 6 { '6' } else if n == 7 { '7' }
    else if n == 8 { '8' } else if n == 9 { '9' } else if n == 10 { 'a' } else if n == 11 { 'b' }
    else if n == 12 { 'c' } else if n == 13 { 'd' } else if n == 14 { 'e' } else if n == 15 { 'f' }
    else { '0' }
}

/// One character of a JSON string as it is written out: quote and backslash
/// escaped, control characters as their short escapes or `\u00XX`.
pub open spec fn json_escaped_char(c: char) -> Seq<char> {
    if c == '"' {
        seq!['\\', '"']
    } else if c == '\\' {
        seq!['\\', '\\']
    } else if c == '\u{8}' {
        seq!['\\', 'b']
    } else if c == '\u{c}' {
        seq!['\\', 'f']
    } else if c == '\n' {
        seq!['\\', 'n']
    } else if c == '\r' {
        seq!['\\', 'r']
    } else if c == '\t' {
        seq!['\\', 't']
    } else if (c as u32) < 32 {
        seq!['\\', 'u', '0', '0', hex_digit(c as u32 as int / 16), hex_digit(c as u32 as int % 16)]
    } else {
        seq![c]
    }
}

pub open spec fn json_escaped(s: Seq<char>) -> Seq<char>
    decreases s.len(),
{
    if s.len() == 0 {
        Seq::empty()
    } else {
        json_escaped_char(s[0]) + json_escaped(s.drop_first())
    }
}

/// A string value as written in JSON text.
pub open spec fn json_quoted(s: Seq<char>) -> Seq<char> {
    seq!['"'] + json_escaped(s) + seq!['"']
}

/// The compact JSON text of a value: no added whitespace, members in the
/// order held, numbers by their own text.
pub open spec fn json_text(m: JsonModel) -> Seq<char>
    decreases m, 2int,
{
    match m {
        JsonModel::Null => "null"@,
        JsonModel::Bool(b) => if b {
            "true"@
        } else {
            "false"@
        },
        JsonModel::Num(t) => t,
        JsonModel::Str(s) => json_quoted(s),
        JsonModel::Arr(items) => seq!['['] + json_items(items) + seq![']'],
        JsonModel::Obj(pairs) => seq!['{'] + json_members(pairs) + seq!['}'],
    }
}

pub open spec fn json_items(items: Seq<JsonModel>) -> Seq<char>
    decreases items, 1int,
{
    if items.len() == 0 {
        Seq::empty()
    } else if items.len() == 1 {
        json_text(items[0])
    } else {
        json_text(items[0]) + seq![','] + json_items(items.drop_first())
    }
}

pub open spec fn json_members(pairs: Seq<(Seq<char>, JsonModel)>) -> Seq<char>
    decreases pairs, 1int,
{
    if pairs.len() == 0 {
        Seq::empty()
    } else if pairs.len() == 1 {
        json_quoted(pairs[0].0) + seq![':'] + json_text(pairs[0].1)
    } else {
        json_quoted(pairs[0].0) + seq![':'] + json_text(pairs[0].1) + seq![','] + json_members(
            pairs.drop_first(),
        )
    }
}

proof fn lemma_json_escaped_push(s: Seq<char>, c: char)
    ensures
        json_escaped(s.push(c)) == json_escaped(s) + json_escaped_char(c),
    decreases s.len(),
{
    let p = s.push(c);
    if s.len() == 0 {
        assert(p[0] == c);
        assert(p.drop_first() =~= Seq::<char>::empty());
        assert(json_escaped(p.drop_first()) == Seq::<char>::empty());
        assert(json_escaped_char(c) + Seq::<char>::empty() =~= Seq::<char>::empty()
            + json_escaped_char(c));
        assert(json_escaped(s) == Seq::<char>::empty());
    } else {
        lemma_json_escaped_push(s.drop_first(), c);
        assert(p.drop_first() =~= s.drop_first().push(c));
        assert(p[0] == s[0]);
        assert(json_escaped(p) =~= json_escaped(s) + json_escaped_char(c));
    }
}

proof fn lemma_json_items_push(s: Seq<JsonModel>, x: JsonModel)
    ensures
        json_items(s.push(x)) == if s.len() == 0 {
            json_text(x)
        } else {
            json_items(s) + seq![','] + json_text(x)
        },
    decreases s.len(),
{
    let p = s.push(x);
    if s.len() == 0 {
        assert(p[0] == x);
    } else {
        assert(p[0] == s[0]);
        assert(p.drop_first() =~= s.drop_first().push(x));
        lemma_json_items_push(s.drop_first(), x);
        assert(json_items(p) =~= json_items(s) + seq![','] + json_text(x));
    }
}

proof fn lemma_json_members_push(s: Seq<(Seq<char>, JsonModel)>, x: (Seq<char>, JsonModel))
    ensures
        json_members(s.push(x)) == if s.len() == 0 {
            json_quoted(x.0) + seq![':'] + json_text(x.1)
        } else {
            json_members(s) + seq![','] + json_quoted(x.0) + seq![':'] + json_text(x.1)
        },
    decreases s.len(),
{
    let p = s.push(x);
    if s.len() == 0 {
        assert(p[0] == x);
        assert((p[0].0, p[0].1) =~= x);
        assert(json_members(p) =~= json_quoted(x.0) + seq![':'] + json_text(x.1));
    } else {
        assert(p[0] == s[0]);
        assert(p.drop_first() =~= s.drop_first().push(x));
        lemma_json_members_push(s.drop_first(), x);
        assert(json_members(p) =~= json_members(s) + seq![','] + json_quoted(x.0) + seq![':']
            + json_text(x.1));
    }
}

fn hex_digit_exec(n: u32) -> (r: char)
    ensures
        r == hex_digit(n as int),
{
    if n == 0 { '0' } else if n == 1 { '1' } else if n == 2 { '2' } else if n == 3 { '3' }
    else if n == 4 { '4' } else if n == 5 { '5' } else if n == 6 { '6' } else if n == 7 { '7' }
    else if n == 8 { '8' } else if n == 9 { '9' } else if n == 10 { 'a' } else if n == 11 { 'b' }
    else if n == 12 { 'c' } else if n == 13 { 'd' } else if n == 14 { 'e' } else if n == 15 { 'f' }
    else { '0' }
}

/// Writes one string value, quoted and escaped.
#[verifier::loop_isolation(false)]
fn write_quoted(s: &str, out: &mut String)
    ensures
        final(out)@ == old(out)@ + json_quoted(s@),
{
    push_char(out, '"');
    let len = s.unicode_len();
    let mut i: usize = 0;
    while i < len
        invariant
            len == s@.len(),
            i <= len,
            out@ == old(out)@ + seq!['"'] + json_escaped(s@.take(i as int)),
        decreases len - i,
    {
        let c = s.get_char(i);
        proof {
            lemma_json_escaped_push(s@.take(i as int), c);
            assert(s@.take(i + 1) =~= s@.take(i as int).push(s@[i as int]));
        }
        if c == '"' {
            push_char(out, '\\');
            push_char(out, '"');
        } else if c == '\\' {
            push_char(out, '\\');
            push_char(out, '\\');
        } else if c == '\u{8}' {
            push_char(out, '\\');
            push_char(out, 'b');
        } else if c == '\u{c}' {
            push_char(out, '\\');
            push_char(out, 'f');
        } else if c == '\n' {
            push_char(out, '\\');
            push_char(out, 'n');
        } else if c == '\r' {
            push_char(out, '\\');
            push_char(out, 'r');
        } else if c == '\t' {
            push_char(out, '\\');
            push_char(out, 't');
        } else if (c as u32) < 32 {
            push_char(out, '\\');
            push_char(out, 'u');
            push_char(out, '0');
            push_char(out, '0');
            push_char(out, hex_digit_exec((c as u32) / 16));
            push_char(out, hex_digit_exec((c as u32) % 16));
        } else {
            push_char(out, c);
        }
        proof {
            assert(out@ =~= old(out)@ + seq!['"'] + json_escaped(s@.take(i + 1)));
        }
        i = i + 1;
    }
    proof {
        assert(s@.take(len as int) =~= s@);
    }
    push_char(out, '"');
    proof {
        assert(out@ =~= old(out)@ + json_quoted(s@));
    }
}

/// Writes the compact JSON text of a value.
#[verifier::loop_isolation(false)]
#[verifier::rlimit(60)]
fn write_json(v: &JsonValue, out: &mut String)
    ensures
        final(out)@ == old(out)@ + json_text(v@),
    decreases *v,
{
    match v {
        JsonValue::Null => {
            out.append("null");
        },
        JsonValue::Bool(b) => {
            if *b {
                out.append("true");
            } else {
                out.append("false");
            }
        },
        JsonValue::Num(t) => {
            out.append(t.as_str());
        },
        JsonValue::Str(s) => {
            write_quoted(s.as_str(), out);
        },
        JsonValue::Arr(items) => {
            proof {
                lemma_models_of_index(items@);
            }
            let ghost ms = models_of(items@);
            push_char(out, '[');
            let mut i: usize = 0;
            while i < items.len()
                invariant
                    i <= items@.len(),
                    out@ == old(out)@ + seq!['['] + json_items(ms.take(i as int)),
                decreases items@.len() - i,
            {
                proof {
                    lemma_json_items_push(ms.take(i as int), ms[i as int]);
                    assert(ms.take(i + 1) =~= ms.take(i as int).push(ms[i as int]));
                    assert(decreases_to!(*v => (*v)->Arr_0));
                    assert((*v)->Arr_0 == *items);
                    assert(decreases_to!(*items => items@));
                    assert(decreases_to!(items@ => items@[i as int]));
                }
                if i > 0 {
                    push_char(out, ',');
                }
                write_json(&items[i], out);
                proof {
                    assert(out@ =~= old(out)@ + seq!['['] + json_items(ms.take(i + 1)));
                }
                i = i + 1;
            }
            proof {
                assert(ms.take(items@.len() as int) =~= ms);
            }
            push_char(out, ']');
            proof {
                assert(out@ =~= old(out)@ + json_text(v@));
            }
        },
        JsonValue::Obj(pairs) => {
            proof {
                lemma_pair_models_of_index(pairs@);
            }
            let ghost mp = pair_models_of(pairs@);
            push_char(out, '{');
            let mut i: usize = 0;
            while i < pairs.len()
                invariant
                    i <= pairs@.len(),
                    out@ == old(out)@ + seq!['{'] + json_members(mp.take(i as int)),
                decreases pairs@.len() - i,
            {
                proof {
                    lemma_json_members_push(mp.take(i as int), mp[i as int]);
                    assert(mp.take(i + 1) =~= mp.take(i as int).push(mp[i as int]));
                    assert(decreases_to!(*v => (*v)->Obj_0));
                    assert((*v)->Obj_0 == *pairs);
                    assert(decreases_to!(*pairs => pairs@));
                    assert(decreases_to!(pairs@ => pairs@[i as int]));
                    assert(decreases_to!(pairs@[i as int] => pairs@[i as int].1));
                }
                if i > 0 {
                    push_char(out, ',');
                }
                write_quoted(pairs[i].0.as_str(), out);
                push_char(out, ':');
                write_json(&pairs[i].1, out);
                proof {
                    assert(out@ =~= old(out)@ + seq!['{'] + json_members(mp.take(i + 1)));
                }
                i = i + 1;
            }
            proof {
                assert(mp.take(pairs@.len() as int) =~= mp);
            }
            push_char(out, '}');
            proof {
                assert(out@ =~= old(out)@ + json_text(v@));
            }
        },
    }
}

impl JsonValue {
    /// The compact JSON text of this value, as a tool output is shown when
    /// a backend hands over something other than a string.
    pub fn to_json_text(&self) -> (r: String)
        ensures
            r@ == json_text(self@),
    {
        let mut out = String::new();
        write_json(self, &mut out);
        out
    }
}

/// What serde_json parses one log line into, translated to the library's
/// value type; the result is a function of the bytes alone.
pub uninterp spec fn parsed_json(line: Seq<u8>) -> Option<JsonModel>;

#[verifier::external_type_specification]
#[verifier::external_body]
pub struct ExValue(serde_json::Value);

/// Conversion half of [`parse_json`]: carries a parsed serde_json tree over
/// into the library's value type, field for field. Only [`parse_json`]'s
/// body calls it.
#[verifier::external_body]
fn from_serde(v: &serde_json::Value) -> JsonValue {
    match v {
        serde_json::Value::Null => JsonValue::Null,
        serde_json::Value::Bool(b) => JsonValue::Bool(*b),
        serde_json::Value::Number(n) => JsonValue::Num(n.to_string()),
        serde_json::Value::String(s) => JsonValue::Str(s.clone()),
        serde_json::Value::Array(a) => JsonValue::Arr(a.iter().map(from_serde).collect()),
        serde_json::Value::Object(m) => JsonValue::Obj(
            m.iter().map(|(k, x)| (k.clone(), from_serde(x))).collect(),
        ),
    }
}

/// Relies on serde_json::from_slice: parses one complete JSON value from
/// the line, or nothing when the line is not valid JSON.
#[verifier::external_body]
pub fn parse_json(line: &[u8]) -> (r: Option<JsonValue>)
    ensures
        match r {
            Some(v) => parsed_json(line@) == Some(v@),
            None => parsed_json(line@) is None,
        },
{
    serde_json::from_slice::<serde_json::Value>(line).ok().map(|v| from_serde(&v))
}

} // verus!
