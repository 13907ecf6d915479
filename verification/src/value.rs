//! The generic document value and its storage encoding.
//!
//! Domain records become a recursive generic value (null / bool / number /
//! string / array / map) before reaching the backend; whole snapshots and
//! digest item lists travel as one such value. Numbers decode by trying an
//! integer first, then a floating-point numeral, then falling back to the
//! raw text — a defensive path, not expected in normal operation. The codec
//! round-trips every well-formed value, nested array-of-map included.

use vstd::prelude::*;
use crate::num::{
    dec_of_int, fmt_i64, float_numeral, int_numeral_val, is_float_numeral, is_i64_numeral,
    lemma_int_numeral_round_trip, parse_i64,
};

verus! {

/// The abstract form of a document value.
pub ghost enum ValueV {
    Null,
    Bool(bool),
    Int(int),
    Float(Seq<char>),
    Str(Seq<char>),
    Arr(Seq<ValueV>),
    Obj(Seq<(Seq<char>, ValueV)>),
}

/// The abstract form of a storage attribute.
pub ghost enum AttrV {
    Null,
    Bool(bool),
    N(Seq<char>),
    S(Seq<char>),
    L(Seq<AttrV>),
    M(Seq<(Seq<char>, AttrV)>),
}

/// A generic document value.
#[derive(Debug, PartialEq, Eq)]
pub enum Value {
    Null,
    Bool(bool),
    Int(i64),
    /// A non-integer numeral, kept as its decimal text.
    Float(String),
    Str(String),
    Arr(Vec<Value>),
    Obj(Vec<(String, Value)>),
}

/// A storage attribute value: the backend's document encoding.
#[derive(Debug, PartialEq, Eq)]
pub enum Attr {
    Null,
    Bool(bool),
    /// A number, as decimal text.
    N(String),
    S(String),
    L(Vec<Attr>),
    M(Vec<(String, Attr)>),
}

/// The abstract form of a value.
pub open spec fn value_view(v: Value) -> ValueV
    decreases v, 1int, 0int,
{
    match v {
        Value::Null => ValueV::Null,
        Value::Bool(b) => ValueV::Bool(b),
        Value::Int(i) => ValueV::Int(i as int),
        Value::Float(s) => ValueV::Float(s@),
        Value::Str(s) => ValueV::Str(s@),
        Value::Arr(vs) => ValueV::Arr(value_views(vs@, 0)),
        Value::Obj(kvs) => ValueV::Obj(value_pair_views(kvs@, 0)),
    }
}

/// The views of the values from index `i` on.
pub open spec fn value_views(s: Seq<Value>, i: int) -> Seq<ValueV>
    decreases s, 0int, s.len() - i,
{
    if 0 <= i < s.len() {
        seq![value_view(s[i])] + value_views(s, i + 1)
    } else {
        Seq::empty()
    }
}

/// The views of the key/value pairs from index `i` on.
pub open spec fn value_pair_views(s: Seq<(String, Value)>, i: int) -> Seq<(Seq<char>, ValueV)>
    decreases s, 0int, s.len() - i,
{
    if 0 <= i < s.len() {
        seq![(s[i].0@, value_view(s[i].1))] + value_pair_views(s, i + 1)
    } else {
        Seq::empty()
    }
}

/// The abstract form of an attribute.
pub open spec fn attr_view(a: Attr) -> AttrV
    decreases a, 1int, 0int,
{
    match a {
        Attr::Null => AttrV::Null,
        Attr::Bool(b) => AttrV::Bool(b),
        Attr::N(s) => AttrV::N(s@),
        Attr::S(s) => AttrV::S(s@),
        Attr::L(items) => AttrV::L(attr_views(items@, 0)),
        Attr::M(kvs) => AttrV::M(attr_pair_views(kvs@, 0)),
    }
}

/// The views of the attributes from index `i` on.
pub open spec fn attr_views(s: Seq<Attr>, i: int) -> Seq<AttrV>
    decreases s, 0int, s.len() - i,
{
    if 0 <= i < s.len() {
        seq![attr_view(s[i])] + attr_views(s, i + 1)
    } else {
        Seq::empty()
    }
}

/// The views of the key/attribute pairs from index `i` on.
pub open spec fn attr_pair_views(s: Seq<(String, Attr)>, i: int) -> Seq<(Seq<char>, AttrV)>
    decreases s, 0int, s.len() - i,
{
    if 0 <= i < s.len() {
        seq![(s[i].0@, attr_view(s[i].1))] + attr_pair_views(s, i + 1)
    } else {
        Seq::empty()
    }
}

impl View for Value {
    type V = ValueV;

    open spec fn view(&self) -> ValueV {
        value_view(*self)
    }
}

impl View for Attr {
    type V = AttrV;

    open spec fn view(&self) -> AttrV {
        attr_view(*self)
    }
}

/// A value the codec round-trips: integers fit the machine word, and a
/// float's text really is a non-integer numeral.
pub open spec fn wf_value(v: ValueV) -> bool
    decreases v, 1int, 0int,
{
    match v {
        ValueV::Null => true,
        ValueV::Bool(_) => true,
        ValueV::Int(i) => i64::MIN <= i <= i64::MAX,
        ValueV::Float(s) => is_float_numeral(s) && !is_i64_numeral(s),
        ValueV::Str(_) => true,
        ValueV::Arr(vs) => wf_values(vs, 0),
        ValueV::Obj(kvs) => wf_value_pairs(kvs, 0),
    }
}

/// All values from index `i` on are well formed.
pub open spec fn wf_values(s: Seq<ValueV>, i: int) -> bool
    decreases s, 0int, s.len() - i,
{
    if 0 <= i < s.len() {
        wf_value(s[i]) && wf_values(s, i + 1)
    } else {
        true
    }
}

/// All pair values from index `i` on are well formed.
pub open spec fn wf_value_pairs(s: Seq<(Seq<char>, ValueV)>, i: int) -> bool
    decreases s, 0int, s.len() - i,
{
    if 0 <= i < s.len() {
        wf_value(s[i].1) && wf_value_pairs(s, i + 1)
    } else {
        true
    }
}

/// What encoding a value yields.
pub open spec fn spec_encode(v: ValueV) -> AttrV
    decreases v, 1int, 0int,
{
    match v {
        ValueV::Null => AttrV::Null,
        ValueV::Bool(b) => AttrV::Bool(b),
        ValueV::Int(i) => AttrV::N(dec_of_int(i)),
        ValueV::Float(s) => AttrV::N(s),
        ValueV::Str(s) => AttrV::S(s),
        ValueV::Arr(vs) => AttrV::L(encode_values(vs, 0)),
        ValueV::Obj(kvs) => AttrV::M(encode_value_pairs(kvs, 0)),
    }
}

/// The encodings of the values from index `i` on.
pub open spec fn encode_values(s: Seq<ValueV>, i: int) -> Seq<AttrV>
    decreases s, 0int, s.len() - i,
{
    if 0 <= i < s.len() {
        seq![spec_encode(s[i])] + encode_values(s, i + 1)
    } else {
        Seq::empty()
    }
}

/// The encodings of the pairs from index `i` on.
pub open spec fn encode_value_pairs(s: Seq<(Seq<char>, ValueV)>, i: int) -> Seq<(Seq<char>, AttrV)>
    decreases s, 0int, s.len() - i,
{
    if 0 <= i < s.len() {
        seq![(s[i].0, spec_encode(s[i].1))] + encode_value_pairs(s, i + 1)
    } else {
        Seq::empty()
    }
}

/// What decoding an attribute yields: numbers try integer, then float, then
/// fall back to the raw text.
pub open spec fn spec_decode(a: AttrV) -> ValueV
    decreases a, 1int, 0int,
{
    match a {
        AttrV::Null => ValueV::Null,
        AttrV::Bool(b) => ValueV::Bool(b),
        AttrV::N(s) => if is_i64_numeral(s) {
            ValueV::Int(int_numeral_val(s))
        } else if is_float_numeral(s) {
            ValueV::Float(s)
        } else {
            ValueV::Str(s)
        },
        AttrV::S(s) => ValueV::Str(s),
        AttrV::L(items) => ValueV::Arr(decode_attrs(items, 0)),
        AttrV::M(kvs) => ValueV::Obj(decode_attr_pairs(kvs, 0)),
    }
}

/// The decodings of the attributes from index `i` on.
pub open spec fn decode_attrs(s: Seq<AttrV>, i: int) -> Seq<ValueV>
    decreases s, 0int, s.len() - i,
{
    if 0 <= i < s.len() {
        seq![spec_decode(s[i])] + decode_attrs(s, i + 1)
    } else {
        Seq::empty()
    }
}

/// The decodings of the pairs from index `i` on.
pub open spec fn decode_attr_pairs(s: Seq<(Seq<char>, AttrV)>, i: int) -> Seq<(Seq<char>, ValueV)>
    decreases s, 0int, s.len() - i,
{
    if 0 <= i < s.len() {
        seq![(s[i].0, spec_decode(s[i].1))] + decode_attr_pairs(s, i + 1)
    } else {
        Seq::empty()
    }
}

/// Index form of `value_views`.
pub proof fn lemma_value_views(s: Seq<Value>, i: int)
    requires
        0 <= i <= s.len(),
    ensures
        value_views(s, i).len() == s.len() - i,
        forall|k: int|
            0 <= k < s.len() - i ==> #[trigger] value_views(s, i)[k] == value_view(s[i + k]),
    decreases s.len() - i,
{
    if i < s.len() {
        lemma_value_views(s, i + 1);
    }
}

/// Index form of `value_pair_views`.
pub proof fn lemma_value_pair_views(s: Seq<(String, Value)>, i: int)
    requires
        0 <= i <= s.len(),
    ensures
        value_pair_views(s, i).len() == s.len() - i,
        forall|k: int|
            0 <= k < s.len() - i ==> #[trigger] value_pair_views(s, i)[k] == (
                s[i + k].0@,
                value_view(s[i + k].1),
            ),
    decreases s.len() - i,
{
    if i < s.len() {
        lemma_value_pair_views(s, i + 1);
    }
}

/// Index form of `attr_views`.
proof fn lemma_attr_views(s: Seq<Attr>, i: int)
    requires
        0 <= i <= s.len(),
    ensures
        attr_views(s, i).len() == s.len() - i,
        forall|k: int| 0 <= k < s.len() - i ==> #[trigger] attr_views(s, i)[k] == attr_view(s[i + k]),
    decreases s.len() - i,
{
    if i < s.len() {
        lemma_attr_views(s, i + 1);
    }
}

/// Index form of `attr_pair_views`.
proof fn lemma_attr_pair_views(s: Seq<(String, Attr)>, i: int)
    requires
        0 <= i <= s.len(),
    ensures
        attr_pair_views(s, i).len() == s.len() - i,
        forall|k: int|
            0 <= k < s.len() - i ==> #[trigger] attr_pair_views(s, i)[k] == (
                s[i + k].0@,
                attr_view(s[i + k].1),
            ),
    decreases s.len() - i,
{
    if i < s.len() {
        lemma_attr_pair_views(s, i + 1);
    }
}

/// Index form of `encode_values`.
proof fn lemma_encode_values(s: Seq<ValueV>, i: int)
    requires
        0 <= i <= s.len(),
    ensures
        encode_values(s, i).len() == s.len() - i,
        forall|k: int|
            0 <= k < s.len() - i ==> #[trigger] encode_values(s, i)[k] == spec_encode(s[i + k]),
    decreases s.len() - i,
{
    if i < s.len() {
        lemma_encode_values(s, i + 1);
    }
}

/// Index form of `encode_value_pairs`.
proof fn lemma_encode_value_pairs(s: Seq<(Seq<char>, ValueV)>, i: int)
    requires
        0 <= i <= s.len(),
    ensures
        encode_value_pairs(s, i).len() == s.len() - i,
        forall|k: int|
            0 <= k < s.len() - i ==> #[trigger] encode_value_pairs(s, i)[k] == (
                s[i + k].0,
                spec_encode(s[i + k].1),
            ),
    decreases s.len() - i,
{
    if i < s.len() {
        lemma_encode_value_pairs(s, i + 1);
    }
}

/// Index form of `decode_attrs`.
proof fn lemma_decode_attrs(s: Seq<AttrV>, i: int)
    requires
        0 <= i <= s.len(),
    ensures
        decode_attrs(s, i).len() == s.len() - i,
        forall|k: int|
            0 <= k < s.len() - i ==> #[trigger] decode_attrs(s, i)[k] == spec_decode(s[i + k]),
    decreases s.len() - i,
{
    if i < s.len() {
        lemma_decode_attrs(s, i + 1);
    }
}

/// Index form of `decode_attr_pairs`.
proof fn lemma_decode_attr_pairs(s: Seq<(Seq<char>, AttrV)>, i: int)
    requires
        0 <= i <= s.len(),
    ensures
        decode_attr_pairs(s, i).len() == s.len() - i,
        forall|k: int|
            0 <= k < s.len() - i ==> #[trigger] decode_attr_pairs(s, i)[k] == (
                s[i + k].0,
                spec_decode(s[i + k].1),
            ),
    decreases s.len() - i,
{
    if i < s.len() {
        lemma_decode_attr_pairs(s, i + 1);
    }
}

/// Element-wise round trip over a value sequence.
proof fn lemma_rt_values(s: Seq<ValueV>, i: int)
    requires
        0 <= i <= s.len(),
        wf_values(s, i),
    ensures
        forall|k: int| i <= k < s.len() ==> spec_decode(spec_encode(#[trigger] s[k])) == s[k],
    decreases s, 0int, s.len() - i,
{
    if i < s.len() {
        lemma_codec_round_trip(s[i]);
        lemma_rt_values(s, i + 1);
    }
}

/// Element-wise round trip over a pair sequence.
proof fn lemma_rt_value_pairs(s: Seq<(Seq<char>, ValueV)>, i: int)
    requires
        0 <= i <= s.len(),
        wf_value_pairs(s, i),
    ensures
        forall|k: int|
            i <= k < s.len() ==> spec_decode(spec_encode((#[trigger] s[k]).1)) == s[k].1,
    decreases s, 0int, s.len() - i,
{
    if i < s.len() {
        lemma_codec_round_trip(s[i].1);
        lemma_rt_value_pairs(s, i + 1);
    }
}

/// Decoding an encoded value gives the value back, for every well-formed
/// value and every variant — null, bool, integer, float, string, arrays and
/// maps however nested.
pub proof fn lemma_codec_round_trip(v: ValueV)
    requires
        wf_value(v),
    ensures
        spec_decode(spec_encode(v)) == v,
    decreases v, 1int, 0int,
{
    match v {
        ValueV::Int(i) => {
            lemma_int_numeral_round_trip(i);
        },
        ValueV::Arr(vs) => {
            lemma_rt_values(vs, 0);
            lemma_encode_values(vs, 0);
            lemma_decode_attrs(encode_values(vs, 0), 0);
            assert(decode_attrs(encode_values(vs, 0), 0) =~= vs);
        },
        ValueV::Obj(kvs) => {
            lemma_rt_value_pairs(kvs, 0);
            lemma_encode_value_pairs(kvs, 0);
            lemma_decode_attr_pairs(encode_value_pairs(kvs, 0), 0);
            assert(decode_attr_pairs(encode_value_pairs(kvs, 0), 0) =~= kvs);
        },
        _ => {},
    }
}

/// Encode a document value for storage.
#[verifier::loop_isolation(false)]
pub fn encode_value(v: &Value) -> (r: Attr)
    ensures
        r@ == spec_encode(v@),
    decreases *v,
{
    match v {
        Value::Null => Attr::Null,
        Value::Bool(b) => Attr::Bool(*b),
        Value::Int(i) => Attr::N(fmt_i64(*i)),
        Value::Float(s) => Attr::N(s.clone()),
        Value::Str(s) => Attr::S(s.clone()),
        Value::Arr(vs) => {
            let n = vs.len();
            let mut items: Vec<Attr> = Vec::new();
            let mut i: usize = 0;
            while i < n
                invariant
                    n == vs@.len(),
                    0 <= i <= n,
                    items@.len() == i,
                    forall|k: int|
                        0 <= k < i ==> attr_view(#[trigger] items@[k]) == spec_encode(
                            value_view(vs@[k]),
                        ),
                decreases n - i,
            {
                items.push(encode_value(&vs[i]));
                i = i + 1;
            }
            let r = Attr::L(items);
            proof {
                lemma_value_views(vs@, 0);
                lemma_attr_views(items@, 0);
                lemma_encode_values(value_views(vs@, 0), 0);
                assert(attr_views(items@, 0) =~= encode_values(value_views(vs@, 0), 0));
            }
            r
        },
        Value::Obj(kvs) => {
            let n = kvs.len();
            let mut items: Vec<(String, Attr)> = Vec::new();
            let mut i: usize = 0;
            while i < n
                invariant
                    n == kvs@.len(),
                    0 <= i <= n,
                    items@.len() == i,
                    forall|k: int|
                        0 <= k < i ==> (#[trigger] items@[k]).0@ == kvs@[k].0@ && attr_view(
                            items@[k].1,
                        ) == spec_encode(value_view(kvs@[k].1)),
                decreases n - i,
            {
                let key = kvs[i].0.clone();
                let encoded = encode_value(&kvs[i].1);
                items.push((key, encoded));
                i = i + 1;
            }
            let r = Attr::M(items);
            proof {
                lemma_value_pair_views(kvs@, 0);
                lemma_attr_pair_views(items@, 0);
                lemma_encode_value_pairs(value_pair_views(kvs@, 0), 0);
                assert(attr_pair_views(items@, 0) =~= encode_value_pairs(
                    value_pair_views(kvs@, 0),
                    0,
                ));
            }
            r
        },
    }
}

/// Decode a stored attribute back into a document value.
#[verifier::loop_isolation(false)]
pub fn decode_attr(a: &Attr) -> (r: Value)
    ensures
        r@ == spec_decode(a@),
    decreases *a,
{
    match a {
        Attr::Null => Value::Null,
        Attr::Bool(b) => Value::Bool(*b),
        Attr::N(s) => {
            match parse_i64(s.as_str()) {
                Some(i) => Value::Int(i),
                None => {
                    if float_numeral(s.as_str()) {
                        Value::Float(s.clone())
                    } else {
                        Value::Str(s.clone())
                    }
                },
            }
        },
        Attr::S(s) => Value::Str(s.clone()),
        Attr::L(items) => {
            let n = items.len();
            let mut vs: Vec<Value> = Vec::new();
            let mut i: usize = 0;
            while i < n
                invariant
                    n == items@.len(),
                    0 <= i <= n,
                    vs@.len() == i,
                    forall|k: int|
                        0 <= k < i ==> value_view(#[trigger] vs@[k]) == spec_decode(
                            attr_view(items@[k]),
                        ),
                decreases n - i,
            {
                vs.push(decode_attr(&items[i]));
                i = i + 1;
            }
            let r = Value::Arr(vs);
            proof {
                lemma_attr_views(items@, 0);
                lemma_value_views(vs@, 0);
                lemma_decode_attrs(attr_views(items@, 0), 0);
                assert(value_views(vs@, 0) =~= decode_attrs(attr_views(items@, 0), 0));
            }
            r
        },
        Attr::M(kvs) => {
            let n = kvs.len();
            let mut vs: Vec<(String, Value)> = Vec::new();
            let mut i: usize = 0;
            while i < n
                invariant
                    n == kvs@.len(),
                    0 <= i <= n,
                    vs@.len() == i,
                    forall|k: int|
                        0 <= k < i ==> (#[trigger] vs@[k]).0@ == kvs@[k].0@ && value_view(
                            vs@[k].1,
                        ) == spec_decode(attr_view(kvs@[k].1)),
                decreases n - i,
            {
                let key = kvs[i].0.clone();
                let decoded = decode_attr(&kvs[i].1);
                vs.push((key, decoded));
                i = i + 1;
            }
            let r = Value::Obj(vs);
            proof {
                lemma_attr_pair_views(kvs@, 0);
                lemma_value_pair_views(vs@, 0);
                lemma_decode_attr_pairs(attr_pair_views(kvs@, 0), 0);
                assert(value_pair_views(vs@, 0) =~= decode_attr_pairs(
                    attr_pair_views(kvs@, 0),
                    0,
                ));
            }
            r
        },
    }
}

} // verus!
