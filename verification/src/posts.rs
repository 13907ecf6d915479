//! Posts as generic document values: a snapshot or digest item list travels
//! to the backend as one recursive value — an array of maps — and parses
//! back field by field.

use vstd::prelude::*;
use crate::records::RecordError;
use crate::types::Post;
use crate::value::{value_pair_views, value_view, value_views, Value, ValueV};

verus! {

/// The abstract value of a post.
pub ghost struct PostV {
    pub object_id: Seq<char>,
    pub title: Seq<char>,
    pub url: Option<Seq<char>>,
    pub points: int,
    pub created_at: Seq<char>,
}

impl View for Post {
    type V = PostV;

    open spec fn view(&self) -> PostV {
        PostV {
            object_id: self.object_id@,
            title: self.title@,
            url: match self.url {
                Some(u) => Some(u@),
                None => None,
            },
            points: self.points as int,
            created_at: self.created_at@,
        }
    }
}

/// The value stored under the first occurrence of a key in an object.
pub open spec fn obj_lookup(s: Seq<(Seq<char>, ValueV)>, k: Seq<char>) -> Option<ValueV>
    decreases s.len(),
{
    if s.len() == 0 {
        None
    } else if s[0].0 == k {
        Some(s[0].1)
    } else {
        obj_lookup(s.subrange(1, s.len() as int), k)
    }
}

/// The document form of one post.
pub open spec fn spec_post_value(p: PostV) -> ValueV {
    ValueV::Obj(
        seq![
            ("objectID"@, ValueV::Str(p.object_id)),
            ("title"@, ValueV::Str(p.title)),
            (
                "url"@,
                match p.url {
                    Some(u) => ValueV::Str(u),
                    None => ValueV::Null,
                },
            ),
            ("points"@, ValueV::Int(p.points)),
            ("created_at"@, ValueV::Str(p.created_at)),
        ],
    )
}

/// A document value that parses as a post: the required string fields, a
/// score that fits the machine word, and a url that is text, null or absent.
pub open spec fn post_value_ok(v: ValueV) -> bool {
    &&& v matches ValueV::Obj(kvs)
    &&& obj_lookup(v->Obj_0, "objectID"@) matches Some(ValueV::Str(_))
    &&& obj_lookup(v->Obj_0, "title"@) matches Some(ValueV::Str(_))
    &&& match obj_lookup(v->Obj_0, "url"@) {
        None => true,
        Some(ValueV::Null) => true,
        Some(ValueV::Str(_)) => true,
        Some(_) => false,
    }
    &&& obj_lookup(v->Obj_0, "points"@) matches Some(ValueV::Int(i)) && i32::MIN <= i <= i32::MAX
    &&& obj_lookup(v->Obj_0, "created_at"@) matches Some(ValueV::Str(_))
}

/// The post a document value denotes (meaningful when it parses).
pub open spec fn spec_post_of(v: ValueV) -> PostV {
    PostV {
        object_id: obj_lookup(v->Obj_0, "objectID"@)->Some_0->Str_0,
        title: obj_lookup(v->Obj_0, "title"@)->Some_0->Str_0,
        url: match obj_lookup(v->Obj_0, "url"@) {
            Some(ValueV::Str(u)) => Some(u),
            _ => None,
        },
        points: obj_lookup(v->Obj_0, "points"@)->Some_0->Int_0,
        created_at: obj_lookup(v->Obj_0, "created_at"@)->Some_0->Str_0,
    }
}

/// Encode one post as a document value.
pub fn post_to_value(p: &Post) -> (r: Value)
    ensures
        r@ == spec_post_value(p@),
{
    let mut kvs: Vec<(String, Value)> = Vec::new();
    kvs.push(("objectID".to_owned(), Value::Str(p.object_id.clone())));
    kvs.push(("title".to_owned(), Value::Str(p.title.clone())));
    let url_value = match &p.url {
        Some(u) => Value::Str(u.clone()),
        None => Value::Null,
    };
    kvs.push(("url".to_owned(), url_value));
    kvs.push(("points".to_owned(), Value::Int(p.points as i64)));
    kvs.push(("created_at".to_owned(), Value::Str(p.created_at.clone())));
    let r = Value::Obj(kvs);
    proof {
        crate::value::lemma_value_pair_views(kvs@, 0);
        assert(value_pair_views(kvs@, 0) =~= spec_post_value(p@)->Obj_0);
    }
    r
}

/// Fetch the first value stored under a key in an object.
fn obj_get<'a>(kvs: &'a Vec<(String, Value)>, key: &str) -> (r: Option<&'a Value>)
    ensures
        match r {
            Some(v) => obj_lookup(value_pair_views(kvs@, 0), key@) == Some(value_view(*v)),
            None => obj_lookup(value_pair_views(kvs@, 0), key@) is None,
        },
{
    let n = kvs.len();
    proof {
        crate::value::lemma_value_pair_views(kvs@, 0);
    }
    let mut i: usize = 0;
    while i < n
        invariant
            n == kvs@.len(),
            0 <= i <= n,
            obj_lookup(value_pair_views(kvs@, 0), key@) == obj_lookup(
                value_pair_views(kvs@, i as int),
                key@,
            ),
        decreases n - i,
    {
        proof {
            crate::value::lemma_value_pair_views(kvs@, i as int);
            crate::value::lemma_value_pair_views(kvs@, i + 1);
            let cur = value_pair_views(kvs@, i as int);
            assert(cur[0] == (kvs@[i as int].0@, value_view(kvs@[i as int].1)));
            assert(cur.subrange(1, cur.len() as int) =~= value_pair_views(kvs@, i + 1));
        }
        if crate::text::string_eq_str(&kvs[i].0, key) {
            return Some(&kvs[i].1);
        }
        i = i + 1;
    }
    None
}

/// Parse one document value as a post.
///
/// Returns `Ok` exactly for the values `post_value_ok` admits; the error
/// names the first field, in storage order, that is missing or malformed.
pub fn post_from_value(v: &Value) -> (r: Result<Post, RecordError>)
    ensures
        r is Ok <==> post_value_ok(v@),
        r is Ok ==> r->Ok_0@ == spec_post_of(v@),
{
    let kvs = match v {
        Value::Obj(kvs) => kvs,
        _ => {
            return Err(RecordError::MissingObjectId);
        },
    };
    let object_id = match obj_get(kvs, "objectID") {
        Some(Value::Str(s)) => s.clone(),
        Some(_) => {
            return Err(RecordError::InvalidObjectId);
        },
        None => {
            return Err(RecordError::MissingObjectId);
        },
    };
    let title = match obj_get(kvs, "title") {
        Some(Value::Str(s)) => s.clone(),
        Some(_) => {
            return Err(RecordError::InvalidTitle);
        },
        None => {
            return Err(RecordError::MissingTitle);
        },
    };
    let url = match obj_get(kvs, "url") {
        Some(Value::Str(s)) => Some(s.clone()),
        Some(Value::Null) => None,
        Some(_) => {
            return Err(RecordError::InvalidUrl);
        },
        None => None,
    };
    let points = match obj_get(kvs, "points") {
        Some(Value::Int(i)) => {
            if *i >= -2147483648i64 && *i <= 2147483647i64 {
                *i as i32
            } else {
                return Err(RecordError::InvalidPoints);
            }
        },
        Some(_) => {
            return Err(RecordError::InvalidPoints);
        },
        None => {
            return Err(RecordError::MissingPoints);
        },
    };
    let created_at = match obj_get(kvs, "created_at") {
        Some(Value::Str(s)) => s.clone(),
        Some(_) => {
            return Err(RecordError::InvalidCreatedAt);
        },
        None => {
            return Err(RecordError::MissingCreatedAt);
        },
    };
    Ok(Post { object_id, title, url, points, created_at })
}

/// A post round-trips through its document value.
pub proof fn lemma_post_value_round_trip(p: PostV)
    requires
        i32::MIN <= p.points <= i32::MAX,
    ensures
        post_value_ok(spec_post_value(p)),
        spec_post_of(spec_post_value(p)) == p,
{
    let kvs = spec_post_value(p)->Obj_0;
    reveal_strlit("objectID");
    reveal_strlit("title");
    reveal_strlit("url");
    reveal_strlit("points");
    reveal_strlit("created_at");
    // the five keys all have different lengths, so they are pairwise distinct
    assert("objectID"@.len() == 8);
    assert("title"@.len() == 5);
    assert("url"@.len() == 3);
    assert("points"@.len() == 6);
    assert("created_at"@.len() == 10);
    assert(obj_lookup(kvs, "objectID"@) == Some(ValueV::Str(p.object_id))) by {
        lemma_obj_lookup_at(kvs, 0);
    }
    assert(obj_lookup(kvs, "title"@) == Some(ValueV::Str(p.title))) by {
        lemma_obj_lookup_at(kvs, 1);
    }
    assert(obj_lookup(kvs, "url"@) == Some(kvs[2].1)) by {
        lemma_obj_lookup_at(kvs, 2);
    }
    assert(obj_lookup(kvs, "points"@) == Some(ValueV::Int(p.points))) by {
        lemma_obj_lookup_at(kvs, 3);
    }
    assert(obj_lookup(kvs, "created_at"@) == Some(ValueV::Str(p.created_at))) by {
        lemma_obj_lookup_at(kvs, 4);
    }
}

/// The lookup of the key at index `i` finds that entry, when no earlier
/// entry shares the key.
proof fn lemma_obj_lookup_at(s: Seq<(Seq<char>, ValueV)>, i: int)
    requires
        0 <= i < s.len(),
        forall|j: int| 0 <= j < i ==> (#[trigger] s[j]).0 != s[i].0,
    ensures
        obj_lookup(s, s[i].0) == Some(s[i].1),
    decreases i,
{
    if i > 0 {
        let rest = s.subrange(1, s.len() as int);
        assert(rest[i - 1] == s[i]);
        assert forall|j: int| 0 <= j < i - 1 implies (#[trigger] rest[j]).0 != rest[i - 1].0 by {
            assert(rest[j] == s[j + 1]);
        }
        lemma_obj_lookup_at(rest, i - 1);
    }
}

/// Encode a post list as one document value, an array of maps.
pub fn posts_to_value(posts: &[Post]) -> (r: Value)
    ensures
        r@ matches ValueV::Arr(items) && items.len() == posts@.len() && forall|i: int|
            0 <= i < posts@.len() ==> #[trigger] items[i] == spec_post_value(posts@[i]@),
{
    let n = posts.len();
    let mut vs: Vec<Value> = Vec::new();
    let mut i: usize = 0;
    while i < n
        invariant
            n == posts@.len(),
            0 <= i <= n,
            vs@.len() == i,
            forall|k: int|
                0 <= k < i ==> value_view(#[trigger] vs@[k]) == spec_post_value(posts@[k]@),
        decreases n - i,
    {
        vs.push(post_to_value(&posts[i]));
        i = i + 1;
    }
    let r = Value::Arr(vs);
    proof {
        crate::value::lemma_value_views(vs@, 0);
    }
    r
}

/// Parse a document value as a post list: one malformed entry fails the
/// whole list, as a malformed stored record should.
pub fn posts_from_value(v: &Value) -> (r: Result<Vec<Post>, RecordError>)
    ensures
        r is Ok ==> (v@ matches ValueV::Arr(items) && r->Ok_0@.len() == items.len() && forall|
            i: int,
        |
            0 <= i < items.len() ==> post_value_ok(#[trigger] items[i]) && r->Ok_0@[i]@
                == spec_post_of(items[i])),
        (v@ matches ValueV::Arr(items) && (forall|i: int|
            0 <= i < items.len() ==> post_value_ok(#[trigger] items[i]))) ==> r is Ok,
{
    let vs = match v {
        Value::Arr(vs) => vs,
        _ => {
            return Err(RecordError::NotAList);
        },
    };
    proof {
        crate::value::lemma_value_views(vs@, 0);
    }
    let n = vs.len();
    let mut out: Vec<Post> = Vec::new();
    let mut i: usize = 0;
    while i < n
        invariant
            n == vs@.len(),
            0 <= i <= n,
            out@.len() == i,
            forall|k: int|
                0 <= k < i ==> post_value_ok(value_view(#[trigger] vs@[k])) && out@[k]@
                    == spec_post_of(value_view(vs@[k])),
            forall|k: int|
                0 <= k < vs@.len() ==> #[trigger] value_views(vs@, 0)[k] == value_view(vs@[k]),
            value_views(vs@, 0).len() == vs@.len(),
            v@ == ValueV::Arr(value_views(vs@, 0)),
        decreases n - i,
    {
        match post_from_value(&vs[i]) {
            Ok(p) => {
                out.push(p);
            },
            Err(e) => {
                proof {
                    assert(value_views(vs@, 0)[i as int] == value_view(vs@[i as int]));
                    assert(!post_value_ok(value_views(vs@, 0)[i as int]));
                }
                return Err(e);
            },
        }
        i = i + 1;
    }
    Ok(out)
}

} // verus!
