//! Digest selection: exclude what the prior digest carried, stable-sort by
//! score descending, then apply the strategy's rule.

use vstd::prelude::*;
use vstd::seq_lib::group_seq_lib_default;
use vstd::seq_lib::group_to_multiset_ensures;
use crate::strategies::DigestStrategy;
use crate::text::string_eq_str;
use crate::types::Post;

verus! {

broadcast use group_seq_lib_default, group_to_multiset_ensures, Seq::lemma_filter_push;

/// Some post in `d` carries the id `id`.
pub open spec fn in_posts(d: Seq<Post>, id: Seq<char>) -> bool {
    exists|i: int| 0 <= i < d.len() && #[trigger] d[i].object_id@ == id
}

/// The posts of `all` whose id does not occur in `prior`.
pub open spec fn unsent_posts(all: Seq<Post>, prior: Seq<Post>) -> Seq<Post> {
    all.filter(|p: Post| !in_posts(prior, p.object_id@))
}

/// Whether any post in `d` carries the id `id`.
fn posts_contain_id(d: &[Post], id: &String) -> (r: bool)
    ensures
        r == in_posts(d@, id@),
{
    let n = d.len();
    let mut i: usize = 0;
    while i < n
        invariant
            n == d@.len(),
            0 <= i <= n,
            forall|k: int| 0 <= k < i ==> #[trigger] d@[k].object_id@ != id@,
        decreases n - i,
    {
        if string_eq_str(&d[i].object_id, id.as_str()) {
            return true;
        }
        i = i + 1;
    }
    false
}

/// Remove from `all_posts` every post whose id appears in the prior digest.
/// With no prior digest, all posts pass through.
pub fn filter_sent_posts(all_posts: &[Post], yesterday_digest: Option<&[Post]>) -> (r: Vec<Post>)
    ensures
        match yesterday_digest {
            None => r@ == all_posts@,
            Some(prior) => r@ == unsent_posts(all_posts@, prior@),
        },
{
    let n = all_posts.len();
    let mut out: Vec<Post> = Vec::new();
    match yesterday_digest {
        None => {
            let mut i: usize = 0;
            while i < n
                invariant
                    n == all_posts@.len(),
                    0 <= i <= n,
                    out@ == all_posts@.subrange(0, i as int),
                decreases n - i,
            {
                out.push(all_posts[i].clone());
                i = i + 1;
                proof {
                    assert(out@ =~= all_posts@.subrange(0, i as int));
                }
            }
            proof {
                assert(all_posts@.subrange(0, n as int) =~= all_posts@);
            }
            out
        },
        Some(prior) => {
            let pred = Ghost(|p: Post| !in_posts(prior@, p.object_id@));
            let mut i: usize = 0;
            while i < n
                invariant
                    n == all_posts@.len(),
                    0 <= i <= n,
                    out@ == all_posts@.subrange(0, i as int).filter(pred@),
                    pred@ == (|p: Post| !in_posts(prior@, p.object_id@)),
                decreases n - i,
            {
                if !posts_contain_id(prior, &all_posts[i].object_id) {
                    out.push(all_posts[i].clone());
                }
                proof {
                    let prev = all_posts@.subrange(0, i as int);
                    let x = all_posts@[i as int];
                    assert(all_posts@.subrange(0, i + 1) =~= prev.push(x));
                    prev.lemma_filter_push(x, pred@);
                }
                i = i + 1;
            }
            proof {
                assert(all_posts@.subrange(0, n as int) =~= all_posts@);
            }
            out
        },
    }
}

/// Copy a sequence of posts.
pub fn clone_posts(posts: &[Post]) -> (r: Vec<Post>)
    ensures
        r@ == posts@,
{
    let n = posts.len();
    let mut out: Vec<Post> = Vec::new();
    let mut i: usize = 0;
    while i < n
        invariant
            n == posts@.len(),
            0 <= i <= n,
            out@ == posts@.subrange(0, i as int),
        decreases n - i,
    {
        out.push(posts[i].clone());
        i = i + 1;
        proof {
            assert(out@ =~= posts@.subrange(0, i as int));
        }
    }
    proof {
        assert(posts@.subrange(0, n as int) =~= posts@);
    }
    out
}

/// Where `x` lands when inserted into `t` from the right: after every post
/// with a score at least `x`'s, before the run of strictly smaller scores.
/// Equal scores therefore keep their input order.
pub open spec fn insert_desc(t: Seq<Post>, x: Post) -> Seq<Post>
    decreases t.len(),
{
    if t.len() > 0 && t.last().points < x.points {
        insert_desc(t.drop_last(), x).push(t.last())
    } else {
        t.push(x)
    }
}

/// Stable insertion sort by score, descending.
pub open spec fn sort_desc(s: Seq<Post>) -> Seq<Post>
    decreases s.len(),
{
    if s.len() == 0 {
        Seq::empty()
    } else {
        insert_desc(sort_desc(s.drop_last()), s.last())
    }
}

/// Scores never increase along the sequence.
pub open spec fn sorted_desc(s: Seq<Post>) -> bool {
    forall|i: int, j: int| 0 <= i <= j < s.len() ==> #[trigger] s[i].points >= #[trigger] s[j].points
}

/// `insert_desc` is insertion at the index that its scan finds.
proof fn lemma_insert_desc_at(t: Seq<Post>, x: Post, j: int)
    requires
        0 <= j <= t.len(),
        forall|k: int| j <= k < t.len() ==> #[trigger] t[k].points < x.points,
        j > 0 ==> t[j - 1].points >= x.points,
    ensures
        insert_desc(t, x) == t.insert(j, x),
    decreases t.len(),
{
    if t.len() > 0 && t.last().points < x.points {
        assert(j < t.len());
        lemma_insert_desc_at(t.drop_last(), x, j);
        assert(t.insert(j, x) =~= t.drop_last().insert(j, x).push(t.last()));
    } else {
        assert(j == t.len());
        assert(t.insert(j, x) =~= t.push(x));
    }
}

/// Inserting into a sorted sequence keeps it sorted.
proof fn lemma_insert_desc_sorted(t: Seq<Post>, x: Post)
    requires
        sorted_desc(t),
    ensures
        sorted_desc(insert_desc(t, x)),
    decreases t.len(),
{
    if t.len() > 0 && t.last().points < x.points {
        lemma_insert_desc_sorted(t.drop_last(), x);
        let r = insert_desc(t.drop_last(), x).push(t.last());
        lemma_insert_desc_multiset(t.drop_last(), x);
        assert forall|i: int, j: int| 0 <= i <= j < r.len() implies #[trigger] r[i].points
            >= #[trigger] r[j].points by {
            if j == r.len() - 1 && i < j {
                let inner = insert_desc(t.drop_last(), x);
                assert(r[i] == inner[i]);
                // every element of inner is x or an element of t.drop_last(),
                // all of which score at least t.last()
                assert(inner.to_multiset().count(inner[i]) > 0);
                assert(inner.to_multiset() =~= t.drop_last().to_multiset().insert(x));
                if inner[i] == x {
                    assert(r[i].points >= r[j].points);
                } else {
                    assert(t.drop_last().to_multiset().count(inner[i]) > 0);
                    assert(t.drop_last().contains(inner[i]));
                    let k = choose|k: int|
                        0 <= k < t.drop_last().len() && t.drop_last()[k] == inner[i];
                    assert(t[k] == inner[i]);
                    assert(t[k].points >= t.last().points);
                }
            }
        }
    }
}

/// `insert_desc` adds exactly `x` to the contents.
proof fn lemma_insert_desc_multiset(t: Seq<Post>, x: Post)
    ensures
        insert_desc(t, x).to_multiset() =~= t.to_multiset().insert(x),
        insert_desc(t, x).len() == t.len() + 1,
    decreases t.len(),
{
    if t.len() > 0 && t.last().points < x.points {
        lemma_insert_desc_multiset(t.drop_last(), x);
        assert(t.drop_last().push(t.last()) =~= t);
        assert(insert_desc(t, x).to_multiset() =~= insert_desc(t.drop_last(), x)
            .to_multiset()
            .insert(t.last()));
        assert(t.to_multiset() =~= t.drop_last().to_multiset().insert(t.last()));
    }
}

/// The sort returns a sorted rearrangement of its input.
pub proof fn lemma_sort_desc_ensures(s: Seq<Post>)
    ensures
        sorted_desc(sort_desc(s)),
        sort_desc(s).to_multiset() =~= s.to_multiset(),
        sort_desc(s).len() == s.len(),
    decreases s.len(),
{
    if s.len() > 0 {
        lemma_sort_desc_ensures(s.drop_last());
        lemma_insert_desc_sorted(sort_desc(s.drop_last()), s.last());
        lemma_insert_desc_multiset(sort_desc(s.drop_last()), s.last());
        assert(s.drop_last().push(s.last()) =~= s);
        assert(s.to_multiset() =~= s.drop_last().to_multiset().insert(s.last()));
    }
}

/// The posts carrying one given score.
pub open spec fn has_points(p: int) -> spec_fn(Post) -> bool {
    |x: Post| x.points == p
}

/// Inserting preserves each score class, with `x` at its end when it
/// matches.
proof fn lemma_insert_desc_filter(t: Seq<Post>, x: Post, p: int)
    ensures
        insert_desc(t, x).filter(has_points(p)) == if has_points(p)(x) {
            t.filter(has_points(p)).push(x)
        } else {
            t.filter(has_points(p))
        },
    decreases t.len(),
{
    let q = has_points(p);
    if t.len() > 0 && t.last().points < x.points {
        lemma_insert_desc_filter(t.drop_last(), x, p);
        let inner = insert_desc(t.drop_last(), x);
        inner.lemma_filter_push(t.last(), q);
        t.drop_last().lemma_filter_push(t.last(), q);
        assert(t.drop_last().push(t.last()) =~= t);
        if q(x) {
            // the displaced suffix scores strictly below x, so it is not in
            // x's score class
            assert(!q(t.last()));
        }
    } else {
        t.lemma_filter_push(x, q);
    }
}

/// The sort is stable: for every score, the posts carrying that score appear
/// in the output in exactly their input order.
pub proof fn lemma_sort_desc_stable(s: Seq<Post>, p: int)
    ensures
        sort_desc(s).filter(has_points(p)) == s.filter(has_points(p)),
    decreases s.len(),
{
    let q = has_points(p);
    if s.len() > 0 {
        lemma_sort_desc_stable(s.drop_last(), p);
        lemma_insert_desc_filter(sort_desc(s.drop_last()), s.last(), p);
        s.drop_last().lemma_filter_push(s.last(), q);
        assert(s.drop_last().push(s.last()) =~= s);
    }
}

/// Find where `x` belongs and insert it there.
fn insert_post(t: &mut Vec<Post>, x: Post)
    ensures
        final(t)@ == insert_desc(old(t)@, x),
{
    let mut j = t.len();
    while j > 0 && t[j - 1].points < x.points
        invariant
            0 <= j <= t@.len(),
            forall|k: int| j <= k < t@.len() ==> #[trigger] t@[k].points < x.points,
        decreases j,
    {
        j = j - 1;
    }
    proof {
        lemma_insert_desc_at(t@, x, j as int);
    }
    t.insert(j, x);
}

/// Stable sort by score, descending; ties keep their input order.
pub fn sort_posts_desc(posts: Vec<Post>) -> (r: Vec<Post>)
    ensures
        r@ == sort_desc(posts@),
{
    let n = posts.len();
    let mut out: Vec<Post> = Vec::new();
    let mut i: usize = 0;
    while i < n
        invariant
            n == posts@.len(),
            0 <= i <= n,
            out@ == sort_desc(posts@.subrange(0, i as int)),
        decreases n - i,
    {
        proof {
            assert(posts@.subrange(0, i + 1).drop_last() =~= posts@.subrange(0, i as int));
        }
        insert_post(&mut out, posts[i].clone());
        i = i + 1;
    }
    proof {
        assert(posts@.subrange(0, n as int) =~= posts@);
    }
    out
}

/// The first `n` posts, or all of them when fewer.
pub open spec fn take_first(s: Seq<Post>, n: int) -> Seq<Post> {
    if n <= s.len() {
        s.subrange(0, n)
    } else {
        s
    }
}

/// What a strategy selects from a (sorted) candidate sequence.
pub open spec fn spec_select(st: DigestStrategy, s: Seq<Post>) -> Seq<Post> {
    match st {
        DigestStrategy::TopN(n) => take_first(s, n as int),
        DigestStrategy::OverPointThreshold(t) => s.filter(|p: Post| p.points >= t),
    }
}

impl DigestStrategy {
    /// Apply this strategy's rule: `TopN(n)` keeps the first `n` posts;
    /// `OverPointThreshold(t)` keeps exactly the posts with score at least
    /// `t`.
    pub fn select(&self, posts: &[Post]) -> (r: Vec<Post>)
        ensures
            r@ == spec_select(*self, posts@),
    {
        let len = posts.len();
        let mut out: Vec<Post> = Vec::new();
        match self {
            DigestStrategy::TopN(n) => {
                let stop: usize = if *n <= len {
                    *n
                } else {
                    len
                };
                let mut i: usize = 0;
                while i < stop
                    invariant
                        stop <= len == posts@.len(),
                        0 <= i <= stop,
                        out@ == posts@.subrange(0, i as int),
                    decreases stop - i,
                {
                    out.push(posts[i].clone());
                    i = i + 1;
                    proof {
                        assert(out@ =~= posts@.subrange(0, i as int));
                    }
                }
                proof {
                    if len <= *n {
                        assert(posts@.subrange(0, len as int) =~= posts@);
                    }
                }
                out
            },
            DigestStrategy::OverPointThreshold(t) => {
                let threshold: i32 = *t;
                let pred = Ghost(|p: Post| p.points >= threshold);
                let mut i: usize = 0;
                while i < len
                    invariant
                        len == posts@.len(),
                        0 <= i <= len,
                        out@ == posts@.subrange(0, i as int).filter(pred@),
                        pred@ == (|p: Post| p.points >= threshold),
                    decreases len - i,
                {
                    if posts[i].points >= threshold {
                        out.push(posts[i].clone());
                    }
                    proof {
                        let prev = posts@.subrange(0, i as int);
                        let x = posts@[i as int];
                        assert(posts@.subrange(0, i + 1) =~= prev.push(x));
                        prev.lemma_filter_push(x, pred@);
                    }
                    i = i + 1;
                }
                proof {
                    assert(posts@.subrange(0, len as int) =~= posts@);
                }
                out
            },
        }
    }
}

/// What one digest build yields: prior posts removed, the rest stable-sorted
/// by score descending, then the strategy's rule applied.
pub open spec fn spec_build_digest(
    st: DigestStrategy,
    prior: Seq<Post>,
    candidates: Seq<Post>,
) -> Seq<Post> {
    spec_select(st, sort_desc(unsent_posts(candidates, prior)))
}

/// A digest never repeats an item of the prior digest: no selected post's id
/// occurs in `prior`, for any strategy and any candidate set.
pub proof fn lemma_digest_excludes_prior(
    st: DigestStrategy,
    prior: Seq<Post>,
    candidates: Seq<Post>,
)
    ensures
        forall|i: int|
            0 <= i < spec_build_digest(st, prior, candidates).len() ==> !in_posts(
                prior,
                #[trigger] spec_build_digest(st, prior, candidates)[i].object_id@,
            ),
{
    let filtered = unsent_posts(candidates, prior);
    let sorted = sort_desc(filtered);
    let result = spec_build_digest(st, prior, candidates);
    lemma_sort_desc_ensures(filtered);
    assert forall|i: int| 0 <= i < result.len() implies !in_posts(
        prior,
        #[trigger] result[i].object_id@,
    ) by {
        // the selected post occurs in the sorted sequence
        let x = result[i];
        assert(sorted.contains(x)) by {
            match st {
                DigestStrategy::TopN(n) => {
                    assert(result[i] == sorted[i]);
                },
                DigestStrategy::OverPointThreshold(t) => {
                    assert(sorted.filter(|p: Post| p.points >= t)[i] == x);
                    assert(sorted.filter(|p: Post| p.points >= t).contains(x));
                    lemma_filter_subset_contains(sorted, |p: Post| p.points >= t, x);
                },
            }
        }
        // hence in the filtered sequence, where the predicate holds of it
        assert(sorted.to_multiset().count(x) > 0);
        assert(filtered.contains(x));
        let k = choose|k: int| 0 <= k < filtered.len() && filtered[k] == x;
        assert(candidates.filter(|p: Post| !in_posts(prior, p.object_id@))[k] == x);
    }
}

/// With no prior digest, the exclusion step removes nothing.
pub proof fn lemma_unsent_empty_prior(s: Seq<Post>)
    ensures
        unsent_posts(s, Seq::empty()) == s,
    decreases s.len(),
{
    reveal(Seq::filter);
    if s.len() > 0 {
        lemma_unsent_empty_prior(s.drop_last());
        assert(!in_posts(Seq::empty(), s.last().object_id@));
        assert(unsent_posts(s, Seq::empty()) =~= s);
    } else {
        assert(unsent_posts(s, Seq::empty()) =~= s);
    }
}

/// An element of a filtered sequence is an element of the original.
proof fn lemma_filter_subset_contains(s: Seq<Post>, pred: spec_fn(Post) -> bool, x: Post)
    requires
        s.filter(pred).contains(x),
    ensures
        s.contains(x),
    decreases s.len(),
{
    reveal(Seq::filter);
    if s.len() > 0 {
        if s.filter(pred) == s.drop_last().filter(pred) {
            lemma_filter_subset_contains(s.drop_last(), pred, x);
            let k = choose|k: int| 0 <= k < s.drop_last().len() && s.drop_last()[k] == x;
            assert(s[k] == x);
        } else {
            assert(s.filter(pred) == s.drop_last().filter(pred).push(s.last()));
            if x == s.last() {
                assert(s[s.len() - 1] == x);
            } else {
                assert(s.drop_last().filter(pred).contains(x)) by {
                    let k = choose|k: int|
                        0 <= k < s.filter(pred).len() && s.filter(pred)[k] == x;
                    assert(k < s.filter(pred).len() - 1);
                    assert(s.drop_last().filter(pred)[k] == x);
                }
                lemma_filter_subset_contains(s.drop_last(), pred, x);
                let k = choose|k: int| 0 <= k < s.drop_last().len() && s.drop_last()[k] == x;
                assert(s[k] == x);
            }
        }
    }
}

/// `TopN(n)` output: never more than `n` posts, never increasing in score.
pub proof fn lemma_top_n_bounds(n: usize, prior: Seq<Post>, candidates: Seq<Post>)
    ensures
        spec_build_digest(DigestStrategy::TopN(n), prior, candidates).len() <= n,
        sorted_desc(spec_build_digest(DigestStrategy::TopN(n), prior, candidates)),
{
    let filtered = unsent_posts(candidates, prior);
    let sorted = sort_desc(filtered);
    lemma_sort_desc_ensures(filtered);
    let result = spec_build_digest(DigestStrategy::TopN(n), prior, candidates);
    assert(result == take_first(sorted, n as int));
}

/// `PointThreshold(t)` output: exactly the sorted unsent posts with score at
/// least `t`.
pub proof fn lemma_point_threshold_exact(t: i32, prior: Seq<Post>, candidates: Seq<Post>)
    ensures
        spec_build_digest(DigestStrategy::OverPointThreshold(t), prior, candidates)
            == sort_desc(unsent_posts(candidates, prior)).filter(|p: Post| p.points >= t),
        forall|i: int|
            0 <= i < spec_build_digest(
                DigestStrategy::OverPointThreshold(t),
                prior,
                candidates,
            ).len() ==> #[trigger] spec_build_digest(
                DigestStrategy::OverPointThreshold(t),
                prior,
                candidates,
            )[i].points >= t,
{
    let sorted = sort_desc(unsent_posts(candidates, prior));
    let result = sorted.filter(|p: Post| p.points >= t);
    assert forall|i: int| 0 <= i < result.len() implies #[trigger] result[i].points >= t by {
        assert((|p: Post| p.points >= t)(result[i]));
    }
}

} // verus!
