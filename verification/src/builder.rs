//! Building one day's digest against the store: fetch the prior day's
//! digest, exclude what it carried, sort and select, and persist the result
//! unconditionally before returning it.

use vstd::prelude::*;
use crate::date::{spec_datestamp, spec_prev_day, Date};
use crate::digest::{
    filter_sent_posts, lemma_unsent_empty_prior, sort_posts_desc, spec_build_digest, unsent_posts,
};
use crate::store::{spec_digest_partition_key, Store, StoreError};
use crate::strategies::{strategy_canon, DigestStrategy};
use crate::types::{Post, DAY_SECONDS};

verus! {

/// The prior day's digest for a strategy, as the exclusion set: absence
/// means an empty set, not an error.
pub open spec fn spec_prior_digest(store: Store, strategy: DigestStrategy, date: Date) -> Seq<
    Post,
> {
    let key = (
        spec_digest_partition_key(strategy_canon(strategy)),
        spec_datestamp(spec_prev_day(date)),
    );
    if store.digs().dom().contains(key) {
        store.digs()[key]
    } else {
        Seq::empty()
    }
}

/// Compute and persist the digest for a strategy and date.
///
/// The result is exactly `spec_build_digest` applied to the prior day's
/// digest and the candidates, and it is stored under the strategy's
/// partition key and the date's stamp before being returned. An empty result
/// is valid output — "nothing to send" — not an error.
pub fn build_digest(
    store: &mut Store,
    strategy: DigestStrategy,
    date: &Date,
    posts: &[Post],
) -> (r: Result<Vec<Post>, StoreError>)
    requires
        old(store).wf(),
        date.wf(),
        !(date.year == 1 && date.month == 1 && date.day == 1),
    ensures
        final(store).wf(),
        r is Ok,
        r->Ok_0@ == spec_build_digest(strategy, spec_prior_digest(*old(store), strategy, *date), posts@),
        // the digest never repeats an item of the prior day's digest
        forall|i: int|
            0 <= i < r->Ok_0@.len() ==> !crate::digest::in_posts(
                spec_prior_digest(*old(store), strategy, *date),
                (#[trigger] r->Ok_0@[i]).object_id@,
            ),
        final(store).digs() == old(store).digs().insert(
            (spec_digest_partition_key(strategy_canon(strategy)), spec_datestamp(*date)),
            r->Ok_0@,
        ),
        final(store).subs() == old(store).subs(),
        final(store).pends() == old(store).pends(),
        final(store).snaps() == old(store).snaps(),
{
    let type_ = strategy.to_string();
    let yesterday = date.prev_day();
    let prior = store.fetch_digest(type_.as_str(), &yesterday);
    let unsent = match &prior {
        Some(p) => filter_sent_posts(posts, Some(p.as_slice())),
        None => {
            proof {
                lemma_unsent_empty_prior(posts@);
            }
            filter_sent_posts(posts, None)
        },
    };
    proof {
        assert(unsent@ == unsent_posts(posts@, spec_prior_digest(*old(store), strategy, *date)));
    }
    let sorted = sort_posts_desc(unsent);
    let selected = strategy.select(sorted.as_slice());
    store.save_digest(type_.as_str(), date, selected.as_slice());
    proof {
        crate::digest::lemma_digest_excludes_prior(
            strategy,
            spec_prior_digest(*old(store), strategy, *date),
            posts@,
        );
    }
    Ok(selected)
}

/// What one snapshot fetch asks of the content source: twice the largest
/// `TopN` size (in case yesterday's digest already carried the whole top),
/// the smallest configured threshold, and a cutoff two days before the run.
pub fn snapshot_fetch_params(date_ts: i64) -> (r: (usize, i32, i64))
    requires
        i64::MIN + 2 * DAY_SECONDS <= date_ts,
    ensures
        r.0 == 2 * 50,
        r.1 == 100,
        r.2 == date_ts - 2 * DAY_SECONDS,
{
    let top = DigestStrategy::max_top_n();
    let points = DigestStrategy::min_point_threshold();
    (2 * top, points, date_ts - 2 * DAY_SECONDS)
}

} // verus!
