//! Typed records as stored items: a subscriber or pending subscription
//! becomes a flat attribute map, and a stored item parses back into the
//! record. A malformed stored record is an integrity error, surfaced field
//! by field.

use vstd::prelude::*;
use crate::email::{valid_email, EmailAddr};
use crate::num::{fmt_i64, int_numeral_val, is_i64_numeral, lemma_int_numeral_round_trip, parse_i64};
use crate::strategies::{
    lemma_strategy_round_trip, spec_parse_strategy, strategy_canon, DigestStrategy,
};
use crate::text::lower_seq;
use crate::types::{PendingSubscription, PendingV, Subscriber, SubscriberV, Token};
use crate::value::{attr_view, Attr, AttrV};

verus! {

/// The attribute stored under the first occurrence of a key, if any.
pub open spec fn item_lookup(s: Seq<(String, Attr)>, k: Seq<char>) -> Option<AttrV>
    decreases s.len(),
{
    if s.len() == 0 {
        None
    } else if s[0].0@ == k {
        Some(attr_view(s[0].1))
    } else {
        item_lookup(s.subrange(1, s.len() as int), k)
    }
}

/// The text of a string attribute stored under a key.
pub open spec fn str_field(s: Seq<(String, Attr)>, k: Seq<char>) -> Seq<char> {
    item_lookup(s, k)->Some_0->S_0
}

/// The numeral of a number attribute stored under a key.
pub open spec fn num_field(s: Seq<(String, Attr)>, k: Seq<char>) -> Seq<char> {
    item_lookup(s, k)->Some_0->N_0
}

/// Fetch the first attribute stored under a key.
fn item_get<'a>(item: &'a Vec<(String, Attr)>, key: &str) -> (r: Option<&'a Attr>)
    ensures
        match r {
            Some(a) => item_lookup(item@, key@) == Some(attr_view(*a)),
            None => item_lookup(item@, key@) is None,
        },
{
    let n = item.len();
    proof {
        assert(item@.subrange(0, n as int) =~= item@);
    }
    let mut i: usize = 0;
    while i < n
        invariant
            n == item@.len(),
            0 <= i <= n,
            item_lookup(item@, key@) == item_lookup(item@.subrange(i as int, n as int), key@),
        decreases n - i,
    {
        proof {
            let rest = item@.subrange(i as int, n as int);
            assert(rest[0] == item@[i as int]);
            assert(rest.subrange(1, rest.len() as int) =~= item@.subrange(i + 1, n as int));
        }
        if crate::text::string_eq_str(&item[i].0, key) {
            return Some(&item[i].1);
        }
        i = i + 1;
    }
    proof {
        assert(item@.subrange(n as int, n as int) =~= Seq::<(String, Attr)>::empty());
    }
    None
}

/// Why a stored record failed to parse.
#[derive(Debug, Clone, Copy, PartialEq, Eq, Structural)]
pub enum RecordError {
    MissingEmail,
    InvalidEmail,
    MissingStrategy,
    InvalidStrategy,
    MissingSubscribedAt,
    InvalidSubscribedAt,
    MissingToken,
    InvalidToken,
    MissingCreatedAt,
    InvalidCreatedAt,
    MissingExpiresAt,
    InvalidExpiresAt,
    MissingObjectId,
    InvalidObjectId,
    MissingTitle,
    InvalidTitle,
    InvalidUrl,
    MissingPoints,
    InvalidPoints,
    NotAList,
}

/// A string attribute under `k` whose text satisfies nothing more.
pub open spec fn has_str_field(s: Seq<(String, Attr)>, k: Seq<char>) -> bool {
    item_lookup(s, k) matches Some(AttrV::S(_))
}

/// A number attribute under `k` holding an `i64` numeral.
pub open spec fn has_i64_field(s: Seq<(String, Attr)>, k: Seq<char>) -> bool {
    item_lookup(s, k) matches Some(AttrV::N(t)) && is_i64_numeral(t)
}

/// An item that parses as a subscriber record.
pub open spec fn subscriber_item_ok(s: Seq<(String, Attr)>) -> bool {
    &&& has_str_field(s, "email"@) && valid_email(lower_seq(str_field(s, "email"@)))
    &&& has_str_field(s, "strategy"@) && spec_parse_strategy(str_field(s, "strategy"@)) is Some
    &&& has_i64_field(s, "subscribed_at"@)
    &&& has_str_field(s, "unsubscribe_token"@) && str_field(s, "unsubscribe_token"@).len() > 0
}

/// The subscriber value an item denotes (meaningful when it parses).
pub open spec fn subscriber_value_of(s: Seq<(String, Attr)>) -> SubscriberV {
    SubscriberV {
        email: lower_seq(str_field(s, "email"@)),
        strategy: spec_parse_strategy(str_field(s, "strategy"@))->Some_0,
        subscribed_at: int_numeral_val(num_field(s, "subscribed_at"@)),
        token: str_field(s, "unsubscribe_token"@),
    }
}

/// Encode a subscriber as a stored item.
pub fn subscriber_to_item(s: &Subscriber) -> (r: Vec<(String, Attr)>)
    ensures
        item_lookup(r@, "email"@) == Some(AttrV::S(s@.email)),
        item_lookup(r@, "strategy"@) == Some(AttrV::S(strategy_canon(s.strategy))),
        item_lookup(r@, "subscribed_at"@) == Some(
            AttrV::N(crate::num::dec_of_int(s@.subscribed_at)),
        ),
        item_lookup(r@, "unsubscribe_token"@) == Some(AttrV::S(s@.token)),
{
    let mut item: Vec<(String, Attr)> = Vec::new();
    item.push(("email".to_owned(), Attr::S(s.email.as_str().to_owned())));
    item.push(("strategy".to_owned(), Attr::S(s.strategy.to_string())));
    item.push(("subscribed_at".to_owned(), Attr::N(fmt_i64(s.subscribed_at))));
    item.push(("unsubscribe_token".to_owned(), Attr::S(s.unsubscribe_token.as_str().to_owned())));
    proof {
        reveal_strlit("email");
        reveal_strlit("strategy");
        reveal_strlit("subscribed_at");
        reveal_strlit("unsubscribe_token");
        assert(item@.len() == 4);
        assert(item@[0].0@ == "email"@ && attr_view(item@[0].1) == AttrV::S(s@.email));
        assert(item@[1].0@ == "strategy"@ && attr_view(item@[1].1) == AttrV::S(
            strategy_canon(s.strategy),
        ));
        assert(item@[2].0@ == "subscribed_at"@ && attr_view(item@[2].1) == AttrV::N(
            crate::num::dec_of_int(s@.subscribed_at),
        ));
        assert(item@[3].0@ == "unsubscribe_token"@ && attr_view(item@[3].1) == AttrV::S(s@.token));
        lemma_item_lookup_four(item@);
    }
    item
}

/// Unfold the lookup on a four-entry item with pairwise distinct keys.
proof fn lemma_item_lookup_four(s: Seq<(String, Attr)>)
    requires
        s.len() == 4,
        forall|i: int, j: int| 0 <= i < j < s.len() ==> (#[trigger] s[i]).0@ != (#[trigger] s[j]).0@,
    ensures
        forall|i: int|
            0 <= i < s.len() ==> item_lookup(s, (#[trigger] s[i]).0@) == Some(attr_view(s[i].1)),
{
    assert forall|i: int|
        0 <= i < s.len() implies item_lookup(s, (#[trigger] s[i]).0@) == Some(
        attr_view(s[i].1),
    ) by {
        lemma_item_lookup_at(s, i);
    }
}

/// The lookup of the key at index `i` finds that entry, when no earlier
/// entry shares the key.
proof fn lemma_item_lookup_at(s: Seq<(String, Attr)>, i: int)
    requires
        0 <= i < s.len(),
        forall|j: int| 0 <= j < i ==> (#[trigger] s[j]).0@ != s[i].0@,
    ensures
        item_lookup(s, s[i].0@) == Some(attr_view(s[i].1)),
    decreases i,
{
    if i > 0 {
        let rest = s.subrange(1, s.len() as int);
        assert(s[0].0@ != s[i].0@);
        assert(rest[i - 1] == s[i]);
        assert forall|j: int| 0 <= j < i - 1 implies (#[trigger] rest[j]).0@ != rest[i - 1].0@ by {
            assert(rest[j] == s[j + 1]);
        }
        lemma_item_lookup_at(rest, i - 1);
    }
}

/// Parse a stored item as a subscriber record.
///
/// Returns `Ok` exactly for the items `subscriber_item_ok` admits; the error
/// names the first field, in storage order, that is missing or malformed.
pub fn subscriber_from_item(item: &Vec<(String, Attr)>) -> (r: Result<Subscriber, RecordError>)
    ensures
        r is Ok <==> subscriber_item_ok(item@),
        r is Ok ==> r->Ok_0.wf() && r->Ok_0@ == subscriber_value_of(item@),
{
    let email = match item_get(item, "email") {
        Some(Attr::S(e)) => {
            match EmailAddr::parse(e.as_str()) {
                Some(addr) => addr,
                None => {
                    return Err(RecordError::InvalidEmail);
                },
            }
        },
        Some(_) => {
            return Err(RecordError::InvalidEmail);
        },
        None => {
            return Err(RecordError::MissingEmail);
        },
    };
    let strategy = match item_get(item, "strategy") {
        Some(Attr::S(c)) => {
            match DigestStrategy::parse(c.as_str()) {
                Ok(st) => st,
                Err(_) => {
                    return Err(RecordError::InvalidStrategy);
                },
            }
        },
        Some(_) => {
            return Err(RecordError::InvalidStrategy);
        },
        None => {
            return Err(RecordError::MissingStrategy);
        },
    };
    let subscribed_at = match item_get(item, "subscribed_at") {
        Some(Attr::N(t)) => {
            match parse_i64(t.as_str()) {
                Some(v) => v,
                None => {
                    return Err(RecordError::InvalidSubscribedAt);
                },
            }
        },
        Some(_) => {
            return Err(RecordError::InvalidSubscribedAt);
        },
        None => {
            return Err(RecordError::MissingSubscribedAt);
        },
    };
    let token = match item_get(item, "unsubscribe_token") {
        Some(Attr::S(t)) => {
            match Token::parse(t.as_str()) {
                Ok(tok) => tok,
                Err(_) => {
                    return Err(RecordError::InvalidToken);
                },
            }
        },
        Some(_) => {
            return Err(RecordError::InvalidToken);
        },
        None => {
            return Err(RecordError::MissingToken);
        },
    };
    Ok(Subscriber { email, strategy, subscribed_at, unsubscribe_token: token })
}

/// A well-formed subscriber round-trips through its stored item: the item it
/// encodes to parses, and parses back to the same record value.
pub proof fn lemma_subscriber_item_round_trip(s: Subscriber, item: Seq<(String, Attr)>)
    requires
        s.wf(),
        item_lookup(item, "email"@) == Some(AttrV::S(s@.email)),
        item_lookup(item, "strategy"@) == Some(AttrV::S(strategy_canon(s.strategy))),
        item_lookup(item, "subscribed_at"@) == Some(
            AttrV::N(crate::num::dec_of_int(s@.subscribed_at)),
        ),
        item_lookup(item, "unsubscribe_token"@) == Some(AttrV::S(s@.token)),
    ensures
        subscriber_item_ok(item),
        subscriber_value_of(item) == s@,
{
    lemma_strategy_round_trip(s.strategy);
    lemma_int_numeral_round_trip(s@.subscribed_at);
    crate::num::lemma_dec_of(if s@.subscribed_at < 0 {
        (-s@.subscribed_at) as nat
    } else {
        s@.subscribed_at as nat
    });
}

/// An item that parses as a pending-subscription record.
pub open spec fn pending_item_ok(s: Seq<(String, Attr)>) -> bool {
    &&& has_str_field(s, "token"@) && str_field(s, "token"@).len() > 0
    &&& has_str_field(s, "email"@) && valid_email(lower_seq(str_field(s, "email"@)))
    &&& has_str_field(s, "strategy"@) && spec_parse_strategy(str_field(s, "strategy"@)) is Some
    &&& has_i64_field(s, "created_at"@)
    &&& has_i64_field(s, "expires_at"@)
}

/// The pending-subscription value an item denotes.
pub open spec fn pending_value_of(s: Seq<(String, Attr)>) -> PendingV {
    PendingV {
        email: lower_seq(str_field(s, "email"@)),
        token: str_field(s, "token"@),
        strategy: spec_parse_strategy(str_field(s, "strategy"@))->Some_0,
        created_at: int_numeral_val(num_field(s, "created_at"@)),
        expires_at: int_numeral_val(num_field(s, "expires_at"@)),
    }
}

/// Encode a pending subscription as a stored item.
pub fn pending_to_item(p: &PendingSubscription) -> (r: Vec<(String, Attr)>)
    ensures
        item_lookup(r@, "token"@) == Some(AttrV::S(p@.token)),
        item_lookup(r@, "email"@) == Some(AttrV::S(p@.email)),
        item_lookup(r@, "strategy"@) == Some(AttrV::S(strategy_canon(p.strategy))),
        item_lookup(r@, "created_at"@) == Some(AttrV::N(crate::num::dec_of_int(p@.created_at))),
        item_lookup(r@, "expires_at"@) == Some(AttrV::N(crate::num::dec_of_int(p@.expires_at))),
{
    let mut item: Vec<(String, Attr)> = Vec::new();
    item.push(("token".to_owned(), Attr::S(p.token.as_str().to_owned())));
    item.push(("email".to_owned(), Attr::S(p.email.as_str().to_owned())));
    item.push(("strategy".to_owned(), Attr::S(p.strategy.to_string())));
    item.push(("created_at".to_owned(), Attr::N(fmt_i64(p.created_at))));
    item.push(("expires_at".to_owned(), Attr::N(fmt_i64(p.expires_at))));
    proof {
        reveal_strlit("token");
        reveal_strlit("email");
        reveal_strlit("strategy");
        reveal_strlit("created_at");
        reveal_strlit("expires_at");
        assert(item@.len() == 5);
        assert(item@[0].0@ == "token"@ && attr_view(item@[0].1) == AttrV::S(p@.token));
        assert(item@[1].0@ == "email"@ && attr_view(item@[1].1) == AttrV::S(p@.email));
        assert(item@[2].0@ == "strategy"@ && attr_view(item@[2].1) == AttrV::S(
            strategy_canon(p.strategy),
        ));
        assert(item@[3].0@ == "created_at"@ && attr_view(item@[3].1) == AttrV::N(
            crate::num::dec_of_int(p@.created_at),
        ));
        assert(item@[4].0@ == "expires_at"@ && attr_view(item@[4].1) == AttrV::N(
            crate::num::dec_of_int(p@.expires_at),
        ));
        assert("token"@ != "email"@) by {
            assert("token"@[0] == 't');
            assert("email"@[0] == 'e');
        }
        assert("created_at"@ != "expires_at"@) by {
            assert("created_at"@[0] == 'c');
            assert("expires_at"@[0] == 'e');
        }
        assert forall|i: int|
            0 <= i < item@.len() implies item_lookup(item@, (#[trigger] item@[i]).0@) == Some(
            attr_view(item@[i].1),
        ) by {
            lemma_item_lookup_at(item@, i);
        }
    }
    item
}

/// Parse a stored item as a pending-subscription record.
///
/// Returns `Ok` exactly for the items `pending_item_ok` admits; the error
/// names the first field, in storage order, that is missing or malformed.
pub fn pending_from_item(item: &Vec<(String, Attr)>) -> (r: Result<
    PendingSubscription,
    RecordError,
>)
    ensures
        r is Ok <==> pending_item_ok(item@),
        r is Ok ==> r->Ok_0.wf() && r->Ok_0@ == pending_value_of(item@),
{
    let token = match item_get(item, "token") {
        Some(Attr::S(t)) => {
            match Token::parse(t.as_str()) {
                Ok(tok) => tok,
                Err(_) => {
                    return Err(RecordError::InvalidToken);
                },
            }
        },
        Some(_) => {
            return Err(RecordError::InvalidToken);
        },
        None => {
            return Err(RecordError::MissingToken);
        },
    };
    let email = match item_get(item, "email") {
        Some(Attr::S(e)) => {
            match EmailAddr::parse(e.as_str()) {
                Some(addr) => addr,
                None => {
                    return Err(RecordError::InvalidEmail);
                },
            }
        },
        Some(_) => {
            return Err(RecordError::InvalidEmail);
        },
        None => {
            return Err(RecordError::MissingEmail);
        },
    };
    let strategy = match item_get(item, "strategy") {
        Some(Attr::S(c)) => {
            match DigestStrategy::parse(c.as_str()) {
                Ok(st) => st,
                Err(_) => {
                    return Err(RecordError::InvalidStrategy);
                },
            }
        },
        Some(_) => {
            return Err(RecordError::InvalidStrategy);
        },
        None => {
            return Err(RecordError::MissingStrategy);
        },
    };
    let created_at = match item_get(item, "created_at") {
        Some(Attr::N(t)) => {
            match parse_i64(t.as_str()) {
                Some(v) => v,
                None => {
                    return Err(RecordError::InvalidCreatedAt);
                },
            }
        },
        Some(_) => {
            return Err(RecordError::InvalidCreatedAt);
        },
        None => {
            return Err(RecordError::MissingCreatedAt);
        },
    };
    let expires_at = match item_get(item, "expires_at") {
        Some(Attr::N(t)) => {
            match parse_i64(t.as_str()) {
                Some(v) => v,
                None => {
                    return Err(RecordError::InvalidExpiresAt);
                },
            }
        },
        Some(_) => {
            return Err(RecordError::InvalidExpiresAt);
        },
        None => {
            return Err(RecordError::MissingExpiresAt);
        },
    };
    Ok(PendingSubscription { email, token, strategy, created_at, expires_at })
}

/// A well-formed pending subscription round-trips through its stored item.
pub proof fn lemma_pending_item_round_trip(p: PendingSubscription, item: Seq<(String, Attr)>)
    requires
        p.wf(),
        item_lookup(item, "token"@) == Some(AttrV::S(p@.token)),
        item_lookup(item, "email"@) == Some(AttrV::S(p@.email)),
        item_lookup(item, "strategy"@) == Some(AttrV::S(strategy_canon(p.strategy))),
        item_lookup(item, "created_at"@) == Some(AttrV::N(crate::num::dec_of_int(p@.created_at))),
        item_lookup(item, "expires_at"@) == Some(AttrV::N(crate::num::dec_of_int(p@.expires_at))),
    ensures
        pending_item_ok(item),
        pending_value_of(item) == p@,
{
    lemma_strategy_round_trip(p.strategy);
    lemma_int_numeral_round_trip(p@.created_at);
    lemma_int_numeral_round_trip(p@.expires_at);
}

} // verus!
