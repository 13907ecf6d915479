//! Framework-agnostic request and response shapes, and the verified
//! decision logic of the subscription endpoints.
//!
//! Wherever enumeration resistance matters (subscribe, verify), the outward
//! response shape is the same for every rejected input; callers distinguish
//! behaviour only through the branch taken internally.

use vstd::prelude::*;
use std::sync::Arc;
use crate::email::{valid_email, EmailAddr};
use crate::lifecycle;
use crate::store::{Store, StoreError};
use crate::strategies::{spec_parse_strategy, valid_strategy, DigestStrategy};
use crate::text::{contains_seq, lower_seq, str_contains};
use crate::types::{PendingSubscription, Subscriber, Token, DAY_SECONDS};

verus! {

/// One inbound HTTP request, already decoded from the transport.
pub struct ApiRequest {
    pub method: String,
    pub path: String,
    pub query: Vec<(String, String)>,
    pub body: Option<String>,
}

/// One outbound HTTP response.
pub enum ApiResponse {
    Html(String),
    Json { status: u16, body: String },
    Text { status: u16, body: String },
    Redirect(String),
}

impl ApiResponse {
    /// The HTTP status code of the response.
    pub fn status(&self) -> (r: u16)
        ensures
            r == match self {
                ApiResponse::Html(_) => 200,
                ApiResponse::Json { status, .. } => *status,
                ApiResponse::Text { status, .. } => *status,
                ApiResponse::Redirect(_) => 303,
            },
    {
        match self {
            ApiResponse::Html(_) => 200,
            ApiResponse::Json { status, .. } => *status,
            ApiResponse::Text { status, .. } => *status,
            ApiResponse::Redirect(_) => 303,
        }
    }

    /// The redirect target, for redirect responses.
    pub fn redirect_location(&self) -> (r: Option<&str>)
        ensures
            r is Some <==> self is Redirect,
            self is Redirect ==> r->Some_0@ == self->Redirect_0@,
    {
        if let ApiResponse::Redirect(loc) = self {
            Some(loc.as_str())
        } else {
            None
        }
    }

    /// Whether the response body contains `s`; a redirect has no body.
    pub fn body_contains(&self, s: &str) -> (r: bool)
        ensures
            r == match self {
                ApiResponse::Html(body) => contains_seq(body@, s@),
                ApiResponse::Json { body, .. } => contains_seq(body@, s@),
                ApiResponse::Text { body, .. } => contains_seq(body@, s@),
                ApiResponse::Redirect(_) => false,
            },
    {
        match self {
            ApiResponse::Html(body) => str_contains(body.as_str(), s),
            ApiResponse::Json { body, .. } => str_contains(body.as_str(), s),
            ApiResponse::Text { body, .. } => str_contains(body.as_str(), s),
            ApiResponse::Redirect(_) => false,
        }
    }
}

/// A JSON response with the given status.
pub fn json(status: u16, body: &str) -> (r: ApiResponse)
    ensures
        r matches ApiResponse::Json { status: st, body: b } && st == status && b@ == body@,
{
    ApiResponse::Json { status, body: body.to_owned() }
}

/// A plain-text response with the given status.
pub fn text(status: u16, body: &str) -> (r: ApiResponse)
    ensures
        r matches ApiResponse::Text { status: st, body: b } && st == status && b@ == body@,
{
    ApiResponse::Text { status, body: body.to_owned() }
}

/// A see-other redirect to the given location.
pub fn redirect(location: &str) -> (r: ApiResponse)
    ensures
        r matches ApiResponse::Redirect(loc) && loc@ == location@,
{
    ApiResponse::Redirect(location.to_owned())
}

/// The one successful subscribe response: identical whether the email was
/// new, already pending, or already subscribed.
pub fn subscribe_200() -> (r: ApiResponse)
    ensures
        r matches ApiResponse::Json { status: st, body: b } && st == 200 && b@
            == "{\"message\": \"Check your email to confirm your subscription\"}"@,
{
    json(200, "{\"message\": \"Check your email to confirm your subscription\"}")
}

/// The generic subscribe failure response: integrity and transport failures
/// surface alike.
pub fn subscribe_500() -> (r: ApiResponse)
    ensures
        r matches ApiResponse::Json { status: st, body: b } && st == 500 && b@
            == "{\"error\": \"Internal server error, please try again later\"}"@,
{
    json(500, "{\"error\": \"Internal server error, please try again later\"}")
}

/// Shared application state handed to the transport layer.
pub struct AppState<S, M, C> {
    pub storage: Arc<S>,
    pub mailer: Arc<M>,
    pub captcha: C,
    pub base_url: String,
}

impl<S, M, C> AppState<S, M, C> {
    /// Bundle the collaborators and the service base URL.
    pub fn new(storage: Arc<S>, mailer: Arc<M>, captcha: C, base_url: String) -> (r: AppState<
        S,
        M,
        C,
    >)
        ensures
            r.base_url@ == base_url@,
    {
        AppState { storage, mailer, captcha, base_url }
    }
}

/// What a subscribe request asks for, once validated.
pub enum SubscribeDecision {
    /// The honeypot field was filled: a bot. Answered with the success
    /// shape, with no side effect.
    HoneypotHit,
    /// The strategy string is not a configured strategy.
    InvalidStrategy,
    /// The email address does not validate.
    InvalidEmail,
    /// No captcha token came with the request.
    MissingCaptchaToken,
    /// All checks passed: the normalized address and the parsed strategy.
    Proceed(EmailAddr, DigestStrategy),
}

/// Validate a subscribe request's fields, in the order the endpoint checks
/// them: honeypot, strategy, email, captcha token presence. Captcha
/// verification itself is the transport layer's call.
pub fn validate_subscribe_request(
    email: &str,
    strategy: &str,
    website: &str,
    turnstile_token: &str,
) -> (r: SubscribeDecision)
    ensures
        match r {
            SubscribeDecision::HoneypotHit => website@.len() > 0,
            SubscribeDecision::InvalidStrategy => website@.len() == 0 && spec_parse_strategy(
                strategy@,
            ) is None,
            SubscribeDecision::InvalidEmail => website@.len() == 0 && spec_parse_strategy(
                strategy@,
            ) is Some && !valid_email(lower_seq(email@)),
            SubscribeDecision::MissingCaptchaToken => website@.len() == 0 && spec_parse_strategy(
                strategy@,
            ) is Some && valid_email(lower_seq(email@)) && turnstile_token@.len() == 0,
            SubscribeDecision::Proceed(e, st) => website@.len() == 0 && spec_parse_strategy(
                strategy@,
            ) == Some(st) && valid_strategy(st) && valid_email(lower_seq(email@)) && e@
                == lower_seq(email@) && e.wf() && turnstile_token@.len() > 0,
        },
{
    if !website.is_empty() {
        return SubscribeDecision::HoneypotHit;
    }
    let st = match DigestStrategy::parse(strategy) {
        Ok(st) => st,
        Err(_) => {
            return SubscribeDecision::InvalidStrategy;
        },
    };
    let addr = match EmailAddr::parse(email) {
        Some(a) => a,
        None => {
            return SubscribeDecision::InvalidEmail;
        },
    };
    if turnstile_token.is_empty() {
        return SubscribeDecision::MissingCaptchaToken;
    }
    SubscribeDecision::Proceed(addr, st)
}

/// The storage effect of an accepted subscribe request.
pub enum SubscribeAction {
    /// The email already had a verified subscriber: its strategy was updated
    /// in place; the previous strategy is kept for the notification text.
    Updated(DigestStrategy),
    /// No subscriber existed: a pending subscription was created or
    /// refreshed.
    PendingCreated(PendingSubscription),
}

/// Apply an accepted subscribe request to the store: an already-verified
/// email gets its strategy updated in place (never a second record); any
/// other email gets a fresh pending subscription, overwriting an earlier
/// one.
pub fn apply_subscription_request(
    store: &mut Store,
    email: &EmailAddr,
    strategy: DigestStrategy,
    now: i64,
) -> (r: Result<SubscribeAction, StoreError>)
    requires
        old(store).wf(),
        email.wf(),
        valid_strategy(strategy),
        now + DAY_SECONDS <= i64::MAX,
    ensures
        final(store).wf(),
        r is Ok,
        final(store).digs() == old(store).digs(),
        final(store).snaps() == old(store).snaps(),
        match r->Ok_0 {
            SubscribeAction::Updated(old_strategy) => old(store).subs().dom().contains(email@)
                && old_strategy == old(store).subs()[email@].strategy && final(store).subs() == old(
                store,
            ).subs().insert(
                email@,
                crate::types::SubscriberV {
                    email: email@,
                    strategy,
                    subscribed_at: old(store).subs()[email@].subscribed_at,
                    token: old(store).subs()[email@].token,
                },
            ) && final(store).pends() == old(store).pends(),
            SubscribeAction::PendingCreated(p) => !old(store).subs().dom().contains(email@)
                && p.wf() && p@.email == email@ && p@.strategy == strategy && p@.created_at
                == now as int && p@.expires_at == now + DAY_SECONDS && final(store).pends() == old(
                store,
            ).pends().insert(email@, p@) && final(store).subs() == old(store).subs(),
        },
{
    match store.get_subscriber_by_email(email) {
        Some(existing) => {
            let old_strategy = lifecycle::update_subscription_strategy(store, existing, strategy);
            match old_strategy {
                Ok(st) => Ok(SubscribeAction::Updated(st)),
                Err(e) => Err(e),
            }
        },
        None => {
            match lifecycle::create_pending_subscription(store, email, strategy, now) {
                Ok(p) => Ok(SubscribeAction::PendingCreated(p)),
                Err(e) => Err(e),
            }
        },
    }
}

/// Handle `GET /api/verify?email=...&token=...`.
///
/// Exactly one input succeeds — a valid email whose pending record carries
/// this very token — and redirects to the success page; every other input
/// redirects to the same error page, indistinguishably.
pub fn verify_get(store: &mut Store, email_str: &str, token_str: &str, now: i64) -> (r: ApiResponse)
    requires
        old(store).wf(),
    ensures
        final(store).wf(),
        final(store).pends() == old(store).pends(),
        final(store).digs() == old(store).digs(),
        final(store).snaps() == old(store).snaps(),
        ({
            let e = lower_seq(email_str@);
            let ok = valid_email(e) && token_str@.len() > 0 && old(store).pends().dom().contains(e)
                && old(store).pends()[e].token == token_str@;
            if ok {
                (r matches ApiResponse::Redirect(loc) && loc@ == "/verify-success.html"@)
                    && exists|sv: crate::types::SubscriberV|
                    {
                        &&& #[trigger] final(store).subs() == old(store).subs().insert(e, sv)
                        &&& sv.email == e
                        &&& sv.strategy == old(store).pends()[e].strategy
                        &&& sv.subscribed_at == now as int
                    }
            } else {
                (r matches ApiResponse::Redirect(loc) && loc@ == "/verify-error.html"@)
                    && final(store).subs() == old(store).subs()
            }
        }),
{
    let email = match EmailAddr::parse(email_str) {
        Some(e) => e,
        None => {
            return redirect("/verify-error.html");
        },
    };
    let token = match Token::parse(token_str) {
        Ok(t) => t,
        Err(_) => {
            return redirect("/verify-error.html");
        },
    };
    match lifecycle::verify_subscription(store, &email, &token, now) {
        Ok(Some(_)) => redirect("/verify-success.html"),
        Ok(None) => redirect("/verify-error.html"),
        Err(_) => redirect("/verify-error.html"),
    }
}

/// Handle `POST /api/unsubscribe?token=...`.
///
/// A browser form submission is answered with redirects; an RFC 8058
/// one-click request (recognized by its body) with plain text. An unknown
/// token and an integrity failure both leave the store unchanged.
pub fn unsubscribe_post(store: &mut Store, token_str: &str, body: Option<&str>) -> (r: ApiResponse)
    requires
        old(store).wf(),
    ensures
        final(store).wf(),
        final(store).pends() == old(store).pends(),
        final(store).digs() == old(store).digs(),
        final(store).snaps() == old(store).snaps(),
        ({
            let one_click = body is Some && contains_seq(
                body->Some_0@,
                "List-Unsubscribe=One-Click"@,
            );
            let matches = Store::token_matches(old(store).subs_seq(), token_str@);
            if token_str@.len() == 0 {
                (r matches ApiResponse::Text { status, body: b } && status == 400 && b@
                    == "Invalid token"@) && final(store).subs() == old(store).subs()
            } else if matches.len() == 1 {
                final(store).subs() == old(store).subs().remove(matches[0]@.email) && (if one_click {
                    r matches ApiResponse::Text { status, body: b } && status == 200 && b@
                        == "Unsubscribed successfully"@
                } else {
                    r matches ApiResponse::Redirect(loc) && loc@ == "/unsubscribe-success.html"@
                })
            } else if matches.len() == 0 {
                final(store).subs() == old(store).subs() && (if one_click {
                    r matches ApiResponse::Text { status, body: b } && status == 404 && b@
                        == "Token not found"@
                } else {
                    r matches ApiResponse::Redirect(loc) && loc@ == "/unsubscribe-error.html"@
                })
            } else {
                final(store).subs() == old(store).subs() && (if one_click {
                    r matches ApiResponse::Text { status, body: b } && status == 500 && b@
                        == "Internal server error"@
                } else {
                    r matches ApiResponse::Redirect(loc) && loc@ == "/unsubscribe-error.html"@
                })
            }
        }),
{
    let token = match Token::parse(token_str) {
        Ok(t) => t,
        Err(_) => {
            return text(400, "Invalid token");
        },
    };
    let is_one_click = match body {
        Some(b) => str_contains(b, "List-Unsubscribe=One-Click"),
        None => false,
    };
    match lifecycle::remove_subscriber(store, &token) {
        Ok(true) => {
            if is_one_click {
                text(200, "Unsubscribed successfully")
            } else {
                redirect("/unsubscribe-success.html")
            }
        },
        Ok(false) => {
            if is_one_click {
                text(404, "Token not found")
            } else {
                redirect("/unsubscribe-error.html")
            }
        },
        Err(_) => {
            if is_one_click {
                text(500, "Internal server error")
            } else {
                redirect("/unsubscribe-error.html")
            }
        },
    }
}

/// Look up the subscriber behind `GET /api/unsubscribe?token=...`, for the
/// confirmation page. An empty token, no match and a duplicate-token
/// integrity failure all yield nothing; the caller shows one error page for
/// all three.
pub fn unsubscribe_get_lookup(store: &Store, token_str: &str) -> (r: Option<Subscriber>)
    requires
        store.wf(),
    ensures
        ({
            let matches = Store::token_matches(store.subs_seq(), token_str@);
            match r {
                Some(s) => token_str@.len() > 0 && matches.len() == 1 && s == matches[0],
                None => token_str@.len() == 0 || matches.len() != 1,
            }
        }),
{
    let token = match Token::parse(token_str) {
        Ok(t) => t,
        Err(_) => {
            return None;
        },
    };
    match store.get_subscriber_by_unsubscribe_token(&token) {
        Ok(Some(s)) => Some(s),
        Ok(None) => None,
        Err(_) => None,
    }
}

} // verus!
