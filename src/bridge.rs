use vstd::prelude::*;
use vstd::string::StringExecFns;

use crate::basic::Credentials;
use crate::cache::{decide, expiry, slot_of, CredentialCache, Decision, Slot};
use crate::err::ProxyError;
use crate::oidc::OidcUserInfo;
use crate::text::names_view;

verus! {

/// The status of a request whose credentials resolved.
pub const OK: u16 = 200;

/// A forward-auth answer: a status and trust headers; the body is always empty.
#[derive(Debug, Clone)]
pub struct AuthResponse {
    pub status: u16,
    pub headers: Vec<(String, String)>,
    /// The message of the error answered, for the operator's log; it is
    /// never sent to the client.
    pub error: Option<String>,
}

/// Header names and values as character sequences.
pub open spec fn headers_view(h: Seq<(String, String)>) -> Seq<(Seq<char>, Seq<char>)> {
    h.map_values(|p: (String, String)| (p.0@, p.1@))
}

/// The names joined with commas, in order; commas inside a name are kept as
/// they are.
pub open spec fn join_comma(names: Seq<Seq<char>>) -> Seq<char>
    decreases names.len(),
{
    if names.len() == 0 {
        Seq::empty()
    } else if names.len() == 1 {
        names[0]
    } else {
        join_comma(names.drop_last()) + seq![','] + names.last()
    }
}

/// The trust headers for an identity: the user always, then email and
/// preferred username when known, then the groups when there are any.
pub open spec fn identity_headers_spec(i: OidcUserInfo) -> Seq<(Seq<char>, Seq<char>)> {
    seq![("X-Auth-Request-User"@, i.id@)] + email_header(i.email) + username_header(
        i.preferred_username,
    ) + if i.groups@.len() > 0 {
        seq![("X-Auth-Request-Groups"@, join_comma(names_view(i.groups@)))]
    } else {
        Seq::empty()
    }
}

/// The email header, when the email is known.
pub open spec fn email_header(email: Option<String>) -> Seq<(Seq<char>, Seq<char>)> {
    match email {
        Some(e) => seq![("X-Auth-Request-Email"@, e@)],
        None => Seq::empty(),
    }
}

/// The preferred-username header, when the name is known.
pub open spec fn username_header(name: Option<String>) -> Seq<(Seq<char>, Seq<char>)> {
    match name {
        Some(u) => seq![("X-Auth-Request-Preferred-Username"@, u@)],
        None => Seq::empty(),
    }
}

/// Joins group names with a comma.
pub fn join_groups(groups: &Vec<String>) -> (r: String)
    ensures
        r@ == join_comma(names_view(groups@)),
{
    let mut r = String::new();
    let mut i: usize = 0;
    while i < groups.len()
        invariant
            i <= groups@.len(),
            r@ == join_comma(names_view(groups@.subrange(0, i as int))),
        decreases groups.len() - i,
    {
        proof {
            let prev = groups@.subrange(0, i as int);
            let next = groups@.subrange(0, i + 1);
            assert(names_view(next).drop_last() =~= names_view(prev));
            assert(names_view(next).last() == groups@[i as int]@);
            assert(i == 0 ==> names_view(prev) =~= Seq::<Seq<char>>::empty());
        }
        if i > 0 {
            r.append(",");
            proof {
                reveal_strlit(",");
            }
        }
        r.append(groups[i].as_str());
        proof {
            let next = groups@.subrange(0, i + 1);
            assert(names_view(next).len() == i + 1);
            if i == 0 {
                assert(r@ =~= names_view(next)[0]);
            } else {
                assert(r@ =~= join_comma(names_view(next).drop_last()) + seq![','] + names_view(next).last());
            }
        }
        i = i + 1;
    }
    assert(groups@.subrange(0, i as int) =~= groups@);
    r
}

/// The trust headers for a resolved identity.
pub fn identity_headers(info: &OidcUserInfo) -> (r: Vec<(String, String)>)
    ensures
        headers_view(r@) == identity_headers_spec(*info),
{
    let mut r: Vec<(String, String)> = Vec::new();
    r.push(("X-Auth-Request-User".to_owned(), info.id.clone()));
    let ghost want = identity_headers_spec(*info);
    let ghost a = seq![("X-Auth-Request-User"@, info.id@)];
    assert(headers_view(r@) =~= a);
    let ghost b = email_header(info.email);
    if let Some(e) = &info.email {
        r.push(("X-Auth-Request-Email".to_owned(), e.clone()));
    }
    assert(headers_view(r@) =~= a + b);
    let ghost c = username_header(info.preferred_username);
    if let Some(u) = &info.preferred_username {
        r.push(("X-Auth-Request-Preferred-Username".to_owned(), u.clone()));
    }
    assert(headers_view(r@) =~= a + b + c);
    if info.groups.len() > 0 {
        r.push(("X-Auth-Request-Groups".to_owned(), join_groups(&info.groups)));
    }
    assert(headers_view(r@) =~= want);
    r
}

/// `r` answers `outcome`: `OK` with the identity's headers, or the error's
/// status with no headers.
pub open spec fn rendered(outcome: Result<OidcUserInfo, ProxyError>, r: AuthResponse) -> bool {
    match outcome {
        Ok(i) => r.status == OK && headers_view(r.headers@) == identity_headers_spec(i) && r.error is None,
        Err(e) => r.status == e.status && r.headers@.len() == 0 && (r.error matches Some(m) && m@
            == e.message@),
    }
}

/// The answer for a resolution outcome.
pub fn render(outcome: &Result<OidcUserInfo, ProxyError>) -> (r: AuthResponse)
    ensures
        rendered(*outcome, r),
{
    match outcome {
        Ok(i) => AuthResponse { status: OK, headers: identity_headers(i), error: None },
        Err(e) => AuthResponse { status: e.status, headers: Vec::new(), error: Some(e.message.clone()) },
    }
}

/// The table of resolution outcomes that the bridge serves from.
pub type OutcomeCache = CredentialCache<Result<OidcUserInfo, ProxyError>>;

/// What the bridge does next with a request that carries credentials.
#[derive(Debug)]
pub enum RequestStep {
    /// Answer now, from a stored outcome.
    Answer(AuthResponse),
    /// Resolve the credentials upstream, then call `finish_request`.
    Resolve,
    /// Another request is resolving these credentials: look again later.
    Wait,
}

/// Looks a request's credentials up at time `now`: answers from a served
/// outcome, or tells the caller to wait for or to run the resolution.
pub fn poll_request(cache: &mut OutcomeCache, credentials: &Credentials, now: u64) -> (r: RequestStep)
    requires
        old(cache).wf(),
    ensures
        final(cache).wf(),
        final(cache).ttl() == old(cache).ttl(),
        final(cache).max_size() == old(cache).max_size(),
        match decide(slot_of(old(cache)@, credentials@), now, old(cache).ttl()) {
            Decision::Cached => final(cache)@ == old(cache)@ && exists|o: Result<OidcUserInfo, ProxyError>, a: AuthResponse|
                old(cache)@[credentials@] == (Slot::Ready { outcome: o, expires_at: old(cache)@[credentials@]->expires_at })
                    && r == RequestStep::Answer(a) && #[trigger] rendered(o, a),
            Decision::Wait => final(cache)@ == old(cache)@ && r is Wait,
            Decision::Resolve => r is Resolve && final(cache)@.contains_key(credentials@)
                && final(cache)@[credentials@] == (Slot::<Result<OidcUserInfo, ProxyError>>::Pending { since: now }),
        },
{
    let d = cache.begin(credentials.duplicate(), now);
    match d {
        Decision::Cached => match cache.outcome(credentials) {
            Some(o) => {
                let a = render(o);
                RequestStep::Answer(a)
            },
            None => RequestStep::Resolve,
        },
        Decision::Wait => RequestStep::Wait,
        Decision::Resolve => RequestStep::Resolve,
    }
}

/// Stores the outcome of a resolution run at `now` and answers from it.
pub fn finish_request(
    cache: &mut OutcomeCache,
    credentials: &Credentials,
    outcome: Result<OidcUserInfo, ProxyError>,
    now: u64,
) -> (r: AuthResponse)
    requires
        old(cache).wf(),
    ensures
        final(cache).wf(),
        final(cache).ttl() == old(cache).ttl(),
        final(cache).max_size() == old(cache).max_size(),
        final(cache)@ == old(cache)@.insert(
            credentials@,
            Slot::Ready { outcome, expires_at: expiry(now, old(cache).ttl()) },
        ),
        rendered(outcome, r),
{
    let r = render(&outcome);
    cache.complete(credentials.duplicate(), outcome, now);
    r
}

/// A failed resolution stored at `stored` answers every later lookup of the
/// same credentials before it expires, with the same status and no headers,
/// and without another upstream call.
pub proof fn lemma_failure_answered_from_cache(
    before: Map<(Seq<char>, Seq<char>), Slot<Result<OidcUserInfo, ProxyError>>>,
    k: (Seq<char>, Seq<char>),
    e: ProxyError,
    stored: u64,
    ttl: u64,
    now: u64,
    a: AuthResponse,
)
    requires
        now < expiry(stored, ttl),
    ensures
        ({
            let after = before.insert(k, Slot::Ready { outcome: Err(e), expires_at: expiry(stored, ttl) });
            decide(slot_of(after, k), now, ttl) == Decision::Cached
                && (rendered(after[k]->outcome, a) ==> a.status == e.status && a.headers@.len() == 0)
        }),
{
}

} // verus!
