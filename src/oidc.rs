use vstd::prelude::*;

use crate::err::{ProxyError, INTERNAL_SERVER_ERROR, UNAUTHORIZED};
use crate::text::names_view;

verus! {

#[verifier::external_type_specification]
#[verifier::external_body]
pub struct ExJsonValue(serde_json::Value);

#[verifier::external_type_specification]
#[verifier::external_body]
#[verifier::reject_recursive_types(K)]
#[verifier::reject_recursive_types(V)]
pub struct ExJsonMap<K, V>(serde_json::Map<K, V>);

/// The identity that a resolution produces.
#[derive(Debug, Clone)]
pub struct OidcUserInfo {
    pub id: String,
    pub email: Option<String>,
    pub preferred_username: Option<String>,
    pub groups: Vec<String>,
}

/// The claims of an identity token or of a userinfo response.
#[derive(Debug)]
pub struct TokenClaims {
    pub subject: String,
    pub email: Option<String>,
    pub preferred_username: Option<String>,
    /// The non-standard claims, by name.
    pub additional: serde_json::Map<String, serde_json::Value>,
}

/// What a set of claims holds under the configured groups claim.
#[derive(Debug, Clone)]
pub enum ClaimGroups {
    /// No groups claim is configured.
    NotConfigured,
    /// The configured claim is not among the claims.
    Absent,
    /// The claim decodes to this list of names.
    Present(Vec<String>),
    /// The claim is there but is not a list of strings.
    Malformed(String),
}

/// What the resolver does after the token exchange.
#[derive(Debug)]
pub enum NextStep {
    /// The resolution is over, with this result.
    Done(Result<OidcUserInfo, ProxyError>),
    /// The identity token did not settle it: ask the userinfo endpoint.
    FetchUserInfo,
}

/// The names of the claims held in a claim map.
pub uninterp spec fn claim_names(m: serde_json::Map<String, serde_json::Value>) -> Set<Seq<char>>;

/// The claims of a claim map whose value is a list of strings, with those
/// strings.
pub uninterp spec fn claim_string_lists(m: serde_json::Map<String, serde_json::Value>) -> Map<
    Seq<char>,
    Seq<Seq<char>>,
>;

/// Relies on serde_json::Map::get and serde_json::from_value: the claim under
/// `name` read as a list of strings, or the decoder's message when it is not
/// one; `None` when there is no such claim.
#[verifier::external_body]
fn claim_string_list(m: &serde_json::Map<String, serde_json::Value>, name: &String) -> (r: Option<
    Result<Vec<String>, String>,
>)
    ensures
        r is Some <==> claim_names(*m).contains(name@),
        r matches Some(Ok(g)) ==> claim_string_lists(*m).contains_key(name@) && claim_string_lists(
            *m,
        )[name@] == names_view(g@),
        r matches Some(Err(_)) ==> !claim_string_lists(*m).contains_key(name@),
{
    match m.get(name) {
        Some(v) => Some(serde_json::from_value::<Vec<String>>(v.clone()).map_err(|e| e.to_string())),
        None => None,
    }
}

/// `i` carries the standard claims of `c`.
pub open spec fn carries_claims(i: OidcUserInfo, c: TokenClaims) -> bool {
    &&& i.id@ == c.subject@
    &&& i.email == c.email
    &&& i.preferred_username == c.preferred_username
}

/// Looks the configured groups claim up among `claims` and decodes it.
pub fn lookup_groups(groups_claim: &Option<String>, claims: &serde_json::Map<String, serde_json::Value>) -> (r: ClaimGroups)
    ensures
        groups_lookup_fits(*groups_claim, *claims, r),
{
    match groups_claim {
        None => ClaimGroups::NotConfigured,
        Some(name) => match claim_string_list(claims, name) {
            None => ClaimGroups::Absent,
            Some(Ok(g)) => ClaimGroups::Present(g),
            Some(Err(m)) => ClaimGroups::Malformed(m),
        },
    }
}

/// The outcome of identity-token claims `c` whose groups lookup gave `g`.
pub open spec fn id_token_result(
    c: TokenClaims,
    g: ClaimGroups,
    r: Result<Option<OidcUserInfo>, ProxyError>,
) -> bool {
    match g {
        ClaimGroups::NotConfigured => r matches Ok(Some(i)) && carries_claims(i, c) && i.groups@
            == Seq::<String>::empty(),
        ClaimGroups::Absent => r == Ok::<Option<OidcUserInfo>, ProxyError>(None),
        ClaimGroups::Present(gs) => r matches Ok(Some(i)) && carries_claims(i, c) && i.groups
            == gs,
        ClaimGroups::Malformed(m) => r matches Err(e) && e.status == INTERNAL_SERVER_ERROR
            && e.message@ == m@,
    }
}

/// The outcome of userinfo claims `c` whose groups lookup gave `g`: here an
/// absent claim means no groups.
pub open spec fn user_info_result(c: TokenClaims, g: ClaimGroups, r: Result<OidcUserInfo, ProxyError>) -> bool {
    match g {
        ClaimGroups::NotConfigured | ClaimGroups::Absent => r matches Ok(i) && carries_claims(i, c)
            && i.groups@ == Seq::<String>::empty(),
        ClaimGroups::Present(gs) => r matches Ok(i) && carries_claims(i, c) && i.groups == gs,
        ClaimGroups::Malformed(m) => r matches Err(e) && e.status == INTERNAL_SERVER_ERROR
            && e.message@ == m@,
    }
}

/// Decides on identity-token claims: an identity, `None` when the configured
/// groups claim is absent (so the userinfo endpoint must be asked), or a
/// decode error.
pub fn id_token_outcome(c: TokenClaims, g: ClaimGroups) -> (r: Result<Option<OidcUserInfo>, ProxyError>)
    ensures
        id_token_result(c, g, r),
{
    let groups = match g {
        ClaimGroups::NotConfigured => Vec::new(),
        ClaimGroups::Absent => return Ok(None),
        ClaimGroups::Present(gs) => gs,
        ClaimGroups::Malformed(m) => return Err(ProxyError::new(m, INTERNAL_SERVER_ERROR)),
    };
    Ok(Some(OidcUserInfo {
        id: c.subject,
        email: c.email,
        preferred_username: c.preferred_username,
        groups,
    }))
}

/// Decides on userinfo claims: an identity or a decode error.
pub fn user_info_outcome(c: TokenClaims, g: ClaimGroups) -> (r: Result<OidcUserInfo, ProxyError>)
    ensures
        user_info_result(c, g, r),
{
    let groups = match g {
        ClaimGroups::NotConfigured | ClaimGroups::Absent => Vec::new(),
        ClaimGroups::Present(gs) => gs,
        ClaimGroups::Malformed(m) => return Err(ProxyError::new(m, INTERNAL_SERVER_ERROR)),
    };
    Ok(OidcUserInfo {
        id: c.subject,
        email: c.email,
        preferred_username: c.preferred_username,
        groups,
    })
}

/// `g` is what looking `groups_claim` up among `m` gives: nothing configured,
/// an absent claim, the claim's list of strings, or a claim that is not one.
pub open spec fn groups_lookup_fits(groups_claim: Option<String>, m: serde_json::Map<String, serde_json::Value>, g: ClaimGroups) -> bool {
    match groups_claim {
        None => g is NotConfigured,
        Some(n) => match g {
            ClaimGroups::NotConfigured => false,
            ClaimGroups::Absent => !claim_names(m).contains(n@),
            ClaimGroups::Present(gs) => claim_names(m).contains(n@) && claim_string_lists(m).contains_key(n@)
                && claim_string_lists(m)[n@] == names_view(gs@),
            ClaimGroups::Malformed(_) => claim_names(m).contains(n@) && !claim_string_lists(
                m,
            ).contains_key(n@),
        },
    }
}

/// What the resolver does after an exchange that gave `exchange`: an
/// upstream refusal (its message) or the identity token's claims, if any.
pub open spec fn token_step_result(
    groups_claim: Option<String>,
    exchange: Result<Option<TokenClaims>, String>,
    r: NextStep,
) -> bool {
    match exchange {
        Err(m) => r matches NextStep::Done(Err(e)) && e.status == UNAUTHORIZED && e.message@ == m@,
        Ok(None) => r is FetchUserInfo,
        Ok(Some(c)) => exists|g: ClaimGroups, o: Result<Option<OidcUserInfo>, ProxyError>|
            #[trigger] groups_lookup_fits(groups_claim, c.additional, g) && #[trigger] id_token_result(c, g, o)
                && match o {
                Ok(Some(i)) => r == NextStep::Done(Ok(i)),
                Ok(None) => r is FetchUserInfo,
                Err(e) => r == NextStep::Done(Err(e)),
            },
    }
}

/// What the resolver returns once the userinfo endpoint gave `info`: a
/// failed call (its message) or the claims.
pub open spec fn user_info_step_result(
    groups_claim: Option<String>,
    info: Result<TokenClaims, String>,
    r: Result<OidcUserInfo, ProxyError>,
) -> bool {
    match info {
        Err(m) => r matches Err(e) && e.status == INTERNAL_SERVER_ERROR && e.message@ == m@,
        Ok(c) => exists|g: ClaimGroups|
            #[trigger] groups_lookup_fits(groups_claim, c.additional, g) && user_info_result(c, g, r),
    }
}

/// The scopes that every token request asks for.
pub open spec fn base_scopes() -> Seq<Seq<char>> {
    seq!["openid"@, "email"@, "profile"@]
}

/// How identity-provider answers are turned into an identity.
#[derive(Debug, Clone)]
pub struct ClaimsPolicy {
    /// The non-standard claim that lists a user's groups, if any.
    pub groups_claim: Option<String>,
    /// Scopes asked for beyond `openid`, `email` and `profile`.
    pub additional_scopes: Vec<String>,
}

impl ClaimsPolicy {
    pub fn new(groups_claim: Option<String>, additional_scopes: Vec<String>) -> (r: ClaimsPolicy)
        ensures
            r.groups_claim == groups_claim,
            r.additional_scopes == additional_scopes,
    {
        ClaimsPolicy { groups_claim, additional_scopes }
    }

    /// The scopes of a password-grant token request: `openid`, `email`,
    /// `profile`, then the configured ones in order.
    pub fn token_scopes(&self) -> (r: Vec<String>)
        ensures
            r@.map_values(|s: String| s@) == base_scopes() + self.additional_scopes@.map_values(
                |s: String| s@,
            ),
    {
        let mut r: Vec<String> = Vec::new();
        r.push("openid".to_owned());
        r.push("email".to_owned());
        r.push("profile".to_owned());
        assert(r@.map_values(|s: String| s@) =~= base_scopes());
        let mut i: usize = 0;
        while i < self.additional_scopes.len()
            invariant
                i <= self.additional_scopes@.len(),
                r@.map_values(|s: String| s@) == base_scopes() + self.additional_scopes@.subrange(
                    0,
                    i as int,
                ).map_values(|s: String| s@),
            decreases self.additional_scopes.len() - i,
        {
            let s = self.additional_scopes[i].clone();
            let ghost prev = r@;
            r.push(s);
            proof {
                let sub = self.additional_scopes@.subrange(0, i as int);
                let next = self.additional_scopes@.subrange(0, i + 1);
                assert(next =~= sub.push(self.additional_scopes@[i as int]));
                assert(r@.map_values(|s: String| s@) =~= prev.map_values(|s: String| s@).push(
                    self.additional_scopes@[i as int]@,
                ));
                assert(next.map_values(|s: String| s@) =~= sub.map_values(|s: String| s@).push(
                    self.additional_scopes@[i as int]@,
                ));
            }
            i = i + 1;
        }
        assert(self.additional_scopes@.subrange(0, i as int) =~= self.additional_scopes@);
        r
    }

    /// Identity-token claims to an identity; `None` when the configured
    /// groups claim is absent from the token.
    pub fn parse_id_token_claims(&self, claims: TokenClaims) -> (r: Result<Option<OidcUserInfo>, ProxyError>)
        ensures
            exists|g: ClaimGroups|
                #[trigger] groups_lookup_fits(self.groups_claim, claims.additional, g) && id_token_result(claims, g, r),
    {
        let g = lookup_groups(&self.groups_claim, &claims.additional);
        let ghost gg = g;
        let r = id_token_outcome(claims, g);
        assert(groups_lookup_fits(self.groups_claim, claims.additional, gg));
        r
    }

    /// Userinfo claims to an identity; an absent groups claim means no groups.
    pub fn parse_user_info_claims(&self, claims: TokenClaims) -> (r: Result<OidcUserInfo, ProxyError>)
        ensures
            exists|g: ClaimGroups|
                #[trigger] groups_lookup_fits(self.groups_claim, claims.additional, g) && user_info_result(claims, g, r),
    {
        let g = lookup_groups(&self.groups_claim, &claims.additional);
        let ghost gg = g;
        let r = user_info_outcome(claims, g);
        assert(groups_lookup_fits(self.groups_claim, claims.additional, gg));
        r
    }

    /// The step after the token exchange. An upstream refusal is
    /// `UNAUTHORIZED`; an identity token that satisfies the policy settles the
    /// resolution; otherwise the userinfo endpoint is asked.
    pub fn after_token_exchange(&self, exchange: Result<Option<TokenClaims>, String>) -> (r: NextStep)
        ensures
            token_step_result(self.groups_claim, exchange, r),
    {
        match exchange {
            Err(m) => NextStep::Done(Err(ProxyError::new(m, UNAUTHORIZED))),
            Ok(None) => NextStep::FetchUserInfo,
            Ok(Some(c)) => {
                let ghost cc = c;
                let g = lookup_groups(&self.groups_claim, &c.additional);
                let ghost gg = g;
                let o = id_token_outcome(c, g);
                let ghost oo = o;
                assert(groups_lookup_fits(self.groups_claim, cc.additional, gg));
                assert(id_token_result(cc, gg, oo));
                match o {
                    Ok(Some(i)) => NextStep::Done(Ok(i)),
                    Ok(None) => NextStep::FetchUserInfo,
                    Err(e) => NextStep::Done(Err(e)),
                }
            },
        }
    }

    /// The result once the userinfo endpoint answered; a failed call is
    /// `INTERNAL_SERVER_ERROR`.
    pub fn after_user_info(&self, info: Result<TokenClaims, String>) -> (r: Result<OidcUserInfo, ProxyError>)
        ensures
            user_info_step_result(self.groups_claim, info, r),
    {
        match info {
            Err(m) => Err(ProxyError::new(m, INTERNAL_SERVER_ERROR)),
            Ok(c) => self.parse_user_info_claims(c),
        }
    }
}

/// When the identity token lacks the configured groups claim, the resolver
/// goes on to the userinfo endpoint, and the groups it then returns are those
/// that the userinfo claims carry.
pub proof fn lemma_groups_fall_back_to_user_info(
    groups_claim: String,
    token: TokenClaims,
    step: NextStep,
    info: TokenClaims,
    r: Result<OidcUserInfo, ProxyError>,
)
    requires
        !claim_names(token.additional).contains(groups_claim@),
        token_step_result(Some(groups_claim), Ok(Some(token)), step),
        user_info_step_result(Some(groups_claim), Ok(info), r),
        claim_names(info.additional).contains(groups_claim@),
        claim_string_lists(info.additional).contains_key(groups_claim@),
    ensures
        step is FetchUserInfo,
        r matches Ok(i) && names_view(i.groups@) == claim_string_lists(info.additional)[groups_claim@]
            && i.id@ == info.subject@,
{
}

} // verus!
