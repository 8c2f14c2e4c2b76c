//! What authorizations become.

use vstd::prelude::*;

use crate::collection::{entered, left, with_auth, with_root};
use crate::context::{
    law_nothing_to_resolve, replaced_once, resolution, Context, VAR_REPLACE_CREDITS,
};
use crate::fault::Fault;
use crate::laws::bodies::lemma_set;
use crate::map::{ascending, law_put_ascending, law_put_lookup, lemma_key_at, lookup, put};
use crate::openapi::v3_0::{
    FlowsView, RefView, SecurityRequirementView, SecuritySchemeView, SpecView,
};
use crate::postman::{ApiKeyLocation, Auth, AuthType, Oauth2, Oauth2GrantType};
use crate::security::{
    flows, need, required_from, requirement, scheme, schemes, scopes_from, with_requirements,
    with_scheme,
};
use crate::state::StateView;

verus! {

/// `r` is the text with its variables replaced. Where there is nothing to
/// replace, it is the text.
pub open spec fn is_resolved(ctx: Context, text: Seq<char>, r: Seq<char>) -> bool {
    &&& resolution(ctx, text) == Ok::<Seq<char>, Fault>(r)
    &&& replaced_once(ctx.variables, text) == Ok::<Option<Seq<char>>, Fault>(None) ==> r == text
}

/// A resolution is that of its text.
pub proof fn lemma_resolved(ctx: Context, text: Seq<char>)
    ensures
        resolution(ctx, text) matches Ok(r) ==> is_resolved(ctx, text, r),
{
    if replaced_once(ctx.variables, text) == Ok::<Option<Seq<char>>, Fault>(None) {
        law_nothing_to_resolve(
            ctx.variables,
            text,
            VAR_REPLACE_CREDITS as nat,
        );
    }
}

/// The text of an address, which is empty where there is none.
pub open spec fn address_text(url: Option<String>) -> Seq<char> {
    match url {
        Some(url) => url@,
        None => seq![],
    }
}

/// The scope at `i` is asked for under this name, once its variables are
/// replaced.
pub open spec fn asks_for(ctx: Context, oauth2: Oauth2, i: int, scope: Seq<char>) -> bool {
    oauth2.scope matches Some(list) && 0 <= i < list@.len() && resolution(ctx, list@[i]@) == Ok::<
        Seq<char>,
        Fault,
    >(scope)
}

/// The scopes are those that are asked for, each described by itself.
pub open spec fn lists_scopes(
    ctx: Context,
    oauth2: Oauth2,
    scopes: Seq<(Seq<char>, Seq<char>)>,
) -> bool {
    forall|scope: Seq<char>| #[trigger]
        lookup(scopes, scope) == if exists|i: int| #[trigger] asks_for(ctx, oauth2, i, scope) {
            Some(scope)
        } else {
            None
        }
}

proof fn lemma_scopes(
    ctx: Context,
    scopes: Seq<Seq<char>>,
    i: int,
    acc: Seq<(Seq<char>, Seq<char>)>,
    scope: Seq<char>,
)
    requires
        0 <= i,
        ascending(acc),
    ensures
        scopes_from(ctx, scopes, i, acc) matches Ok(r) ==> lookup(r, scope) == if exists|k: int|
            i <= k < scopes.len() && resolution(ctx, #[trigger] scopes[k]) == Ok::<
                Seq<char>,
                Fault,
            >(scope) {
            Some(scope)
        } else {
            lookup(acc, scope)
        },
    decreases scopes.len() - i,
{
    if i < scopes.len() {
        if let Ok(own) = resolution(ctx, scopes[i]) {
            law_put_ascending(acc, own, own);
            law_put_lookup(acc, own, own, scope);
            lemma_scopes(ctx, scopes, i + 1, put(acc, own, own), scope);
        }
    }
}

/// The flow of OAuth 2 follows the grant, alone, and carries the addresses of
/// the authorization that it has a place for, and its scopes.
pub proof fn law_flows(ctx: Context, oauth2: Oauth2)
    ensures
        flows(ctx, Some(oauth2)) matches Ok(f) ==> match oauth2.grant_type {
            Oauth2GrantType::AuthorizationCode | Oauth2GrantType::AuthorizationCodeWithPkce => {
                &&& f.implicit is None && f.password is None && f.client_credentials is None
                &&& f.authorization_code is Some
                &&& is_resolved(
                    ctx,
                    address_text(oauth2.auth_url),
                    f.authorization_code->0.authorization_url,
                )
                &&& is_resolved(
                    ctx,
                    address_text(oauth2.access_token_url),
                    f.authorization_code->0.token_url,
                )
                &&& refreshes(ctx, oauth2, f.authorization_code->0.refresh_url)
                &&& lists_scopes(ctx, oauth2, f.authorization_code->0.scopes)
            },
            Oauth2GrantType::Implicit => {
                &&& f.authorization_code is None && f.password is None && f.client_credentials
                    is None
                &&& f.implicit is Some
                &&& is_resolved(
                    ctx,
                    address_text(oauth2.auth_url),
                    f.implicit->0.authorization_url,
                )
                &&& refreshes(ctx, oauth2, f.implicit->0.refresh_url)
                &&& lists_scopes(ctx, oauth2, f.implicit->0.scopes)
            },
            Oauth2GrantType::PasswordCredentials => {
                &&& f.authorization_code is None && f.implicit is None && f.client_credentials
                    is None
                &&& f.password is Some
                &&& is_resolved(
                    ctx,
                    address_text(oauth2.access_token_url),
                    f.password->0.token_url,
                )
                &&& refreshes(ctx, oauth2, f.password->0.refresh_url)
                &&& lists_scopes(ctx, oauth2, f.password->0.scopes)
            },
            Oauth2GrantType::ClientCredentials => {
                &&& f.authorization_code is None && f.implicit is None && f.password is None
                &&& f.client_credentials is Some
                &&& is_resolved(
                    ctx,
                    address_text(oauth2.access_token_url),
                    f.client_credentials->0.token_url,
                )
                &&& refreshes(ctx, oauth2, f.client_credentials->0.refresh_url)
                &&& lists_scopes(ctx, oauth2, f.client_credentials->0.scopes)
            },
        },
        flows(ctx, None) matches Ok(f) && f.authorization_code is None && f.implicit is None
            && f.password is None && f.client_credentials is None,
{
    lemma_resolved(ctx, address_text(oauth2.auth_url));
    lemma_resolved(ctx, address_text(oauth2.access_token_url));
    if let Some(url) = oauth2.refresh_token_url {
        lemma_resolved(ctx, url@);
    }
    let list: Seq<Seq<char>> = match oauth2.scope {
        Some(list) => list.deep_view(),
        None => seq![],
    };
    if let Ok(scopes) = scopes_from(ctx, list, 0, seq![]) {
        assert forall|scope: Seq<char>| #[trigger]
            lookup(scopes, scope) == if exists|i: int| #[trigger]
                asks_for(ctx, oauth2, i, scope) {
                Some(scope)
            } else {
                None
            } by {
            lemma_scopes(ctx, list, 0, seq![], scope);
            lemma_key_at(Seq::<(Seq<char>, Seq<char>)>::empty(), scope);
            if exists|k: int|
                0 <= k < list.len() && resolution(ctx, #[trigger] list[k]) == Ok::<
                    Seq<char>,
                    Fault,
                >(scope) {
                let k = choose|k: int|
                    0 <= k < list.len() && resolution(ctx, #[trigger] list[k]) == Ok::<
                        Seq<char>,
                        Fault,
                    >(scope);
                assert(asks_for(ctx, oauth2, k, scope));
            }
            if exists|i: int| #[trigger] asks_for(ctx, oauth2, i, scope) {
                let i = choose|i: int| #[trigger] asks_for(ctx, oauth2, i, scope);
                assert(resolution(ctx, list[i]) == Ok::<Seq<char>, Fault>(scope));
            }
        }
    }
}

/// `r` is the address at which tokens are refreshed, where there is one.
pub open spec fn refreshes(ctx: Context, oauth2: Oauth2, r: Option<Seq<char>>) -> bool {
    match oauth2.refresh_token_url {
        Some(url) => r is Some && is_resolved(ctx, url@, r->0),
        None => r is None,
    }
}

/// The name by which the scheme of an authorization is declared; none for one
/// that needs no scheme or cannot be described.
pub open spec fn name_of(auth_type: AuthType) -> Option<Seq<char>> {
    match auth_type {
        AuthType::Basic => Some("basicAuth"@),
        AuthType::Digest => Some("digestAuth"@),
        AuthType::Bearer => Some("bearerAuth"@),
        AuthType::Jwt => Some("jwtBearerAuth"@),
        AuthType::Apikey => Some("RapidAPIKey"@),
        AuthType::Oauth2 => Some("oauth2"@),
        _ => None,
    }
}

/// The scheme is that of the authorization: of its kind, for a key with its
/// name and its place, and for OAuth 2 with its flows.
pub open spec fn follows_scheme(ctx: Context, auth: Auth, s: SecuritySchemeView) -> bool {
    match auth.auth_type {
        AuthType::Basic => s == SecuritySchemeView::Http {
            scheme: "basic"@,
            bearer_format: None,
        },
        AuthType::Digest => s == SecuritySchemeView::Http {
            scheme: "digest"@,
            bearer_format: None,
        },
        AuthType::Bearer => s == SecuritySchemeView::Http {
            scheme: "bearer"@,
            bearer_format: None,
        },
        AuthType::Jwt => s == SecuritySchemeView::Http {
            scheme: "bearer"@,
            bearer_format: Some("jwt"@),
        },
        AuthType::Apikey => {
            &&& s is ApiKey
            &&& match auth.apikey {
                None => s == SecuritySchemeView::ApiKey {
                    name: "Authorization"@,
                    location: "header"@,
                },
                Some(apikey) => {
                    &&& is_resolved(
                        ctx,
                        match apikey.key {
                            Some(key) => key@,
                            None => "Authorization"@,
                        },
                        s->name,
                    )
                    &&& s->location == match apikey.location {
                        ApiKeyLocation::Header => "header"@,
                        ApiKeyLocation::Query => "query"@,
                    }
                },
            }
        },
        AuthType::Oauth2 => s is OAuth2 && flows(ctx, auth.oauth2) == Ok::<FlowsView, Fault>(
            s->flows,
        ),
        _ => false,
    }
}

/// Meeting with an authorization declares its scheme, under its name, and
/// nothing else changes.
pub proof fn law_scheme_declared(ctx: Context, state: StateView, auth: Auth, other: Seq<char>)
    requires
        ascending(schemes(state.oas.components)),
    ensures
        with_scheme(ctx, state, auth) matches Ok(after) ==> {
            let a = schemes(state.oas.components);
            let b = schemes(after.oas.components);
            &&& after == StateView {
                oas: SpecView { components: after.oas.components, ..state.oas },
                ..state
            }
            &&& name_of(auth.auth_type) matches Some(name) ==> (lookup(b, name) matches Some(
                RefView::Object(s),
            ) && follows_scheme(ctx, auth, s))
            &&& name_of(auth.auth_type) != Some(other) ==> lookup(b, other) == lookup(a, other)
        },
{
    if let Some(apikey) = auth.apikey {
        lemma_resolved(
            ctx,
            match apikey.key {
                Some(key) => key@,
                None => "Authorization"@,
            },
        );
    }
    if let Ok(Some(own)) = scheme(ctx, auth) {
        let a = schemes(state.oas.components);
        let name = name_of(auth.auth_type)->0;
        law_put_lookup(a, name, RefView::Object(own), other);
        law_put_lookup(a, name, RefView::Object(own), name);
    }
}

/// A request with the authorization requires its scheme, with the scopes that
/// OAuth 2 asks for and otherwise none; without authorization it requires
/// nothing, and of a kind that cannot be described nothing is known.
pub proof fn law_need(auth: Auth, other: Seq<char>)
    ensures
        match name_of(auth.auth_type) {
            Some(name) => need(auth) matches Some(own) && (requirement(own).requirement matches Some(
                m,
            ) && lookup(m, other) == if other == name {
                Some(
                    match auth.oauth2 {
                        Some(Oauth2 { scope: Some(list), .. }) if auth.auth_type
                            == AuthType::Oauth2 => list.deep_view(),
                        _ => seq![],
                    },
                )
            } else {
                None
            }),
            None => if auth.auth_type == AuthType::Noauth {
                need(auth) matches Some(own) && requirement(own).requirement is None
            } else {
                need(auth) is None
            },
        },
{
    if let Some(Some((name, scopes))) = need(auth) {
        lemma_set(seq![], name, scopes);
        lemma_key_at(Seq::<(Seq<char>, Seq<Seq<char>>)>::empty(), other);
    }
}

/// A request requires what its own authorization says, and without one what
/// the innermost folder says that it is in.
pub proof fn law_request_requires(ctx: Context, state: StateView, auth: Option<Auth>)
    ensures
        with_auth(ctx, state, auth) matches Ok((after, security)) ==> {
            &&& after.auth_stack == state.auth_stack
            &&& match auth {
                Some(auth) => {
                    &&& with_scheme(ctx, state, auth) == Ok::<StateView, Fault>(after)
                    &&& match need(auth) {
                        Some(own) => security is Some && security->0.len() == 1 && security->0[0]
                            == requirement(own),
                        None => security is None,
                    }
                },
                None => {
                    &&& after == state
                    &&& if state.auth_stack.len() > 0 {
                        security is Some && security->0.len() == 1 && security->0[0]
                            == state.auth_stack[state.auth_stack.len() - 1]
                    } else {
                        security is None
                    }
                },
            }
        },
{
}

/// In a folder, a request without authorization requires what the folder does,
/// or, where that has none or none that can be described, what it required
/// outside. What the collection requires stands in the description.
pub proof fn law_folder_requires(ctx: Context, state: StateView, auth: Option<Auth>)
    ensures
        entered(ctx, state, auth) matches Ok(inside) ==> (with_auth(ctx, inside, None) matches Ok(
            (after, security),
        ) && after == inside && match auth {
            Some(own) => {
                &&& need(own) matches Some(n) ==> security is Some && security->0.len() == 1
                    && security->0[0] == requirement(n)
                &&& need(own) is None ==> inside.auth_stack == state.auth_stack
                &&& with_scheme(ctx, state, own) matches Ok(declared) && inside.oas == declared.oas
                    && left(inside, auth) == declared
            },
            None => inside == state && left(inside, auth) == state,
        }),
        with_root(ctx, state, auth) matches Ok(after) ==> match auth {
            Some(own) => {
                &&& with_scheme(ctx, state, own) matches Ok(declared) && after.oas.components
                    == declared.oas.components && after == (StateView {
                    oas: SpecView { security: after.oas.security, ..declared.oas },
                    ..declared
                })
                &&& need(own) matches Some(n) ==> after.oas.security is Some
                    && after.oas.security->0.len() == 1 && after.oas.security->0[0] == requirement(
                    n,
                )
                &&& need(own) is None ==> after.oas.security == state.oas.security
            },
            None => after == state,
        },
{
    if let (Ok(inside), Some(own)) = (entered(ctx, state, auth), auth) {
        let declared = with_scheme(ctx, state, own)->Ok_0;
        if let Some(n) = need(own) {
            assert(inside.auth_stack.drop_last() =~= declared.auth_stack);
        }
    }
}

proof fn lemma_required_from(
    security: Seq<SecurityRequirementView>,
    new: Seq<SecurityRequirementView>,
    i: int,
    own: SecurityRequirementView,
)
    requires
        0 <= i,
    ensures
        security.is_prefix_of(required_from(security, new, i)),
        required_from(security, new, i).contains(own) <==> security.contains(own) || exists|k: int|
            i <= k < new.len() && #[trigger] new[k] == own,
        security.no_duplicates() ==> required_from(security, new, i).no_duplicates(),
    decreases new.len() - i,
{
    if i < new.len() {
        if security.contains(new[i]) {
            lemma_required_from(security, new, i + 1, own);
        } else {
            let next = security.push(new[i]);
            lemma_required_from(next, new, i + 1, own);
            assert(security =~= next.take(security.len() as int));
            let r = required_from(next, new, i + 1);
            assert(security =~= r.take(security.len() as int)) by {
                assert(next =~= r.take(next.len() as int));
            }
            assert(next.contains(own) <==> security.contains(own) || new[i] == own) by {
                if next.contains(own) {
                    let k = choose|k: int| 0 <= k < next.len() && next[k] == own;
                    if k < security.len() {
                        assert(security[k] == own);
                    }
                }
                if security.contains(own) {
                    let k = choose|k: int| 0 <= k < security.len() && security[k] == own;
                    assert(next[k] == own);
                }
                assert(next[security.len() as int] == new[i]);
            }
        }
    } else {
        assert(security =~= security.take(security.len() as int));
    }
}

/// What the requests for an operation require gathers: what it required stays
/// in its place, what is new comes after it, and nothing else or twice.
pub proof fn law_requirements_gather(
    security: Option<Seq<SecurityRequirementView>>,
    new: Option<Seq<SecurityRequirementView>>,
    own: SecurityRequirementView,
)
    ensures
        with_requirements(security, new) is None <==> security is None && new is None,
        with_requirements(security, new) matches Some(r) ==> {
            &&& r.contains(own) <==> (security is Some && security->0.contains(own)) || (new is Some
                && new->0.contains(own))
            &&& security is Some ==> security->0.is_prefix_of(r)
            &&& security is Some && security->0.no_duplicates() ==> r.no_duplicates()
            &&& security is None ==> r == new->0
        },
{
    if let (Some(a), Some(b)) = (security, new) {
        lemma_required_from(a, b, 0, own);
        assert(b.contains(own) <==> exists|k: int| 0 <= k < b.len() && #[trigger] b[k] == own);
    } else if let Some(a) = security {
        assert(a =~= a.take(a.len() as int));
    }
}

/// Leaving a folder takes away what it required, if it required anything, and
/// nothing else.
pub proof fn law_left(inner: StateView, auth: Option<Auth>)
    ensures
        left(inner, auth).oas == inner.oas,
        left(inner, auth).operation_ids == inner.operation_ids,
        left(inner, auth).hierarchy == inner.hierarchy,
        (auth matches Some(own) && need(own) is Some) && inner.auth_stack.len() > 0 ==> left(
            inner,
            auth,
        ).auth_stack == inner.auth_stack.take(inner.auth_stack.len() - 1),
        !(auth matches Some(own) && need(own) is Some) ==> left(inner, auth) == inner,
{
    if inner.auth_stack.len() > 0 {
        assert(inner.auth_stack.drop_last() =~= inner.auth_stack.take(inner.auth_stack.len() - 1));
    }
}

} // verus!
