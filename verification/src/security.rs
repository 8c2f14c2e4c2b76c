//! How requests are authorized.

use vstd::prelude::*;

use crate::context::{resolution, Context, Transpiler, VAR_REPLACE_CREDITS};
use crate::fault::{outcome, Fault};
use crate::map::{put, StrMap};
use crate::openapi::v3_0::{
    AuthorizationCodeFlow, AuthorizationCodeFlowView, ClientCredentialsFlow,
    ClientCredentialsFlowView, Components, ComponentsView, Flows, FlowsView, ImplicitFlow,
    ImplicitFlowView, ObjectOrReference, PasswordFlow, PasswordFlowView, RefView,
    SecurityRequirement, SecurityRequirementView, SecurityScheme, SecuritySchemeView, SpecView,
};
use crate::postman::{ApiKey, ApiKeyLocation, Auth, AuthType, Oauth2, Oauth2GrantType};
use crate::state::{StateView, TranspileState};
use crate::text::{copy_texts, same};

verus! {

/// The security schemes by name.
pub type Schemes = Seq<(Seq<char>, RefView<SecuritySchemeView>)>;

/// What a request needs: the name of a scheme and its scopes, or nothing at all.
pub type Need = Option<(Seq<char>, Seq<Seq<char>>)>;

/// What a request with this authorization needs; `None` where the kind of
/// authorization cannot be described.
pub open spec fn need(auth: Auth) -> Option<Need> {
    match auth.auth_type {
        AuthType::Noauth => Some(None),
        AuthType::Basic => Some(Some(("basicAuth"@, seq![]))),
        AuthType::Digest => Some(Some(("digestAuth"@, seq![]))),
        AuthType::Bearer => Some(Some(("bearerAuth"@, seq![]))),
        AuthType::Jwt => Some(Some(("jwtBearerAuth"@, seq![]))),
        AuthType::Apikey => Some(Some(("RapidAPIKey"@, seq![]))),
        AuthType::Oauth2 => Some(
            Some(
                (
                    "oauth2"@,
                    match auth.oauth2 {
                        Some(oauth2) => scopes_of(oauth2),
                        None => seq![],
                    },
                ),
            ),
        ),
        _ => None,
    }
}

/// The name of the scheme that a request with this authorization needs.
pub open spec fn scheme_name(auth: Auth) -> Seq<char> {
    match need(auth) {
        Some(Some((name, _))) => name,
        _ => seq![],
    }
}

/// The scopes that are asked for.
pub open spec fn scopes_of(oauth2: Oauth2) -> Seq<Seq<char>> {
    match oauth2.scope {
        Some(scopes) => scopes.deep_view(),
        None => seq![],
    }
}

/// The scopes from `i` on with their variables replaced, each described by
/// itself, added to `acc`.
pub open spec fn scopes_from(
    ctx: Context,
    scopes: Seq<Seq<char>>,
    i: int,
    acc: Seq<(Seq<char>, Seq<char>)>,
) -> Result<Seq<(Seq<char>, Seq<char>)>, Fault>
    decreases scopes.len() - i,
{
    if i >= scopes.len() {
        Ok(acc)
    } else {
        match resolution(ctx, scopes[i]) {
            Err(f) => Err(f),
            Ok(scope) => scopes_from(ctx, scopes, i + 1, put(acc, scope, scope)),
        }
    }
}

/// The address with its variables replaced; empty where there is none.
pub open spec fn address(ctx: Context, url: Option<Seq<char>>) -> Result<Seq<char>, Fault> {
    resolution(
        ctx,
        match url {
            Some(url) => url,
            None => seq![],
        },
    )
}

/// The address with its variables replaced, where there is one.
pub open spec fn some_address(ctx: Context, url: Option<Seq<char>>) -> Result<
    Option<Seq<char>>,
    Fault,
> {
    match url {
        Some(url) => match resolution(ctx, url) {
            Err(f) => Err(f),
            Ok(url) => Ok(Some(url)),
        },
        None => Ok(None),
    }
}

/// The flow of OAuth 2 by which tokens are had.
pub open spec fn flow(
    grant_type: Oauth2GrantType,
    scopes: Seq<(Seq<char>, Seq<char>)>,
    authorization_url: Seq<char>,
    token_url: Seq<char>,
    refresh_url: Option<Seq<char>>,
) -> FlowsView {
    match grant_type {
        Oauth2GrantType::AuthorizationCode | Oauth2GrantType::AuthorizationCodeWithPkce => FlowsView {
            authorization_code: Some(
                AuthorizationCodeFlowView { authorization_url, token_url, refresh_url, scopes },
            ),
            ..FlowsView::empty()
        },
        Oauth2GrantType::ClientCredentials => FlowsView {
            client_credentials: Some(
                ClientCredentialsFlowView { token_url, refresh_url, scopes },
            ),
            ..FlowsView::empty()
        },
        Oauth2GrantType::PasswordCredentials => FlowsView {
            password: Some(PasswordFlowView { token_url, refresh_url, scopes }),
            ..FlowsView::empty()
        },
        Oauth2GrantType::Implicit => FlowsView {
            implicit: Some(ImplicitFlowView { authorization_url, refresh_url, scopes }),
            ..FlowsView::empty()
        },
    }
}

/// The flows of OAuth 2 that the authorization allows.
pub open spec fn flows(ctx: Context, oauth2: Option<Oauth2>) -> Result<FlowsView, Fault> {
    match oauth2 {
        None => Ok(FlowsView::empty()),
        Some(oauth2) => match scopes_from(ctx, scopes_of(oauth2), 0, seq![]) {
            Err(f) => Err(f),
            Ok(scopes) => match address(ctx, oauth2.auth_url.deep_view()) {
                Err(f) => Err(f),
                Ok(authorization_url) => match address(ctx, oauth2.access_token_url.deep_view()) {
                    Err(f) => Err(f),
                    Ok(token_url) => match some_address(
                        ctx,
                        oauth2.refresh_token_url.deep_view(),
                    ) {
                        Err(f) => Err(f),
                        Ok(refresh_url) => Ok(
                            flow(
                                oauth2.grant_type,
                                scopes,
                                authorization_url,
                                token_url,
                                refresh_url,
                            ),
                        ),
                    },
                },
            },
        },
    }
}

/// The scheme for a key that a request carries.
pub open spec fn key_scheme(ctx: Context, apikey: Option<ApiKey>) -> Result<
    SecuritySchemeView,
    Fault,
> {
    match apikey {
        None => Ok(
            SecuritySchemeView::ApiKey { name: "Authorization"@, location: "header"@ },
        ),
        Some(apikey) => match resolution(
            ctx,
            match apikey.key {
                Some(key) => key@,
                None => "Authorization"@,
            },
        ) {
            Err(f) => Err(f),
            Ok(name) => Ok(
                SecuritySchemeView::ApiKey {
                    name,
                    location: match apikey.location {
                        ApiKeyLocation::Header => "header"@,
                        ApiKeyLocation::Query => "query"@,
                    },
                },
            ),
        },
    }
}

/// The scheme that the authorization follows, if it follows one.
pub open spec fn scheme(ctx: Context, auth: Auth) -> Result<Option<SecuritySchemeView>, Fault> {
    match auth.auth_type {
        AuthType::Basic => Ok(
            Some(SecuritySchemeView::Http { scheme: "basic"@, bearer_format: None }),
        ),
        AuthType::Digest => Ok(
            Some(SecuritySchemeView::Http { scheme: "digest"@, bearer_format: None }),
        ),
        AuthType::Bearer => Ok(
            Some(SecuritySchemeView::Http { scheme: "bearer"@, bearer_format: None }),
        ),
        AuthType::Jwt => Ok(
            Some(SecuritySchemeView::Http { scheme: "bearer"@, bearer_format: Some("jwt"@) }),
        ),
        AuthType::Apikey => match key_scheme(ctx, auth.apikey) {
            Err(f) => Err(f),
            Ok(own) => Ok(Some(own)),
        },
        AuthType::Oauth2 => match flows(ctx, auth.oauth2) {
            Err(f) => Err(f),
            Ok(own) => Ok(Some(SecuritySchemeView::OAuth2 { flows: own })),
        },
        _ => Ok(None),
    }
}

/// The schemes that are declared.
pub open spec fn schemes(components: Option<ComponentsView>) -> Schemes {
    match components {
        Some(ComponentsView { security_schemes: Some(schemes) }) => schemes,
        _ => seq![],
    }
}

/// The state after the authorization has been met with: its scheme is declared.
pub open spec fn with_scheme(ctx: Context, state: StateView, auth: Auth) -> Result<
    StateView,
    Fault,
> {
    match scheme(ctx, auth) {
        Err(f) => Err(f),
        Ok(own) => Ok(
            StateView {
                oas: SpecView {
                    components: Some(
                        ComponentsView {
                            security_schemes: Some(
                                match own {
                                    Some(own) => put(
                                        schemes(state.oas.components),
                                        scheme_name(auth),
                                        RefView::Object(own),
                                    ),
                                    None => schemes(state.oas.components),
                                },
                            ),
                        },
                    ),
                    ..state.oas
                },
                ..state
            },
        ),
    }
}

/// The schemes that are declared.
fn take_schemes(components: Option<Components>) -> (r: StrMap<ObjectOrReference<SecurityScheme>>)
    ensures
        r.deep_view() == schemes(components.deep_view()),
{
    match components {
        Some(components) => match components.security_schemes {
            Some(schemes) => schemes,
            None => StrMap::new(),
        },
        None => StrMap::new(),
    }
}

fn make_flow(
    grant_type: Oauth2GrantType,
    scopes: StrMap<String>,
    authorization_url: String,
    token_url: String,
    refresh_url: Option<String>,
) -> (r: Flows)
    ensures
        r.deep_view() == flow(
            grant_type,
            scopes.deep_view(),
            authorization_url@,
            token_url@,
            refresh_url.deep_view(),
        ),
{
    let mut flows: Flows = Flows::default();
    match grant_type {
        Oauth2GrantType::AuthorizationCode | Oauth2GrantType::AuthorizationCodeWithPkce => {
            flows.authorization_code = Some(
                AuthorizationCodeFlow { authorization_url, token_url, refresh_url, scopes },
            );
        },
        Oauth2GrantType::ClientCredentials => {
            flows.client_credentials = Some(
                ClientCredentialsFlow { token_url, refresh_url, scopes },
            );
        },
        Oauth2GrantType::PasswordCredentials => {
            flows.password = Some(PasswordFlow { token_url, refresh_url, scopes });
        },
        Oauth2GrantType::Implicit => {
            flows.implicit = Some(ImplicitFlow { authorization_url, refresh_url, scopes });
        },
    }
    flows
}

impl<'a> Transpiler<'a> {
    fn resolve_scopes(&self, oauth2: &Oauth2) -> (r: Result<StrMap<String>, Fault>)
        ensures
            outcome(r) == scopes_from(self.context(), scopes_of(*oauth2), 0, seq![]),
    {
        let ghost ctx = self.context();
        let mut acc: StrMap<String> = StrMap::new();
        if let Some(scopes) = &oauth2.scope {
            let ghost all = scopes_from(ctx, scopes.deep_view(), 0, seq![]);
            let mut i: usize = 0;
            while i < scopes.len()
                invariant
                    ctx == self.context(),
                    oauth2.scope == Some(*scopes),
                    i <= scopes.len(),
                    all == scopes_from(ctx, scopes.deep_view(), 0, seq![]),
                    all == scopes_from(ctx, scopes.deep_view(), i as int, acc.deep_view()),
                decreases scopes.len() - i,
            {
                match self.resolve_variables(scopes[i].as_str(), VAR_REPLACE_CREDITS) {
                    Ok(scope) => {
                        acc.insert(scope.clone(), scope);
                    },
                    Err(f) => {
                        return Err(f);
                    },
                }
                i = i + 1;
            }
        }
        Ok(acc)
    }

    fn resolve_address(&self, url: &Option<String>) -> (r: Result<String, Fault>)
        ensures
            outcome(r) == address(self.context(), url.deep_view()),
    {
        proof {
            reveal_strlit("");
            assert(""@ =~= seq![]);
        }
        match url {
            Some(url) => self.resolve_variables(url.as_str(), VAR_REPLACE_CREDITS),
            None => self.resolve_variables("", VAR_REPLACE_CREDITS),
        }
    }

    fn make_flows(&self, oauth2: &Option<Oauth2>) -> (r: Result<Flows, Fault>)
        ensures
            outcome(r) == flows(self.context(), *oauth2),
    {
        let oauth2: &Oauth2 = match oauth2 {
            Some(oauth2) => oauth2,
            None => {
                return Ok(Flows::default());
            },
        };
        let scopes: StrMap<String> = match self.resolve_scopes(oauth2) {
            Ok(scopes) => scopes,
            Err(f) => {
                return Err(f);
            },
        };
        let authorization_url: String = match self.resolve_address(&oauth2.auth_url) {
            Ok(url) => url,
            Err(f) => {
                return Err(f);
            },
        };
        let token_url: String = match self.resolve_address(&oauth2.access_token_url) {
            Ok(url) => url,
            Err(f) => {
                return Err(f);
            },
        };
        let refresh_url: Option<String> = match &oauth2.refresh_token_url {
            Some(url) => match self.resolve_variables(url.as_str(), VAR_REPLACE_CREDITS) {
                Ok(url) => Some(url),
                Err(f) => {
                    return Err(f);
                },
            },
            None => None,
        };
        Ok(make_flow(oauth2.grant_type, scopes, authorization_url, token_url, refresh_url))
    }

    fn make_key_scheme(&self, apikey: &Option<ApiKey>) -> (r: Result<SecurityScheme, Fault>)
        ensures
            outcome(r) == key_scheme(self.context(), *apikey),
    {
        match apikey {
            None => Ok(
                SecurityScheme::ApiKey {
                    name: "Authorization".to_owned(),
                    location: "header".to_owned(),
                },
            ),
            Some(apikey) => {
                let key: &str = match &apikey.key {
                    Some(key) => key.as_str(),
                    None => "Authorization",
                };
                match self.resolve_variables(key, VAR_REPLACE_CREDITS) {
                    Ok(name) => Ok(
                        SecurityScheme::ApiKey {
                            name,
                            location: match apikey.location {
                                ApiKeyLocation::Header => "header".to_owned(),
                                ApiKeyLocation::Query => "query".to_owned(),
                            },
                        },
                    ),
                    Err(f) => Err(f),
                }
            },
        }
    }

    fn make_scheme(&self, auth: &Auth) -> (r: Result<Option<SecurityScheme>, Fault>)
        ensures
            outcome(r) == scheme(self.context(), *auth),
    {
        match auth.auth_type {
            AuthType::Basic => Ok(
                Some(SecurityScheme::Http { scheme: "basic".to_owned(), bearer_format: None }),
            ),
            AuthType::Digest => Ok(
                Some(SecurityScheme::Http { scheme: "digest".to_owned(), bearer_format: None }),
            ),
            AuthType::Bearer => Ok(
                Some(SecurityScheme::Http { scheme: "bearer".to_owned(), bearer_format: None }),
            ),
            AuthType::Jwt => Ok(
                Some(
                    SecurityScheme::Http {
                        scheme: "bearer".to_owned(),
                        bearer_format: Some("jwt".to_owned()),
                    },
                ),
            ),
            AuthType::Apikey => match self.make_key_scheme(&auth.apikey) {
                Ok(own) => Ok(Some(own)),
                Err(f) => Err(f),
            },
            AuthType::Oauth2 => match self.make_flows(&auth.oauth2) {
                Ok(own) => Ok(Some(SecurityScheme::OAuth2 { flows: Box::new(own) })),
                Err(f) => Err(f),
            },
            _ => Ok(None),
        }
    }

    /// Declares the scheme that the authorization follows, and says what a
    /// request with this authorization needs.
    pub fn transform_security(&self, state: &mut TranspileState, auth: &Auth) -> (r: Result<
        Option<Option<(String, Vec<String>)>>,
        Fault,
    >)
        ensures
            match r {
                Ok(own) => own.deep_view() == need(*auth) && with_scheme(
                    self.context(),
                    old(state).deep_view(),
                    *auth,
                ) == Ok::<StateView, Fault>(final(state).deep_view()),
                Err(f) => with_scheme(self.context(), old(state).deep_view(), *auth) == Err::<
                    StateView,
                    Fault,
                >(f),
            },
    {
        let ghost before = state.deep_view();
        let own: Option<SecurityScheme> = match self.make_scheme(auth) {
            Ok(own) => own,
            Err(f) => {
                return Err(f);
            },
        };
        let needed: Option<Option<(String, Vec<String>)>> = make_need(auth);
        let mut components: Option<Components> = None;
        std::mem::swap(&mut components, &mut state.oas.components);
        let mut schemes: StrMap<ObjectOrReference<SecurityScheme>> = take_schemes(components);
        if let Some(own) = own {
            if let Some(Some((name, _))) = &needed {
                schemes.insert(name.clone(), ObjectOrReference::Object(own));
            }
        }
        state.oas.components = Some(Components { security_schemes: Some(schemes) });
        assert(state.deep_view() =~= with_scheme(self.context(), before, *auth)->Ok_0);
        Ok(needed)
    }
}

fn make_need(auth: &Auth) -> (r: Option<Option<(String, Vec<String>)>>)
    ensures
        r.deep_view() == need(*auth),
{
    let scopes: Vec<String> = match auth.auth_type {
        AuthType::Oauth2 => match &auth.oauth2 {
            Some(oauth2) => match &oauth2.scope {
                Some(scopes) => copy_texts(scopes),
                None => Vec::new(),
            },
            None => Vec::new(),
        },
        _ => Vec::new(),
    };
    assert(auth.auth_type != AuthType::Oauth2 ==> scopes.deep_view() =~= seq![]);
    assert(auth.oauth2 is None ==> scopes.deep_view() =~= seq![]);
    let name: &str = match auth.auth_type {
        AuthType::Noauth => {
            return Some(None);
        },
        AuthType::Basic => "basicAuth",
        AuthType::Digest => "digestAuth",
        AuthType::Bearer => "bearerAuth",
        AuthType::Jwt => "jwtBearerAuth",
        AuthType::Apikey => "RapidAPIKey",
        AuthType::Oauth2 => "oauth2",
        _ => {
            return None;
        },
    };
    assert(auth.auth_type == AuthType::Oauth2 ==> (auth.oauth2 matches Some(oauth2)
        ==> scopes.deep_view() =~= scopes_of(oauth2)));
    Some(Some((name.to_owned(), scopes)))
}

/// The requirement of what is needed.
pub open spec fn requirement(need: Need) -> SecurityRequirementView {
    SecurityRequirementView {
        requirement: match need {
            Some((name, scopes)) => Some(put(seq![], name, scopes)),
            None => None,
        },
    }
}

/// The requirement of what is needed.
pub fn make_requirement(need: Option<(String, Vec<String>)>) -> (r: SecurityRequirement)
    ensures
        r.deep_view() == requirement(need.deep_view()),
{
    match need {
        Some((name, scopes)) => {
            let mut requirement: StrMap<Vec<String>> = StrMap::new();
            requirement.insert(name, scopes);
            SecurityRequirement { requirement: Some(requirement) }
        },
        None => SecurityRequirement { requirement: None },
    }
}

/// The requirements, with those of `new` from `i` on that are not among them.
pub open spec fn required_from(
    security: Seq<SecurityRequirementView>,
    new: Seq<SecurityRequirementView>,
    i: int,
) -> Seq<SecurityRequirementView>
    decreases new.len() - i,
{
    if i >= new.len() {
        security
    } else if security.contains(new[i]) {
        required_from(security, new, i + 1)
    } else {
        required_from(security.push(new[i]), new, i + 1)
    }
}

/// The requirements of an operation, with those of a request.
pub open spec fn with_requirements(
    security: Option<Seq<SecurityRequirementView>>,
    new: Option<Seq<SecurityRequirementView>>,
) -> Option<Seq<SecurityRequirementView>> {
    match (security, new) {
        (Some(security), Some(new)) => Some(required_from(security, new, 0)),
        (None, new) => new,
        (security, None) => security,
    }
}

impl Clone for SecurityRequirement {
    fn clone(&self) -> (r: Self)
        ensures
            r.deep_view() == self.deep_view(),
    {
        match &self.requirement {
            Some(m) => {
                let mut out: Vec<(String, Vec<String>)> = Vec::new();
                let mut i: usize = 0;
                while i < m.entries.len()
                    invariant
                        i <= m.entries.len(),
                        out@.len() == i,
                        forall|k: int|
                            0 <= k < i ==> (#[trigger] out@[k]).deep_view()
                                == m.entries@[k].deep_view(),
                    decreases m.entries.len() - i,
                {
                    out.push((m.entries[i].0.clone(), copy_texts(&m.entries[i].1)));
                    i = i + 1;
                }
                let copy: StrMap<Vec<String>> = StrMap { entries: out };
                assert(copy.deep_view() =~= m.deep_view());
                SecurityRequirement { requirement: Some(copy) }
            },
            None => SecurityRequirement { requirement: None },
        }
    }
}

fn same_texts(a: &Vec<String>, b: &Vec<String>) -> (r: bool)
    ensures
        r == (a.deep_view() == b.deep_view()),
{
    if a.len() != b.len() {
        assert(a.deep_view().len() != b.deep_view().len());
        return false;
    }
    let mut i: usize = 0;
    while i < a.len()
        invariant
            i <= a.len() == b.len(),
            forall|k: int| 0 <= k < i ==> a.deep_view()[k] == b.deep_view()[k],
        decreases a.len() - i,
    {
        if !same(a[i].as_str(), b[i].as_str()) {
            assert(a.deep_view()[i as int] != b.deep_view()[i as int]);
            return false;
        }
        i = i + 1;
    }
    assert(a.deep_view() =~= b.deep_view());
    true
}

fn same_scopes(a: &StrMap<Vec<String>>, b: &StrMap<Vec<String>>) -> (r: bool)
    ensures
        r == (a.deep_view() == b.deep_view()),
{
    if a.entries.len() != b.entries.len() {
        assert(a.deep_view().len() != b.deep_view().len());
        return false;
    }
    let mut i: usize = 0;
    while i < a.entries.len()
        invariant
            i <= a.entries.len() == b.entries.len(),
            forall|k: int| 0 <= k < i ==> a.deep_view()[k] == b.deep_view()[k],
        decreases a.entries.len() - i,
    {
        assert(a.deep_view()[i as int] == a.entries@[i as int].deep_view());
        assert(b.deep_view()[i as int] == b.entries@[i as int].deep_view());
        if !same(a.entries[i].0.as_str(), b.entries[i].0.as_str()) || !same_texts(
            &a.entries[i].1,
            &b.entries[i].1,
        ) {
            assert(a.deep_view()[i as int] != b.deep_view()[i as int]);
            return false;
        }
        i = i + 1;
    }
    assert(a.deep_view() =~= b.deep_view());
    true
}

fn same_requirement(a: &SecurityRequirement, b: &SecurityRequirement) -> (r: bool)
    ensures
        r == (a.deep_view() == b.deep_view()),
{
    match (&a.requirement, &b.requirement) {
        (Some(a), Some(b)) => same_scopes(a, b),
        (None, None) => true,
        _ => false,
    }
}

/// Whether the requirement is one of these.
fn has_requirement(security: &Vec<SecurityRequirement>, own: &SecurityRequirement) -> (r: bool)
    ensures
        r == security.deep_view().contains(own.deep_view()),
{
    let mut i: usize = 0;
    while i < security.len()
        invariant
            i <= security.len(),
            forall|k: int| 0 <= k < i ==> security.deep_view()[k] != own.deep_view(),
        decreases security.len() - i,
    {
        assert(security.deep_view()[i as int] == security@[i as int].deep_view());
        if same_requirement(&security[i], own) {
            return true;
        }
        i = i + 1;
    }
    false
}

/// The requirements of an operation, with those of a request.
pub fn add_requirements(
    security: Option<Vec<SecurityRequirement>>,
    new: Option<Vec<SecurityRequirement>>,
) -> (r: Option<Vec<SecurityRequirement>>)
    ensures
        r.deep_view() == with_requirements(security.deep_view(), new.deep_view()),
{
    let new: Vec<SecurityRequirement> = match new {
        Some(new) => new,
        None => {
            return security;
        },
    };
    let mut security: Vec<SecurityRequirement> = match security {
        Some(security) => security,
        None => {
            return Some(new);
        },
    };
    let ghost given = new.deep_view();
    let ghost items = new@;
    let ghost all = required_from(security.deep_view(), given, 0);
    for own in it: new
        invariant
            it.seq() == items,
            items.len() == given.len(),
            forall|k: int| 0 <= k < items.len() ==> (#[trigger] items[k]).deep_view() == given[k],
            all == required_from(security.deep_view(), given, it.index()),
    {
        let ghost before = security.deep_view();
        assert(own.deep_view() == given[it.index()]);
        if !has_requirement(&security, &own) {
            security.push(own);
            assert(security.deep_view() =~= before.push(own.deep_view()));
        }
    }
    Some(security)
}

} // verus!
