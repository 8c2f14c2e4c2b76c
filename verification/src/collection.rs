//! The description of a whole collection.

use vstd::prelude::*;

use crate::context::{resolution, Context, Transpiler, VAR_REPLACE_CREDITS};
use crate::fault::{outcome, reached, Fault};
use crate::json::{Json, JsonView};
use crate::map::{put, StrMap};
use crate::notes::{
    or_empty, remove_descriptions_block, remove_headers_block, text_or_empty, without_block,
};
use crate::openapi::OpenApi;
use crate::openapi::v3_0::{
    new_paths, Info, InfoView, SecurityRequirement, SecurityRequirementView, Server, ServerView,
    Spec, SpecView,
};
use crate::operations::{path_key, segments_from, with_operation};
use crate::postman;
use crate::postman::{
    description_text, extract_description, Auth, Host, Items, PathElement, RequestClass,
    RequestUnion, Url, UrlClass, UrlPath, Variable,
};
use crate::security::{make_requirement, need, requirement, with_scheme};
use crate::state::{StateView, TranspileState};
use crate::text::{join, joined, same};

verus! {

/// The address of a server, before its variables are replaced.
pub open spec fn server_text(url: UrlClass, parts: Seq<Seq<char>>) -> Seq<char> {
    match url.protocol {
        Some(protocol) => protocol@ + "://"@ + joined(parts, "."@),
        None => joined(parts, "."@),
    }
}

/// One of the servers has the address.
pub open spec fn has_server(servers: Seq<ServerView>, url: Seq<char>) -> bool {
    exists|i: int| 0 <= i < servers.len() && (#[trigger] servers[i]).url == url
}

/// The servers, with one at the address.
pub open spec fn with_url(servers: Seq<ServerView>, url: Seq<char>) -> Seq<ServerView> {
    if has_server(servers, url) {
        servers
    } else {
        servers.push(ServerView { url, description: None })
    }
}

/// The state with the server of a request.
pub open spec fn with_server(
    ctx: Context,
    state: StateView,
    url: UrlClass,
    parts: Seq<Seq<char>>,
) -> Result<StateView, Fault> {
    match state.oas.servers {
        None => Ok(state),
        Some(servers) => match resolution(ctx, server_text(url, parts)) {
            Err(f) => Err(f),
            Ok(text) => Ok(
                StateView {
                    oas: SpecView { servers: Some(with_url(servers, text)), ..state.oas },
                    ..state
                },
            ),
        },
    }
}

/// The state with the server of a request, where its host stands in parts.
pub open spec fn with_host(ctx: Context, state: StateView, url: UrlClass) -> Result<
    StateView,
    Fault,
> {
    match url.host {
        Some(Host::StringArray(parts)) => with_server(ctx, state, url, parts.deep_view()),
        _ => Ok(state),
    }
}

/// The state after the authorization of a request, and what the request
/// requires: what its own authorization says, or else the innermost folder.
pub open spec fn with_auth(ctx: Context, state: StateView, auth: Option<Auth>) -> Result<
    (StateView, Option<Seq<SecurityRequirementView>>),
    Fault,
> {
    match auth {
        Some(auth) => match with_scheme(ctx, state, auth) {
            Err(f) => Err(f),
            Ok(state) => Ok(
                (
                    state,
                    match need(auth) {
                        Some(need) => Some(seq![requirement(need)]),
                        None => None,
                    },
                ),
            ),
        },
        None => Ok(
            (
                state,
                if state.auth_stack.len() > 0 {
                    Some(seq![state.auth_stack.last()])
                } else {
                    None
                },
            ),
        ),
    }
}

/// The segments of the path of an address; none where it stands as plain text.
pub open spec fn path_of(url: UrlClass) -> Seq<PathElement> {
    match url.path {
        Some(UrlPath::UnionArray(path)) => path@,
        _ => seq![],
    }
}

/// The state after a request to the address.
pub open spec fn with_call(
    ctx: Context,
    state: StateView,
    item: Items,
    request: RequestClass,
    name: Seq<char>,
    url: UrlClass,
) -> Result<StateView, Fault> {
    match with_host(ctx, state, url) {
        Err(f) => Err(f),
        Ok(state) => match with_auth(ctx, state, request.auth) {
            Err(f) => Err(f),
            Ok((state, security)) => with_operation(
                ctx,
                state,
                item,
                request,
                name,
                url,
                path_of(url),
                security,
            ),
        },
    }
}

/// The state after a request. One whose address does not stand in parts is
/// passed over.
pub open spec fn with_item(
    ctx: Context,
    state: StateView,
    item: Items,
    name: Seq<char>,
) -> Result<StateView, Fault> {
    match item.request {
        Some(RequestUnion::RequestClass(request)) => match request.url {
            Some(Url::UrlClass(url)) => with_call(ctx, state, item, request, name, url),
            _ => Ok(state),
        },
        _ => Ok(state),
    }
}

/// The name of a request.
pub open spec fn request_name(item: Items) -> Seq<char> {
    match item.name {
        Some(name) => name@,
        None => "<request>"@,
    }
}

/// The state inside a folder with this authorization.
pub open spec fn entered(ctx: Context, state: StateView, auth: Option<Auth>) -> Result<
    StateView,
    Fault,
> {
    match auth {
        None => Ok(state),
        Some(auth) => match with_scheme(ctx, state, auth) {
            Err(f) => Err(f),
            Ok(state) => Ok(
                match need(auth) {
                    Some(need) => StateView {
                        auth_stack: state.auth_stack.push(requirement(need)),
                        ..state
                    },
                    None => state,
                },
            ),
        },
    }
}

/// The state outside of a folder with this authorization, from that inside.
pub open spec fn left(state: StateView, auth: Option<Auth>) -> StateView {
    match auth {
        Some(auth) if need(auth) is Some && state.auth_stack.len() > 0 => StateView {
            auth_stack: state.auth_stack.drop_last(),
            ..state
        },
        _ => state,
    }
}

/// The state after the items from `i` on.
pub open spec fn with_items(ctx: Context, state: StateView, items: Seq<Items>, i: int) -> Result<
    StateView,
    Fault,
>
    decreases items, items.len() - i,
{
    if i < 0 || i >= items.len() {
        Ok(state)
    } else {
        match items[i].item {
            None => match with_item(ctx, state, items[i], request_name(items[i])) {
                Err(f) => Err(f),
                Ok(state) => with_items(ctx, state, items, i + 1),
            },
            Some(children) => match with_folder(ctx, state, children@, items[i].auth) {
                Err(f) => Err(f),
                Ok(state) => with_items(ctx, state, items, i + 1),
            },
        }
    }
}

/// The state after a folder with these items and this authorization.
pub open spec fn with_folder(
    ctx: Context,
    state: StateView,
    items: Seq<Items>,
    auth: Option<Auth>,
) -> Result<StateView, Fault>
    decreases items, items.len() + 1,
{
    match entered(ctx, state, auth) {
        Err(f) => Err(f),
        Ok(state) => match with_items(ctx, state, items, 0) {
            Err(f) => Err(f),
            Ok(state) => Ok(left(state, auth)),
        },
    }
}

/// The variables from `i` on that have a name and a value, added to `acc`. An
/// empty text is no value.
pub open spec fn variables_from(
    variables: Seq<Variable>,
    i: int,
    acc: Seq<(Seq<char>, JsonView)>,
) -> Seq<(Seq<char>, JsonView)>
    decreases variables.len() - i,
{
    if i >= variables.len() {
        acc
    } else {
        variables_from(
            variables,
            i + 1,
            match (variables[i].key, variables[i].value) {
                (Some(key), Some(value)) if value.deep_view() != JsonView::String(seq![]) => put(
                    acc,
                    key@,
                    value.deep_view(),
                ),
                _ => acc,
            },
        )
    }
}

/// What the parts of the collection are read against.
pub open spec fn collection_context(spec: postman::Spec) -> Context {
    Context {
        variables: match spec.variable {
            Some(variables) => variables_from(variables@, 0, seq![]),
            None => seq![],
        },
        description: or_empty(description_text(spec.info.description)),
        operation: None,
    }
}

fn has_url(servers: &Vec<Server>, url: &str) -> (r: bool)
    ensures
        r == has_server(servers.deep_view(), url@),
{
    let mut i: usize = 0;
    while i < servers.len()
        invariant
            i <= servers.len(),
            forall|k: int| 0 <= k < i ==> (#[trigger] servers.deep_view()[k]).url != url@,
        decreases servers.len() - i,
    {
        assert(servers.deep_view()[i as int] == servers@[i as int].deep_view());
        if same(servers[i].url.as_str(), url) {
            return true;
        }
        i = i + 1;
    }
    false
}

impl<'a> Transpiler<'a> {
    /// Adds the server of a request, if it is not there yet.
    pub fn transform_server(
        &self,
        state: &mut TranspileState,
        url: &UrlClass,
        parts: &Vec<String>,
    ) -> (r: Result<(), Fault>)
        ensures
            reached(r, final(state).deep_view()) == with_server(
                self.context(),
                old(state).deep_view(),
                *url,
                parts.deep_view(),
            ),
    {
        let ghost before = state.deep_view();
        let host: String = join(parts, ".");
        let text: String = match &url.protocol {
            Some(protocol) => {
                let mut text: String = protocol.clone();
                text.append("://");
                text.append(host.as_str());
                text
            },
            None => host,
        };
        let mut servers: Option<Vec<Server>> = None;
        std::mem::swap(&mut servers, &mut state.oas.servers);
        if let Some(servers) = servers {
            let mut servers: Vec<Server> = servers;
            let ghost given = servers.deep_view();
            match self.resolve_variables(text.as_str(), VAR_REPLACE_CREDITS) {
                Ok(url) => {
                    if !has_url(&servers, url.as_str()) {
                        let server: Server = Server { url, description: None };
                        servers.push(server);
                        assert(servers.deep_view() =~= given.push(server.deep_view()));
                    }
                },
                Err(f) => {
                    return Err(f);
                },
            }
            state.oas.servers = Some(servers);
        }
        Ok(())
    }

    fn request_security(&self, state: &mut TranspileState, auth: &Option<Auth>) -> (r: Result<
        Option<Vec<SecurityRequirement>>,
        Fault,
    >)
        ensures
            match r {
                Ok(security) => with_auth(self.context(), old(state).deep_view(), *auth)
                    == Ok::<_, Fault>((final(state).deep_view(), security.deep_view())),
                Err(f) => with_auth(self.context(), old(state).deep_view(), *auth) == Err::<
                    (StateView, Option<Seq<SecurityRequirementView>>),
                    Fault,
                >(f),
            },
    {
        if let Some(auth) = auth {
            match self.transform_security(state, auth) {
                Ok(Some(need)) => {
                    let security: Vec<SecurityRequirement> = vec![make_requirement(need)];
                    assert(security.deep_view() =~= seq![requirement(need.deep_view())]);
                    Ok(Some(security))
                },
                Ok(None) => Ok(None),
                Err(f) => Err(f),
            }
        } else if state.auth_stack.len() > 0 {
            let last: SecurityRequirement = state.auth_stack[state.auth_stack.len() - 1].clone();
            let security: Vec<SecurityRequirement> = vec![last];
            assert(security.deep_view() =~= seq![state.auth_stack.deep_view().last()]);
            Ok(Some(security))
        } else {
            Ok(None)
        }
    }

    /// Describes a request.
    pub fn transform_request(&self, state: &mut TranspileState, item: &Items, name: &str) -> (r:
        Result<(), Fault>)
        ensures
            reached(r, final(state).deep_view()) == with_item(
                self.context(),
                old(state).deep_view(),
                *item,
                name@,
            ),
    {
        if let Some(RequestUnion::RequestClass(request)) = &item.request {
            if let Some(Url::UrlClass(url)) = &request.url {
                if let Some(Host::StringArray(parts)) = &url.host {
                    if let Err(f) = self.transform_server(state, url, parts) {
                        return Err(f);
                    }
                }
                let root: Vec<PathElement> = Vec::new();
                let paths: &Vec<PathElement> = match &url.path {
                    Some(UrlPath::UnionArray(paths)) => paths,
                    _ => &root,
                };
                let security: Option<Vec<SecurityRequirement>> = match self.request_security(
                    state,
                    &request.auth,
                ) {
                    Ok(security) => security,
                    Err(f) => {
                        return Err(f);
                    },
                };
                if let Err(Fault::Segment) = self.resolve_segments(paths) {
                    return Err(Fault::Segment);
                }
                return self.transform_paths(state, item, request, name, url, paths, security);
            }
        }
        Ok(())
    }

    /// Describes the items of a folder, under its authorization.
    pub fn transform_folder(
        &self,
        state: &mut TranspileState,
        items: &Vec<Items>,
        auth: &Option<Auth>,
    ) -> (r: Result<(), Fault>)
        ensures
            reached(r, final(state).deep_view()) == with_folder(
                self.context(),
                old(state).deep_view(),
                items@,
                *auth,
            ),
        decreases items, 1int,
    {
        let mut pushed: bool = false;
        if let Some(auth) = auth {
            match self.transform_security(state, auth) {
                Ok(Some(need)) => {
                    let ghost stack = state.auth_stack.deep_view();
                    state.auth_stack.push(make_requirement(need));
                    assert(state.auth_stack.deep_view() =~= stack.push(
                        requirement(need.deep_view()),
                    ));
                    pushed = true;
                },
                Ok(None) => {},
                Err(f) => {
                    return Err(f);
                },
            }
        }
        if let Err(f) = self.transform(state, items) {
            return Err(f);
        }
        if pushed {
            let ghost stack = state.auth_stack.deep_view();
            let _ = state.auth_stack.pop();
            assert(stack.len() > 0 ==> state.auth_stack.deep_view() =~= stack.drop_last());
            assert(stack.len() == 0 ==> state.auth_stack.deep_view() =~= stack);
        }
        Ok(())
    }

    /// Describes the items, one after the other.
    pub fn transform(&self, state: &mut TranspileState, items: &Vec<Items>) -> (r: Result<
        (),
        Fault,
    >)
        ensures
            reached(r, final(state).deep_view()) == with_items(
                self.context(),
                old(state).deep_view(),
                items@,
                0,
            ),
        decreases items, 0int,
    {
        let ghost ctx = self.context();
        let ghost all = with_items(ctx, state.deep_view(), items@, 0);
        let mut i: usize = 0;
        while i < items.len()
            invariant
                ctx == self.context(),
                i <= items.len(),
                all == with_items(ctx, old(state).deep_view(), items@, 0),
                all == with_items(ctx, state.deep_view(), items@, i as int),
            decreases items.len() - i,
        {
            let item: &Items = &items[i];
            let done: Result<(), Fault> = if let Some(children) = &item.item {
                assert(decreases_to!(items@ => items@[i as int]));
                assert(decreases_to!(items => children));
                self.transform_folder(state, children, &item.auth)
            } else {
                let name: &str = match &item.name {
                    Some(name) => name.as_str(),
                    None => "<request>",
                };
                self.transform_request(state, item, name)
            };
            if let Err(f) = done {
                return Err(f);
            }
            i = i + 1;
        }
        Ok(())
    }
}

/// The account of the interface: that of the collection, without the blocks
/// that speak of its parts.
pub open spec fn summary_of(description: Seq<char>) -> Seq<char> {
    without_block(
        without_block(description, "\\[descriptions\\]"@, "\\[/descriptions\\]"@),
        "\\[headers\\]"@,
        "\\[/headers\\]"@,
    )
}

/// The state before the first item.
pub open spec fn start(info: postman::Information) -> StateView {
    StateView {
        oas: SpecView {
            openapi: "3.0.3"@,
            info: InfoView {
                title: info.name@,
                description: Some(summary_of(or_empty(description_text(info.description)))),
                terms_of_service: Some("https://www.openwebninja.com/terms"@),
                version: "1.0.0"@,
            },
            servers: Some(seq![]),
            paths: seq![],
            components: None,
            security: Some(seq![]),
        },
        operation_ids: seq![],
        auth_stack: seq![],
        hierarchy: seq![],
    }
}

/// The state with what all requests of the collection require.
pub open spec fn with_root(ctx: Context, state: StateView, auth: Option<Auth>) -> Result<
    StateView,
    Fault,
> {
    match auth {
        None => Ok(state),
        Some(auth) => match with_scheme(ctx, state, auth) {
            Err(f) => Err(f),
            Ok(state) => Ok(
                match need(auth) {
                    Some(need) => StateView {
                        oas: SpecView { security: Some(seq![requirement(need)]), ..state.oas },
                        ..state
                    },
                    None => state,
                },
            ),
        },
    }
}

/// The state after all items of the collection.
pub open spec fn finish(spec: postman::Spec) -> Result<StateView, Fault> {
    let ctx = collection_context(spec);
    match with_root(ctx, start(spec.info), spec.auth) {
        Err(f) => Err(f),
        Ok(state) => with_items(ctx, state, spec.item@, 0),
    }
}

/// The description of the collection.
pub open spec fn transpiled(spec: postman::Spec) -> Result<SpecView, Fault> {
    match finish(spec) {
        Err(f) => Err(f),
        Ok(state) => Ok(state.oas),
    }
}

/// The path of a request, as a key of the description: none where the request
/// is passed over.
pub open spec fn request_path(ctx: Context, item: Items) -> Option<Seq<char>> {
    match item.request {
        Some(RequestUnion::RequestClass(request)) => match request.url {
            Some(Url::UrlClass(url)) => match segments_from(ctx, path_of(url), 0, seq![]) {
                Ok(segments) => Some(path_key(segments)),
                Err(_) => None,
            },
            _ => None,
        },
        _ => None,
    }
}

/// The paths of the requests among the items from `i` on, one after the other,
/// those in a folder at the place of the folder.
pub open spec fn request_paths(ctx: Context, items: Seq<Items>, i: int) -> Seq<Seq<char>>
    decreases items, items.len() - i,
{
    if i < 0 || i >= items.len() {
        seq![]
    } else {
        let own = match items[i].item {
            None => match request_path(ctx, items[i]) {
                Some(path) => seq![path],
                None => seq![],
            },
            Some(children) => request_paths(ctx, children@, 0),
        };
        own + request_paths(ctx, items, i + 1)
    }
}

fn collect_variables(variables: &Option<Vec<Variable>>) -> (r: StrMap<Json>)
    ensures
        r.deep_view() == match *variables {
            Some(variables) => variables_from(variables@, 0, seq![]),
            None => seq![],
        },
{
    let mut acc: StrMap<Json> = StrMap::new();
    if let Some(list) = variables {
        let ghost all = variables_from(list@, 0, seq![]);
        let mut i: usize = 0;
        while i < list.len()
            invariant
                i <= list.len(),
                all == variables_from(list@, i as int, acc.deep_view()),
            decreases list.len() - i,
        {
            if let Some(key) = &list[i].key {
                if let Some(value) = &list[i].value {
                    let blank: bool = match value {
                        Json::String(text) => {
                            assert(text@.len() == 0 ==> text@ =~= seq![]);
                            text.as_str().unicode_len() == 0
                        },
                        _ => false,
                    };
                    if !blank {
                        acc.insert(key.clone(), value.clone());
                    }
                }
            }
            i = i + 1;
        }
    }
    acc
}

fn first_state(name: String, description: &str) -> (r: TranspileState)
    ensures
        forall|info: postman::Information|
            info.name@ == name@ && or_empty(description_text(info.description)) == description@
                ==> r.deep_view() == #[trigger] start(info),
{
    let account: String = remove_headers_block(remove_descriptions_block(description).as_str());
    let state: TranspileState = TranspileState {
        oas: Spec {
            openapi: "3.0.3".to_owned(),
            info: Info {
                title: name,
                description: Some(account),
                terms_of_service: Some("https://www.openwebninja.com/terms".to_owned()),
                version: "1.0.0".to_owned(),
            },
            servers: Some(Vec::new()),
            paths: new_paths(),
            components: None,
            security: Some(Vec::new()),
        },
        operation_ids: StrMap::new(),
        auth_stack: Vec::new(),
        hierarchy: Vec::new(),
    };
    proof {
        let view = state.deep_view();
        assert(view.oas.servers->0 =~= seq![]);
        assert(view.oas.security->0 =~= seq![]);
        assert(view.oas.paths =~= seq![]);
        assert(view.auth_stack =~= seq![]);
        assert(view.hierarchy =~= seq![]);
    }
    state
}

fn run(spec: &postman::Spec) -> (r: Result<TranspileState, Fault>)
    ensures
        outcome(r) == finish(*spec),
{
    let description: Option<String> = extract_description(&spec.info.description);
    let variable_map: StrMap<Json> = collect_variables(&spec.variable);
    let transpiler: Transpiler = Transpiler {
        variable_map: &variable_map,
        info_description: text_or_empty(&description),
        cur_op_id: Vec::new(),
    };
    assert(transpiler.context() == collection_context(*spec));
    let mut state: TranspileState = first_state(
        spec.info.name.clone(),
        text_or_empty(&description),
    );
    assert(state.deep_view() == start(spec.info));
    if let Some(auth) = &spec.auth {
        match transpiler.transform_security(&mut state, auth) {
            Ok(Some(need)) => {
                let security: Vec<SecurityRequirement> = vec![make_requirement(need)];
                assert(security.deep_view() =~= seq![requirement(need.deep_view())]);
                state.oas.security = Some(security);
            },
            Ok(None) => {},
            Err(f) => {
                return Err(f);
            },
        }
    }
    match transpiler.transform(&mut state, &spec.item) {
        Ok(_) => Ok(state),
        Err(f) => Err(f),
    }
}

impl<'a> Transpiler<'a> {
    /// Whether the collection can be described, as `transpile` requires.
    pub fn can_transpile(spec: &postman::Spec) -> (r: bool)
        ensures
            r == (transpiled(*spec) is Ok),
    {
        run(spec).is_ok()
    }

    /// The description of the collection.
    pub fn transpile(spec: postman::Spec) -> (r: OpenApi)
        requires
            transpiled(spec) is Ok,
        ensures
            Ok::<SpecView, Fault>(r.deep_view()) == transpiled(spec),
    {
        match Self::try_transpile(spec) {
            Ok(api) => api,
            Err(_) => vstd::pervasive::unreached(),
        }
    }

    /// The description of the collection, or why there is none.
    pub fn try_transpile(spec: postman::Spec) -> (r: Result<OpenApi, Fault>)
        ensures
            outcome(r) == transpiled(spec),
    {
        match run(&spec) {
            Ok(state) => Ok(OpenApi::V3_0(Box::new(state.oas))),
            Err(f) => Err(f),
        }
    }
}

} // verus!
