//! The operations that requests describe, and their places on the paths.

use vstd::prelude::*;

use crate::body::with_body;
use crate::casing::{identifier, lowercase, to_identifier, to_lowercase};
use crate::context::{resolved_segment, Context, Transpiler, VAR_REPLACE_CREDITS};
use crate::fault::{outcome, reached, Fault};
use crate::map::{key_at, lemma_key_at, lookup, put, put_at, StrMap};
use crate::number::{decimal, to_decimal};
use crate::openapi::v3_0::{
    has_path, insert_path, lemma_paths_view, path_entries, path_mut, paths_view, ObjectOrReference,
    Operation, OperationView, Parameter, PathItem, PathItemView, SecurityRequirement,
    SecurityRequirementView, SpecView,
};
use crate::parameters::{
    add_query, path_parameters, query_parameters, request_headers, with_query, Parameters,
};
use crate::postman::{
    description_text, extract_description, Items, PathElement, RequestClass, UrlClass,
};
use crate::responses::with_responses;
use crate::security::{add_requirements, with_requirements};
use crate::state::{StateView, TranspileState};
use crate::text::{copy_texts, join, joined, same};

verus! {

/// The text of a segment.
pub open spec fn segment_text(segment: PathElement) -> Seq<char> {
    match segment {
        PathElement::PathClass(class) => match class.value {
            Some(value) => value@,
            None => seq![],
        },
        PathElement::String(text) => text@,
    }
}

/// The segment as it stands in a path template: one that begins with a colon
/// becomes a place.
pub open spec fn templated(segment: Seq<char>) -> Result<Seq<char>, Fault> {
    if segment.len() == 0 {
        Ok(segment)
    } else if segment[0] > '\u{7f}' {
        Err(Fault::Segment)
    } else if segment[0] == ':' {
        Ok(seq!['{'] + segment.skip(1) + seq!['}'])
    } else {
        Ok(segment)
    }
}

/// The segments from `i` on as they stand in the path template, added to `acc`.
pub open spec fn segments_from(
    ctx: Context,
    path: Seq<PathElement>,
    i: int,
    acc: Seq<Seq<char>>,
) -> Result<Seq<Seq<char>>, Fault>
    decreases path.len() - i,
{
    if i >= path.len() {
        Ok(acc)
    } else {
        match resolved_segment(ctx.variables, segment_text(path[i]), VAR_REPLACE_CREDITS as nat) {
            Err(f) => Err(f),
            Ok(text) => match templated(text) {
                Err(f) => Err(f),
                Ok(segment) => segments_from(ctx, path, i + 1, acc.push(segment)),
            },
        }
    }
}

/// The path template of these segments.
pub open spec fn path_key(segments: Seq<Seq<char>>) -> Seq<char> {
    "/"@ + joined(segments, "/"@)
}

/// The operation of the method. A method that has no place of its own is
/// taken for `get`.
pub open spec fn slot(item: PathItemView, method: Seq<char>) -> Option<OperationView> {
    if method == "post"@ {
        item.post
    } else if method == "put"@ {
        item.put
    } else if method == "delete"@ {
        item.delete
    } else if method == "patch"@ {
        item.patch
    } else if method == "options"@ {
        item.options
    } else if method == "trace"@ {
        item.trace
    } else {
        item.get
    }
}

/// The path with the operation of the method.
pub open spec fn with_slot(
    item: PathItemView,
    method: Seq<char>,
    op: Option<OperationView>,
) -> PathItemView {
    if method == "post"@ {
        PathItemView { post: op, ..item }
    } else if method == "put"@ {
        PathItemView { put: op, ..item }
    } else if method == "delete"@ {
        PathItemView { delete: op, ..item }
    } else if method == "patch"@ {
        PathItemView { patch: op, ..item }
    } else if method == "options"@ {
        PathItemView { options: op, ..item }
    } else if method == "trace"@ {
        PathItemView { trace: op, ..item }
    } else {
        PathItemView { get: op, ..item }
    }
}

/// The place of the operation of the method.
pub fn slot_mut<'m>(item: &'m mut PathItem, method: &str) -> (r: &'m mut Option<Operation>)
    ensures
        (*r).deep_view() == slot(old(item).deep_view(), method@),
        final(item).deep_view() == with_slot(
            old(item).deep_view(),
            method@,
            (*final(r)).deep_view(),
        ),
{
    if same(method, "post") {
        &mut item.post
    } else if same(method, "put") {
        &mut item.put
    } else if same(method, "delete") {
        &mut item.delete
    } else if same(method, "patch") {
        &mut item.patch
    } else if same(method, "options") {
        &mut item.options
    } else if same(method, "trace") {
        &mut item.trace
    } else {
        &mut item.get
    }
}

/// The method of a request, in small letters.
pub open spec fn method_of(request: RequestClass) -> Seq<char> {
    match request.method {
        Some(method) => lowercase(method@),
        None => "get"@,
    }
}

/// The counts, and the identifier of a new operation of that name. One that
/// comes again gets its count as a suffix.
pub open spec fn new_id(ids: Seq<(Seq<char>, usize)>, name: Seq<char>) -> Result<
    (Seq<(Seq<char>, usize)>, Seq<char>),
    Fault,
> {
    let id = identifier(name);
    match lookup(ids, id) {
        None => Ok((put(ids, id, 0), id)),
        Some(n) => if n == usize::MAX {
            Err(Fault::Count)
        } else {
            Ok((put_at(ids, id, (n + 1) as usize), id + decimal((n + 1) as nat)))
        },
    }
}

/// The identifier of a new operation of that name.
pub fn next_id(ids: &mut StrMap<usize>, name: &str) -> (r: Result<String, Fault>)
    ensures
        match r {
            Ok(id) => new_id(old(ids).deep_view(), name@) == Ok::<_, Fault>(
                (final(ids).deep_view(), id@),
            ),
            Err(f) => new_id(old(ids).deep_view(), name@) == Err::<
                (Seq<(Seq<char>, usize)>, Seq<char>),
                Fault,
            >(f),
        },
{
    let mut id: String = to_identifier(name);
    if let Some(n) = ids.get_mut(id.as_str()) {
        if *n == usize::MAX {
            return Err(Fault::Count);
        }
        *n = *n + 1;
        id.append(to_decimal(*n as u64).as_str());
        Ok(id)
    } else {
        ids.insert(id.clone(), 0);
        Ok(id)
    }
}

/// The parameters of the query of an address.
pub open spec fn url_query(ctx: Context, url: UrlClass) -> Result<Option<Parameters>, Fault> {
    match url.query {
        Some(query) => query_parameters(ctx, query@),
        None => Ok(None),
    }
}

/// The account of an operation: that of its request, or its name.
pub open spec fn account(request: RequestClass, name: Seq<char>) -> Seq<char> {
    match description_text(request.description) {
        Some(text) => text,
        None => name,
    }
}

/// The operation with what the request says. `first` says that the request is
/// the first one for this operation, and `tags` are the groups it belongs to.
pub open spec fn with_request(
    ctx: Context,
    op: OperationView,
    item: Items,
    request: RequestClass,
    name: Seq<char>,
    url: UrlClass,
    first: bool,
    tags: Seq<Seq<char>>,
) -> Result<OperationView, Fault> {
    match url_query(ctx, url) {
        Err(f) => Err(f),
        Ok(query) => match request_headers(
            ctx,
            request.header,
            with_query(op.parameters, query),
        ) {
            Err(f) => Err(f),
            Ok((parameters, content_type)) => {
                let op = OperationView { parameters, ..op };
                match match request.body {
                    Some(body) => with_body(ctx, op, body, name, content_type),
                    None => Ok(op),
                } {
                    Err(f) => Err(f),
                    Ok(op) => with_responses(
                        ctx,
                        OperationView {
                            summary: if first {
                                Some(name)
                            } else {
                                op.summary
                            },
                            description: if first {
                                Some(account(request, name))
                            } else {
                                op.description
                            },
                            tags: if tags.len() > 0 {
                                Some(tags)
                            } else {
                                op.tags
                            },
                            ..op
                        },
                        name,
                        item.response,
                    ),
                }
            },
        },
    }
}

/// The counts, and the identifier that a request gives to its operation: only
/// the first request for an operation gives one.
pub open spec fn request_id(
    ids: Seq<(Seq<char>, usize)>,
    name: Seq<char>,
    first: bool,
) -> Result<(Seq<(Seq<char>, usize)>, Option<Seq<char>>), Fault> {
    if first {
        match new_id(ids, name) {
            Err(f) => Err(f),
            Ok((ids, id)) => Ok((ids, Some(id))),
        }
    } else {
        Ok((ids, None))
    }
}

/// The path and the counts of identifiers, after a request on the path.
pub open spec fn on_path(
    ctx: Context,
    path: PathItemView,
    ids: Seq<(Seq<char>, usize)>,
    tags: Seq<Seq<char>>,
    item: Items,
    request: RequestClass,
    name: Seq<char>,
    url: UrlClass,
    security: Option<Seq<SecurityRequirementView>>,
) -> Result<(PathItemView, Seq<(Seq<char>, usize)>), Fault> {
    let given = slot(path, method_of(request));
    let op = match given {
        Some(op) => op,
        None => OperationView::empty(),
    };
    match request_id(ids, name, given is None) {
        Err(f) => Err(f),
        Ok((ids, id)) => match with_request(
            Context { operation: id, ..ctx },
            OperationView {
                security: with_requirements(op.security, security),
                operation_id: if given is None {
                    id
                } else {
                    op.operation_id
                },
                ..op
            },
            item,
            request,
            name,
            url,
            given is None,
            tags,
        ) {
            Err(f) => Err(f),
            Ok(op) => Ok((with_slot(path, method_of(request), Some(op)), ids)),
        },
    }
}

/// The paths with what there is on one of them. A path that is there keeps
/// its place; a new one comes last.
pub open spec fn with_path(
    paths: Seq<(Seq<char>, PathItemView)>,
    key: Seq<char>,
    item: PathItemView,
) -> Seq<(Seq<char>, PathItemView)> {
    match key_at(paths, key) {
        Some(i) => paths.update(i, (key, item)),
        None => paths.push((key, item)),
    }
}

/// What there is on the path.
pub open spec fn path_at(paths: Seq<(Seq<char>, PathItemView)>, key: Seq<char>) -> PathItemView {
    match lookup(paths, key) {
        Some(item) => item,
        None => PathItemView::empty(),
    }
}

/// The state after a request on the path with these segments.
pub open spec fn on_segments(
    ctx: Context,
    state: StateView,
    segments: Seq<Seq<char>>,
    item: Items,
    request: RequestClass,
    name: Seq<char>,
    url: UrlClass,
    security: Option<Seq<SecurityRequirementView>>,
) -> Result<StateView, Fault> {
    let key = path_key(segments);
    match path_parameters(ctx, segments, url.variable) {
        Err(f) => Err(f),
        Ok(parameters) => match on_path(
            ctx,
            PathItemView { parameters, ..path_at(state.oas.paths, key) },
            state.operation_ids,
            state.hierarchy,
            item,
            request,
            name,
            url,
            security,
        ) {
            Err(f) => Err(f),
            Ok((path, operation_ids)) => Ok(
                StateView {
                    oas: SpecView { paths: with_path(state.oas.paths, key, path), ..state.oas },
                    operation_ids,
                    ..state
                },
            ),
        },
    }
}

/// The state after a request on the path.
pub open spec fn with_operation(
    ctx: Context,
    state: StateView,
    item: Items,
    request: RequestClass,
    name: Seq<char>,
    url: UrlClass,
    path: Seq<PathElement>,
    security: Option<Seq<SecurityRequirementView>>,
) -> Result<StateView, Fault> {
    match segments_from(ctx, path, 0, seq![]) {
        Err(f) => Err(f),
        Ok(segments) => on_segments(ctx, state, segments, item, request, name, url, security),
    }
}

/// The segment as it stands in a path template.
pub fn template(segment: String) -> (r: Result<String, Fault>)
    ensures
        outcome(r) == templated(segment@),
{
    let n: usize = segment.as_str().unicode_len();
    if n == 0 {
        return Ok(segment);
    }
    let c: char = segment.as_str().get_char(0);
    if c > '\u{7f}' {
        Err(Fault::Segment)
    } else if c == ':' {
        proof {
            reveal_strlit("{");
            reveal_strlit("}");
            assert("{"@ =~= seq!['{']);
            assert("}"@ =~= seq!['}']);
            assert(segment@.subrange(1, n as int) =~= segment@.skip(1));
        }
        let mut out: String = "{".to_owned();
        out.append(segment.as_str().substring_char(1, n));
        out.append("}");
        Ok(out)
    } else {
        Ok(segment)
    }
}

impl<'a> Transpiler<'a> {
    /// The segments of a path as they stand in the path template.
    pub fn resolve_segments(&self, path: &Vec<PathElement>) -> (r: Result<Vec<String>, Fault>)
        ensures
            outcome(r) == segments_from(self.context(), path@, 0, seq![]),
    {
        let ghost ctx = self.context();
        let mut acc: Vec<String> = Vec::new();
        assert(acc.deep_view() =~= seq![]);
        let ghost all = segments_from(ctx, path@, 0, seq![]);
        let mut i: usize = 0;
        while i < path.len()
            invariant
                ctx == self.context(),
                i <= path.len(),
                all == segments_from(ctx, path@, 0, seq![]),
                all == segments_from(ctx, path@, i as int, acc.deep_view()),
            decreases path.len() - i,
        {
            proof {
                reveal_strlit("");
                assert(""@ =~= seq![]);
            }
            let text: &str = match &path[i] {
                PathElement::PathClass(class) => match &class.value {
                    Some(value) => value.as_str(),
                    None => "",
                },
                PathElement::String(text) => text.as_str(),
            };
            let text: String = match self.resolve_segment(text, VAR_REPLACE_CREDITS) {
                Ok(text) => text,
                Err(f) => {
                    return Err(f);
                },
            };
            let segment: String = match template(text) {
                Ok(segment) => segment,
                Err(f) => {
                    return Err(f);
                },
            };
            let ghost before = acc.deep_view();
            acc.push(segment);
            assert(acc.deep_view() =~= before.push(segment@));
            i = i + 1;
        }
        Ok(acc)
    }

    fn add_request(
        &self,
        op: &mut Operation,
        item: &Items,
        request: &RequestClass,
        name: &str,
        url: &UrlClass,
        first: bool,
        tags: &Vec<String>,
    ) -> (r: Result<(), Fault>)
        ensures
            reached(r, final(op).deep_view()) == with_request(
                self.context(),
                old(op).deep_view(),
                *item,
                *request,
                name@,
                *url,
                first,
                tags.deep_view(),
            ),
    {
        let query: Option<Vec<ObjectOrReference<Parameter>>> = match &url.query {
            Some(query) => match self.generate_query_parameters(query) {
                Ok(query) => query,
                Err(f) => {
                    return Err(f);
                },
            },
            None => None,
        };
        let mut params: Option<Vec<ObjectOrReference<Parameter>>> = None;
        std::mem::swap(&mut params, &mut op.parameters);
        let content_type: Option<String> = match self.add_headers(
            &request.header,
            add_query(params, query),
        ) {
            Ok((params, content_type)) => {
                op.parameters = params;
                content_type
            },
            Err(f) => {
                return Err(f);
            },
        };
        if let Some(body) = &request.body {
            if let Err(f) = self.extract_request_body(body, op, name, content_type) {
                return Err(f);
            }
        }
        if first {
            op.summary = Some(name.to_owned());
            op.description = match extract_description(&request.description) {
                Some(text) => Some(text),
                None => Some(name.to_owned()),
            };
        }
        if tags.len() > 0 {
            op.tags = Some(copy_texts(tags));
        }
        self.add_responses(op, name, &item.response)
    }

    fn add_to_path(
        &self,
        path: &mut PathItem,
        ids: &mut StrMap<usize>,
        tags: &Vec<String>,
        item: &Items,
        request: &RequestClass,
        name: &str,
        url: &UrlClass,
        security: Option<Vec<SecurityRequirement>>,
    ) -> (r: Result<(), Fault>)
        ensures
            reached(r, (final(path).deep_view(), final(ids).deep_view())) == on_path(
                self.context(),
                old(path).deep_view(),
                old(ids).deep_view(),
                tags.deep_view(),
                *item,
                *request,
                name@,
                *url,
                security.deep_view(),
            ),
    {
        let method: String = match &request.method {
            Some(method) => to_lowercase(method.as_str()),
            None => "get".to_owned(),
        };
        let place: &mut Option<Operation> = slot_mut(path, method.as_str());
        let mut given: Option<Operation> = None;
        std::mem::swap(&mut given, place);
        let first: bool = given.is_none();
        let mut op: Operation = match given {
            Some(op) => op,
            None => Operation::default(),
        };
        let mut own: Option<Vec<SecurityRequirement>> = None;
        std::mem::swap(&mut own, &mut op.security);
        op.security = add_requirements(own, security);
        let mut cur_op_id: Vec<String> = Vec::new();
        if first {
            match next_id(ids, name) {
                Ok(id) => {
                    op.operation_id = Some(id.clone());
                    cur_op_id.push(id);
                },
                Err(f) => {
                    return Err(f);
                },
            }
        }
        let reader: Transpiler = Transpiler {
            variable_map: self.variable_map,
            info_description: self.info_description,
            cur_op_id,
        };
        if let Err(f) = reader.add_request(&mut op, item, request, name, url, first, tags) {
            return Err(f);
        }
        *place = Some(op);
        Ok(())
    }

    /// Describes the request as an operation on the path. No segment may begin
    /// with a character outside the ASCII range.
    pub fn transform_paths(
        &self,
        state: &mut TranspileState,
        item: &Items,
        request: &RequestClass,
        request_name: &str,
        url: &UrlClass,
        paths: &Vec<PathElement>,
        security_requirement: Option<Vec<SecurityRequirement>>,
    ) -> (r: Result<(), Fault>)
        requires
            segments_from(self.context(), paths@, 0, seq![]) != Err::<Seq<Seq<char>>, Fault>(
                Fault::Segment,
            ),
        ensures
            reached(r, final(state).deep_view()) == with_operation(
                self.context(),
                old(state).deep_view(),
                *item,
                *request,
                request_name@,
                *url,
                paths@,
                security_requirement.deep_view(),
            ),
    {
        let ghost before = state.deep_view();
        let segments: Vec<String> = match self.resolve_segments(paths) {
            Ok(segments) => segments,
            Err(f) => {
                return Err(f);
            },
        };
        let parameters: Option<Vec<ObjectOrReference<Parameter>>> =
            match self.generate_path_parameters(&segments, &url.variable) {
            Ok(parameters) => parameters,
            Err(f) => {
                return Err(f);
            },
        };
        let mut key: String = "/".to_owned();
        key.append(join(&segments, "/").as_str());
        let ghost entries = path_entries(state.oas.paths);
        proof {
            lemma_paths_view(entries, key@, 0);
            lemma_key_at(entries, key@);
        }
        if !has_path(&state.oas.paths, key.as_str()) {
            let _ = insert_path(&mut state.oas.paths, key.clone(), PathItem::default());
        }
        let ghost filled = path_entries(state.oas.paths);
        proof {
            lemma_key_at(filled, key@);
            if key_at(entries, key@) is None {
                assert(filled[entries.len() as int].0 == key@);
                assert(key_at(filled, key@) == Some(entries.len() as int));
            }
            let k = key_at(filled, key@)->0;
            assert(filled[k].1.deep_view() == path_at(before.oas.paths, key@));
        }
        if let Some(path) = path_mut(&mut state.oas.paths, key.as_str()) {
            path.parameters = parameters;
            if let Err(f) = self.add_to_path(
                path,
                &mut state.operation_ids,
                &state.hierarchy,
                item,
                request,
                request_name,
                url,
                security_requirement,
            ) {
                return Err(f);
            }
        }
        proof {
            let k = key_at(filled, key@)->0;
            let after = path_entries(state.oas.paths);
            assert(paths_view(after) =~= with_path(
                before.oas.paths,
                key@,
                after[k].1.deep_view(),
            ));
        }
        Ok(())
    }
}

} // verus!
