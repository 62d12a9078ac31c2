//! The route emitter: from each GET and POST operation to a route and the
//! name of its stub handler.

use vstd::prelude::*;
use vstd::string::StringExecFns;
use crate::emitter::distinct_or_collision;
use crate::mapper::CodeGenerator;
use crate::model::{OpenApiSpec, Operation, OperationView, PathItem, PathItemView};
use crate::names::find_repeat;
use crate::names::{by_name, name_order_of};
use crate::text::{sanitize, sanitized};
use crate::types::{GenerateError, GenerateErrorView, RouteDef, RouteDefView};
use crate::views::result_view;

verus! {

/// The name of the handler of an operation: its `operationId` made an
/// identifier, or else `handle_`, the method, `_` and the path made an
/// identifier.
pub open spec fn handler_for(method: Seq<char>, path: Seq<char>, operation: OperationView) -> Seq<
    char,
> {
    match operation.operation_id {
        Some(id) => sanitized(id),
        None => "handle_"@ + method + "_"@ + sanitized(path),
    }
}

/// The route of an operation.
pub open spec fn route_for(method: Seq<char>, path: Seq<char>, operation: OperationView)
    -> RouteDefView {
    RouteDefView { method, path, handler: handler_for(method, path, operation) }
}

/// The routes of one path: that of GET, then that of POST, each where the path
/// has the operation. PUT and DELETE give no route.
pub open spec fn routes_of_path(path: Seq<char>, item: PathItemView) -> Seq<RouteDefView> {
    let of_get = match item.get {
        Some(operation) => seq![route_for("get"@, path, operation)],
        None => Seq::empty(),
    };
    let of_post = match item.post {
        Some(operation) => seq![route_for("post"@, path, operation)],
        None => Seq::empty(),
    };
    of_get + of_post
}

/// The routes of the first `n` of `paths`.
pub open spec fn routes_of_first(paths: Seq<(Seq<char>, PathItemView)>, n: nat) -> Seq<
    RouteDefView,
>
    decreases n,
{
    if n == 0 {
        Seq::empty()
    } else {
        routes_of_first(paths, (n - 1) as nat) + routes_of_path(paths[n - 1].0, paths[n - 1].1)
    }
}

/// The names of the handlers of routes.
pub open spec fn handler_names(routes: Seq<RouteDefView>) -> Seq<Seq<char>> {
    routes.map_values(|r: RouteDefView| r.handler)
}

/// Every route of `paths`, whatever the handlers' names: path by path in the
/// order of the paths' names.
pub open spec fn all_routes(paths: Seq<(Seq<char>, PathItemView)>) -> Seq<RouteDefView> {
    routes_of_first(by_name(paths), paths.len())
}

/// The routes of `paths`. Two routes with one handler name collide.
pub open spec fn routes_of(paths: Seq<(Seq<char>, PathItemView)>) -> Result<
    Seq<RouteDefView>,
    GenerateErrorView,
> {
    distinct_or_collision(all_routes(paths), handler_names(all_routes(paths)))
}

impl CodeGenerator {
    /// The identifier that stands for a path: every character that is not
    /// alphanumeric becomes an underscore.
    pub fn sanitize_path(path: &str) -> (clean: String)
        ensures
            clean@ == sanitized(path@),
    {
        sanitize(path)
    }

    /// The route of `operation`, which `method` performs on `path`.
    pub fn generate_handler(method: &str, path: &str, operation: &Operation) -> (route: RouteDef)
        ensures
            route@ == route_for(method@, path@, operation@),
    {
        let handler = match &operation.operation_id {
            Some(id) => Self::sanitize_identifier(id.as_str()),
            None => {
                let mut name = "handle_".to_owned();
                name.append(method);
                name.append("_");
                name.append(Self::sanitize_path(path).as_str());
                name
            },
        };
        RouteDef { method: method.to_owned(), path: path.to_owned(), handler }
    }

    /// The routes of one path: that of GET, then that of POST.
    pub fn generate_route_definition(path: &str, path_item: &PathItem) -> (routes: Vec<RouteDef>)
        ensures
            routes.deep_view() == routes_of_path(path@, path_item@),
    {
        let mut routes: Vec<RouteDef> = Vec::new();
        if let Some(operation) = &path_item.get {
            routes.push(Self::generate_handler("get", path, operation));
        }
        if let Some(operation) = &path_item.post {
            routes.push(Self::generate_handler("post", path, operation));
        }
        assert(routes.deep_view() =~= routes_of_path(path@, path_item@));
        routes
    }

    /// The routes of a description, path by path in the order of the paths'
    /// names.
    pub fn generate_routes(spec: &OpenApiSpec) -> (result: Result<Vec<RouteDef>, GenerateError>)
        ensures
            result_view(result) == routes_of(spec@.paths),
    {
        let paths = &spec.paths;
        let ghost sorted = by_name(paths.deep_view());
        let order = name_order_of(paths);
        let mut routes: Vec<RouteDef> = Vec::new();
        let mut idents: Vec<String> = Vec::new();
        let mut k: usize = 0;
        assert(routes.deep_view() =~= routes_of_first(sorted, 0));
        assert(idents.deep_view() =~= handler_names(routes.deep_view()));
        while k < order.len()
            invariant
                k <= order.len(),
                order.len() == paths.len(),
                sorted == by_name(paths.deep_view()),
                forall|i: int| 0 <= i < order.len() ==> #[trigger] order[i] < paths.len(),
                forall|i: int|
                    0 <= i < order.len() ==> sorted[i] == #[trigger] paths.deep_view()[order[i] as int],
                routes.deep_view() == routes_of_first(sorted, k as nat),
                idents.deep_view() == handler_names(routes.deep_view()),
            decreases order.len() - k,
        {
            let entry = &paths[order[k]];
            assert(paths.deep_view()[order[k as int] as int] == (entry.0@, entry.1@));
            let mut found = Self::generate_route_definition(entry.0.as_str(), &entry.1);
            let ghost added = found.deep_view();
            let ghost routes_before = routes.deep_view();
            let ghost idents_before = idents.deep_view();
            let mut i: usize = 0;
            while i < found.len()
                invariant
                    i <= found.len(),
                    added == found.deep_view(),
                    idents.deep_view() == idents_before + handler_names(added.take(i as int)),
                decreases found.len() - i,
            {
                let ghost held = idents.deep_view();
                assert(added[i as int] == found[i as int]@);
                idents.push(found[i].handler.clone());
                assert(idents.deep_view() =~= held.push(added[i as int].handler));
                assert(added.take(i + 1) =~= added.take(i as int).push(added[i as int]));
                assert(idents.deep_view() =~= idents_before + handler_names(added.take(i + 1)));
                i += 1;
            }
            assert(added.take(found.len() as int) == added);
            routes.append(&mut found);
            assert(routes.deep_view() =~= routes_before + added);
            assert(idents.deep_view() =~= handler_names(routes.deep_view()));
            k += 1;
        }
        match find_repeat(&idents) {
            Some(at) => Err(GenerateError::IdentifierCollision(idents[at].clone())),
            None => Ok(routes),
        }
    }
}

} // verus!
