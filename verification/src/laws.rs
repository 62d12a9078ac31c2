//! What holds of lowering, whatever the description.

use vstd::prelude::*;
use crate::assembler::app_text;
use crate::emitter::{
    collected, field_of, fields_of, reported, requires_name, schemas_of, struct_of, structs_of,
    values,
};
use crate::mapper::{last_segment, lemma_last_segment_after, resolved};
use crate::model::{OpenApiSpecView, OperationView, PathItemView, SchemaView};
use crate::names::{
    by_name, first_repeat, law_given_order_is_immaterial, lemma_first_repeat,
    lemma_name_order_in_range, lemma_ordered_prefix_is_arrangement, name_order, names_of,
};
use crate::pipeline::{module_of_text, PipelineErrorView, Syntax};
use crate::routes::{
    all_routes, handler_for, handler_names, route_for, routes_of, routes_of_first, routes_of_path,
};
use crate::text::sanitized;
use crate::types::{GenerateErrorView, TypeExprView};

verus! {

/// A reported failure is one of the failures, and where nothing is reported
/// every result is a success.
pub proof fn lemma_reported_is_among<T>(results: Seq<Result<T, GenerateErrorView>>)
    ensures
        match reported(results) {
            Some(e) => exists|i: int| 0 <= i < results.len() && results[i] == Err::<T, _>(e),
            None => forall|i: int| 0 <= i < results.len() ==> results[i] is Ok,
        },
    decreases results.len(),
{
    if results.len() > 0 {
        let front = results.drop_last();
        lemma_reported_is_among(front);
        match reported(results) {
            Some(e) => {
                if results.last() == Err::<T, _>(e) {
                    assert(results[results.len() - 1] == Err::<T, _>(e));
                } else {
                    assert(reported(front) == Some(e));
                    let i = choose|i: int| 0 <= i < front.len() && front[i] == Err::<T, _>(e);
                    assert(results[i] == Err::<T, _>(e));
                }
            },
            None => {
                assert forall|i: int| 0 <= i < results.len() implies results[i] is Ok by {
                    if i < front.len() {
                        assert(front[i] is Ok);
                    }
                }
            },
        }
    }
}

/// No failure is reported in place of one of a lower rank.
pub proof fn lemma_reported_rank<T>(results: Seq<Result<T, GenerateErrorView>>, i: int)
    requires
        0 <= i < results.len(),
        results[i] is Err,
    ensures
        reported(results) is Some,
        reported(results)->0.rank() <= results[i]->Err_0.rank(),
    decreases results.len(),
{
    let front = results.drop_last();
    if i < front.len() {
        assert(front[i] == results[i]);
        lemma_reported_rank(front, i);
    }
}

/// Whether the type mapper, on its way through `schema`, meets a combination
/// of schemas: the schema is one, or it is an array whose items meet one.
pub open spec fn meets_combination(schema: SchemaView) -> bool
    decreases schema,
{
    match schema {
        SchemaView::ArrayType { items, .. } => meets_combination(*items),
        SchemaView::Object { type_, items, .. } => type_ == Some("array"@) && items is Some
            && meets_combination(*items->0),
        _ => schema.is_composition(),
    }
}

/// Whether the type mapper, on its way through `schema`, meets a reference to
/// a schema that `names` does not hold.
pub open spec fn meets_missing_reference(schema: SchemaView, names: Seq<Seq<char>>) -> bool
    decreases schema,
{
    match schema {
        SchemaView::Reference { ref_ } => !names.contains(last_segment(ref_)),
        SchemaView::ArrayType { items, .. } => meets_missing_reference(*items, names),
        SchemaView::Object { type_, items, .. } => type_ == Some("array"@) && items is Some
            && meets_missing_reference(*items->0, names),
        _ => false,
    }
}

/// The type mapper fails on a combination of schemas with
/// `UnsupportedConstruct`, on a reference to nothing with
/// `UnresolvedReference`, and on nothing else: it never hands back an untyped
/// value in place of either.
pub proof fn law_mapper_failures(schema: SchemaView, names: Seq<Seq<char>>)
    ensures
        resolved(schema, names) matches Err(GenerateErrorView::UnsupportedConstruct(_))
            <==> meets_combination(schema),
        resolved(schema, names) matches Err(GenerateErrorView::UnresolvedReference(_))
            <==> meets_missing_reference(schema, names),
        !(resolved(schema, names) matches Err(GenerateErrorView::IdentifierCollision(_))),
    decreases schema,
{
    match schema {
        SchemaView::ArrayType { items, .. } => {
            law_mapper_failures(*items, names);
        },
        SchemaView::Object { type_, items, .. } => {
            if type_ == Some("array"@) && items is Some {
                law_mapper_failures(*items->0, names);
            }
        },
        _ => {},
    }
}

/// Whether lowering the named schema `schema` meets a combination of
/// schemas: in one of its properties where it is an object, else in itself.
pub open spec fn lowering_meets_combination(schema: SchemaView) -> bool {
    match schema {
        SchemaView::Object { properties, .. } => properties is Some && exists|i: int|
            0 <= i < properties->0.len() && meets_combination(#[trigger] properties->0[i].1),
        _ => meets_combination(schema),
    }
}

/// Whether lowering the named schema `schema` meets a reference to a schema
/// that `names` does not hold.
pub open spec fn lowering_meets_missing_reference(schema: SchemaView, names: Seq<Seq<char>>)
    -> bool {
    match schema {
        SchemaView::Object { properties, .. } => properties is Some && exists|i: int|
            0 <= i < properties->0.len() && meets_missing_reference(
                #[trigger] properties->0[i].1,
                names,
            ),
        _ => meets_missing_reference(schema, names),
    }
}

/// Every entry stands somewhere in the order of the names, and every place of
/// that order holds an entry.
pub proof fn lemma_by_name_rearranges<T>(entries: Seq<(Seq<char>, T)>)
    ensures
        by_name(entries).len() == entries.len(),
        forall|i: int|
            0 <= i < entries.len() ==> exists|k: int|
                0 <= k < entries.len() && by_name(entries)[k] == #[trigger] entries[i],
        forall|k: int|
            0 <= k < entries.len() ==> exists|i: int|
                0 <= i < entries.len() && #[trigger] by_name(entries)[k] == entries[i],
{
    let names = names_of(entries);
    let order = name_order(names);
    lemma_ordered_prefix_is_arrangement(names, names.len());
    lemma_name_order_in_range(names);
    assert forall|i: int| 0 <= i < entries.len() implies exists|k: int|
        0 <= k < entries.len() && by_name(entries)[k] == #[trigger] entries[i] by {
        assert(order.contains(i));
        let k = choose|k: int| 0 <= k < order.len() && order[k] == i;
        assert(by_name(entries)[k] == entries[i]);
    }
    assert forall|k: int| 0 <= k < entries.len() implies exists|i: int|
        0 <= i < entries.len() && #[trigger] by_name(entries)[k] == entries[i] by {
        let i = order[k];
        assert(0 <= i < entries.len());
        assert(by_name(entries)[k] == entries[i]);
    }
}

/// Whether `result` is a failure of the given rank.
pub open spec fn fails_with_rank<T>(result: Result<T, GenerateErrorView>, rank: int) -> bool {
    result is Err && result->Err_0.rank() == rank
}

/// Whether one of `results` is a failure of the given rank.
pub open spec fn some_fails_with_rank<T>(results: Seq<Result<T, GenerateErrorView>>, rank: int)
    -> bool {
    exists|i: int| 0 <= i < results.len() && fails_with_rank(#[trigger] results[i], rank)
}

/// The rank of the reported failure is the lowest rank of any failure.
pub proof fn lemma_reported_kind<T>(results: Seq<Result<T, GenerateErrorView>>)
    ensures
        fails_with_rank(collected(results), 0) <==> some_fails_with_rank(results, 0),
        fails_with_rank(collected(results), 1) <==> !some_fails_with_rank(results, 0)
            && some_fails_with_rank(results, 1),
        fails_with_rank(collected(results), 2) <==> !some_fails_with_rank(results, 0)
            && !some_fails_with_rank(results, 1) && some_fails_with_rank(results, 2),
        collected(results) is Ok <==> forall|i: int| 0 <= i < results.len() ==> results[i] is Ok,
{
    lemma_reported_is_among(results);
    assert forall|rank: int| some_fails_with_rank(results, rank) implies reported(results) is Some
        && reported(results)->0.rank() <= rank by {
        let i = choose|i: int| 0 <= i < results.len() && fails_with_rank(#[trigger] results[i], rank);
        lemma_reported_rank(results, i);
    }
    match reported(results) {
        Some(e) => {
            let i = choose|i: int| 0 <= i < results.len() && results[i] == Err::<T, _>(e);
            assert(fails_with_rank(results[i], e.rank()));
            assert(some_fails_with_rank(results, e.rank()));
            assert(!(results[i] is Ok));
        },
        None => {
            assert forall|rank: int| !some_fails_with_rank(results, rank) by {
                if some_fails_with_rank(results, rank) {
                    let i = choose|i: int|
                        0 <= i < results.len() && fails_with_rank(#[trigger] results[i], rank);
                    assert(results[i] is Ok);
                }
            }
        },
    }
}

/// A record is refused for a combination of schemas exactly where one of the
/// properties meets one, and for a reference to nothing exactly where none
/// does and one of them meets such a reference.
pub proof fn lemma_field_failures(
    properties: Seq<(Seq<char>, SchemaView)>,
    required: Option<Seq<Seq<char>>>,
    names: Seq<Seq<char>>,
)
    ensures
        fails_with_rank(fields_of(properties, required, names), 0) <==> exists|i: int|
            0 <= i < properties.len() && meets_combination(#[trigger] properties[i].1),
        fails_with_rank(fields_of(properties, required, names), 1) <==> !(exists|i: int|
            0 <= i < properties.len() && meets_combination(#[trigger] properties[i].1))
            && exists|i: int|
            0 <= i < properties.len() && meets_missing_reference(#[trigger] properties[i].1, names),
{
    let sorted = by_name(properties);
    let results = sorted.map_values(|p: (Seq<char>, SchemaView)| field_of(p, required, names));
    lemma_reported_kind(results);
    lemma_by_name_rearranges(properties);
    assert forall|k: int| 0 <= k < sorted.len() implies (fails_with_rank(
        #[trigger] results[k],
        0,
    ) <==> meets_combination(sorted[k].1)) && (fails_with_rank(results[k], 1)
        <==> meets_missing_reference(sorted[k].1, names)) by {
        law_mapper_failures(sorted[k].1, names);
    }
    if some_fails_with_rank(results, 0) {
        let k = choose|k: int| 0 <= k < results.len() && fails_with_rank(#[trigger] results[k], 0);
        let i = choose|i: int| 0 <= i < properties.len() && sorted[k] == properties[i];
        assert(meets_combination(properties[i].1));
    }
    if exists|i: int| 0 <= i < properties.len() && meets_combination(#[trigger] properties[i].1) {
        let i = choose|i: int|
            0 <= i < properties.len() && meets_combination(#[trigger] properties[i].1);
        let k = choose|k: int| 0 <= k < properties.len() && sorted[k] == properties[i];
        assert(fails_with_rank(results[k], 0));
    }
    if some_fails_with_rank(results, 1) {
        let k = choose|k: int| 0 <= k < results.len() && fails_with_rank(#[trigger] results[k], 1);
        let i = choose|i: int| 0 <= i < properties.len() && sorted[k] == properties[i];
        assert(meets_missing_reference(properties[i].1, names));
    }
    if exists|i: int|
        0 <= i < properties.len() && meets_missing_reference(#[trigger] properties[i].1, names) {
        let i = choose|i: int|
            0 <= i < properties.len() && meets_missing_reference(#[trigger] properties[i].1, names);
        let k = choose|k: int| 0 <= k < properties.len() && sorted[k] == properties[i];
        assert(fails_with_rank(results[k], 1));
    }
}

/// A named schema that holds a combination of schemas where lowering looks
/// is refused with `UnsupportedConstruct`; one that holds none, and a
/// reference to nothing, with `UnresolvedReference`.
pub proof fn law_struct_failures(name: Seq<char>, schema: SchemaView, names: Seq<Seq<char>>)
    ensures
        struct_of(name, schema, names) matches Err(GenerateErrorView::UnsupportedConstruct(_))
            <==> lowering_meets_combination(schema),
        struct_of(name, schema, names) matches Err(GenerateErrorView::UnresolvedReference(_))
            <==> !lowering_meets_combination(schema) && lowering_meets_missing_reference(
            schema,
            names,
        ),
{
    match schema {
        SchemaView::Object { properties, required, .. } => {
            if properties is Some {
                lemma_field_failures(properties->0, required, names);
            }
        },
        _ => {
            law_mapper_failures(schema, names);
        },
    }
}

/// Whether lowering one of the named schemas meets a combination of schemas.
pub open spec fn holds_combination(schemas: Seq<(Seq<char>, SchemaView)>) -> bool {
    exists|i: int| 0 <= i < schemas.len() && lowering_meets_combination(#[trigger] schemas[i].1)
}

/// Whether lowering one of the named schemas meets a reference to a schema
/// that is not among them.
pub open spec fn holds_missing_reference(schemas: Seq<(Seq<char>, SchemaView)>) -> bool {
    exists|i: int|
        0 <= i < schemas.len() && lowering_meets_missing_reference(
            #[trigger] schemas[i].1,
            names_of(schemas),
        )
}

/// The data types are refused for a combination of schemas exactly where one
/// of the named schemas holds one, and for a reference to nothing exactly
/// where none does and one of them holds such a reference.
pub proof fn law_structs_failures(schemas: Seq<(Seq<char>, SchemaView)>)
    ensures
        structs_of(schemas) matches Err(GenerateErrorView::UnsupportedConstruct(_))
            <==> holds_combination(schemas),
        structs_of(schemas) matches Err(GenerateErrorView::UnresolvedReference(_))
            <==> !holds_combination(schemas) && holds_missing_reference(schemas),
{
    let names = names_of(schemas);
    let sorted = by_name(schemas);
    let results = sorted.map_values(|s: (Seq<char>, SchemaView)| struct_of(s.0, s.1, names));
    lemma_reported_kind(results);
    lemma_by_name_rearranges(schemas);
    assert forall|k: int| 0 <= k < sorted.len() implies (fails_with_rank(
        #[trigger] results[k],
        0,
    ) <==> lowering_meets_combination(sorted[k].1)) && (fails_with_rank(results[k], 1)
        <==> !lowering_meets_combination(sorted[k].1) && lowering_meets_missing_reference(
        sorted[k].1,
        names,
    )) by {
        law_struct_failures(sorted[k].0, sorted[k].1, names);
    }
    if some_fails_with_rank(results, 0) {
        let k = choose|k: int| 0 <= k < results.len() && fails_with_rank(#[trigger] results[k], 0);
        let i = choose|i: int| 0 <= i < schemas.len() && sorted[k] == schemas[i];
        assert(lowering_meets_combination(schemas[i].1));
    }
    if holds_combination(schemas) {
        let i = choose|i: int|
            0 <= i < schemas.len() && lowering_meets_combination(#[trigger] schemas[i].1);
        let k = choose|k: int| 0 <= k < schemas.len() && sorted[k] == schemas[i];
        assert(fails_with_rank(results[k], 0));
    }
    if some_fails_with_rank(results, 1) {
        let k = choose|k: int| 0 <= k < results.len() && fails_with_rank(#[trigger] results[k], 1);
        let i = choose|i: int| 0 <= i < schemas.len() && sorted[k] == schemas[i];
        assert(lowering_meets_missing_reference(schemas[i].1, names));
    }
    if !holds_combination(schemas) && holds_missing_reference(schemas) {
        let i = choose|i: int|
            0 <= i < schemas.len() && lowering_meets_missing_reference(
                #[trigger] schemas[i].1,
                names,
            );
        let k = choose|k: int| 0 <= k < schemas.len() && sorted[k] == schemas[i];
        assert(!lowering_meets_combination(sorted[k].1));
        assert(fails_with_rank(results[k], 1));
    }
}

/// A description with a combination of schemas among its named schemas is
/// never lowered: generation fails with `UnsupportedConstruct`, whatever else
/// the description holds.
pub proof fn law_combination_is_refused(spec: OpenApiSpecView)
    requires
        holds_combination(schemas_of(spec)),
    ensures
        app_text(spec) matches Err(GenerateErrorView::UnsupportedConstruct(_)),
{
    law_structs_failures(schemas_of(spec));
}

/// A description with a reference to a schema that is not among its named
/// schemas, and with no combination of schemas, is never lowered: generation
/// fails with `UnresolvedReference`.
pub proof fn law_missing_reference_is_refused(spec: OpenApiSpecView)
    requires
        !holds_combination(schemas_of(spec)),
        holds_missing_reference(schemas_of(spec)),
    ensures
        app_text(spec) matches Err(GenerateErrorView::UnresolvedReference(_)),
{
    law_structs_failures(schemas_of(spec));
}

/// The routes of a longer front part of the paths begin with those of a
/// shorter one.
pub proof fn lemma_routes_extend(paths: Seq<(Seq<char>, PathItemView)>, k: nat, n: nat)
    requires
        k <= n,
    ensures
        routes_of_first(paths, k).len() <= routes_of_first(paths, n).len(),
        forall|p: int|
            0 <= p < routes_of_first(paths, k).len() ==> routes_of_first(paths, n)[p]
                == routes_of_first(paths, k)[p],
    decreases n - k,
{
    if k < n {
        lemma_routes_extend(paths, k, (n - 1) as nat);
    }
}

/// The operation that the method `method` performs on a path, where the
/// method gives a route.
pub open spec fn routed(item: PathItemView, method: Seq<char>) -> Option<OperationView> {
    if method == "get"@ {
        item.get
    } else if method == "post"@ {
        item.post
    } else {
        None
    }
}

/// Where the route of an operation stands among the routes of a path.
pub open spec fn place_in_path(item: PathItemView, method: Seq<char>) -> int {
    if method == "post"@ && item.get is Some {
        1
    } else {
        0
    }
}

/// `get` and `post` are two words.
pub proof fn lemma_methods_differ()
    ensures
        "get"@ != "post"@,
{
    reveal_strlit("get");
    reveal_strlit("post");
    assert("get"@.len() == 3);
    assert("post"@.len() == 4);
}

/// The route of each GET and each POST operation stands among the routes, at
/// a place of its own.
pub proof fn lemma_route_has_its_place(
    paths: Seq<(Seq<char>, PathItemView)>,
    k: int,
    method: Seq<char>,
)
    requires
        0 <= k < paths.len(),
        routed(paths[k].1, method) is Some,
    ensures
        ({
            let routes = routes_of_first(paths, paths.len());
            let place = routes_of_first(paths, k as nat).len() + place_in_path(paths[k].1, method);
            &&& place < routes_of_first(paths, (k + 1) as nat).len()
            &&& routes_of_first(paths, (k + 1) as nat).len() <= routes.len()
            &&& routes[place] == route_for(method, paths[k].0, routed(paths[k].1, method)->0)
        }),
{
    lemma_methods_differ();
    lemma_routes_extend(paths, (k + 1) as nat, paths.len());
    let before = routes_of_first(paths, k as nat);
    let here = routes_of_path(paths[k].0, paths[k].1);
    let place = before.len() + place_in_path(paths[k].1, method);
    assert(routes_of_first(paths, (k + 1) as nat) == before + here);
    assert((before + here)[place] == here[place_in_path(paths[k].1, method)]);
}

/// Two routes with one handler name collide.
pub proof fn law_equal_handlers_collide(paths: Seq<(Seq<char>, PathItemView)>, a: int, b: int)
    requires
        0 <= a < b < all_routes(paths).len(),
        all_routes(paths)[a].handler == all_routes(paths)[b].handler,
    ensures
        routes_of(paths) matches Err(GenerateErrorView::IdentifierCollision(_)),
{
    let idents = handler_names(all_routes(paths));
    lemma_first_repeat(idents);
    assert(idents[a] == idents[b]);
}

/// Two operations that give routes, on two paths or on one, collide where
/// their handlers have one name: so do two paths without `operationId` whose
/// names give one identifier.
pub proof fn law_one_handler_name_collides(
    paths: Seq<(Seq<char>, PathItemView)>,
    i: int,
    first: Seq<char>,
    j: int,
    second: Seq<char>,
)
    requires
        0 <= i < paths.len(),
        0 <= j < paths.len(),
        i != j || first != second,
        routed(paths[i].1, first) is Some,
        routed(paths[j].1, second) is Some,
        handler_for(first, paths[i].0, routed(paths[i].1, first)->0) == handler_for(
            second,
            paths[j].0,
            routed(paths[j].1, second)->0,
        ),
    ensures
        routes_of(paths) matches Err(GenerateErrorView::IdentifierCollision(_)),
{
    let sorted = by_name(paths);
    let order = name_order(names_of(paths));
    lemma_ordered_prefix_is_arrangement(names_of(paths), paths.len());
    lemma_name_order_in_range(names_of(paths));
    lemma_methods_differ();
    assert(order.contains(i));
    assert(order.contains(j));
    let k1 = choose|k: int| 0 <= k < order.len() && order[k] == i;
    let k2 = choose|k: int| 0 <= k < order.len() && order[k] == j;
    assert(sorted[k1] == paths[i]);
    assert(sorted[k2] == paths[j]);
    lemma_route_has_its_place(sorted, k1, first);
    lemma_route_has_its_place(sorted, k2, second);
    let here = routes_of_first(sorted, k1 as nat).len() + place_in_path(sorted[k1].1, first);
    let there = routes_of_first(sorted, k2 as nat).len() + place_in_path(sorted[k2].1, second);
    assert(all_routes(paths) == routes_of_first(sorted, sorted.len()));
    if k1 < k2 {
        lemma_routes_extend(sorted, (k1 + 1) as nat, k2 as nat);
        law_equal_handlers_collide(paths, here, there);
    } else if k2 < k1 {
        lemma_routes_extend(sorted, (k2 + 1) as nat, k1 as nat);
        law_equal_handlers_collide(paths, there, here);
    } else {
        assert(i == j);
        if here < there {
            law_equal_handlers_collide(paths, here, there);
        } else {
            assert(there < here);
            law_equal_handlers_collide(paths, there, here);
        }
    }
}

/// A description in which two routes have one handler name is never lowered;
/// where its named schemas hold no combination of schemas and no reference to
/// nothing, generation fails with `IdentifierCollision`.
pub proof fn law_collision_is_refused(spec: OpenApiSpecView, a: int, b: int)
    requires
        0 <= a < b < all_routes(spec.paths).len(),
        all_routes(spec.paths)[a].handler == all_routes(spec.paths)[b].handler,
    ensures
        app_text(spec) is Err,
        !holds_combination(schemas_of(spec)) && !holds_missing_reference(schemas_of(spec))
            ==> app_text(spec) matches Err(GenerateErrorView::IdentifierCollision(_)),
{
    law_equal_handlers_collide(spec.paths, a, b);
    law_structs_failures(schemas_of(spec));
}

/// Whether two lists hold the same things.
pub open spec fn same_members<T>(first: Seq<T>, second: Seq<T>) -> bool {
    forall|x: T| first.contains(x) <==> second.contains(x)
}

/// Lists that hold the same entries hold the same names.
pub proof fn lemma_same_names<T>(first: Seq<(Seq<char>, T)>, second: Seq<(Seq<char>, T)>)
    requires
        same_members(first, second),
    ensures
        same_members(names_of(first), names_of(second)),
{
    assert forall|x: Seq<char>| names_of(first).contains(x) <==> names_of(second).contains(x) by {
        if names_of(first).contains(x) {
            let i = choose|i: int| 0 <= i < first.len() && names_of(first)[i] == x;
            assert(first.contains(first[i]));
            let j = choose|j: int| 0 <= j < second.len() && second[j] == first[i];
            assert(names_of(second)[j] == x);
        }
        if names_of(second).contains(x) {
            let i = choose|i: int| 0 <= i < second.len() && names_of(second)[i] == x;
            assert(second.contains(second[i]));
            let j = choose|j: int| 0 <= j < first.len() && first[j] == second[i];
            assert(names_of(first)[j] == x);
        }
    }
}

/// The type of a schema depends on which names the named schemas have, not
/// on their order.
pub proof fn lemma_resolved_whatever_order(
    schema: SchemaView,
    first: Seq<Seq<char>>,
    second: Seq<Seq<char>>,
)
    requires
        same_members(first, second),
    ensures
        resolved(schema, first) == resolved(schema, second),
    decreases schema,
{
    match schema {
        SchemaView::ArrayType { items, .. } => {
            lemma_resolved_whatever_order(*items, first, second);
        },
        SchemaView::Object { type_, items, .. } => {
            if items is Some {
                lemma_resolved_whatever_order(*items->0, first, second);
            }
        },
        _ => {},
    }
}

/// The data type of a schema depends on which names the named schemas have,
/// not on their order.
pub proof fn lemma_struct_whatever_order(
    name: Seq<char>,
    schema: SchemaView,
    first: Seq<Seq<char>>,
    second: Seq<Seq<char>>,
)
    requires
        same_members(first, second),
    ensures
        struct_of(name, schema, first) == struct_of(name, schema, second),
{
    match schema {
        SchemaView::Object { properties, required, .. } => {
            if properties is Some {
                let sorted = by_name(properties->0);
                let one = sorted.map_values(
                    |p: (Seq<char>, SchemaView)| field_of(p, required, first),
                );
                let other = sorted.map_values(
                    |p: (Seq<char>, SchemaView)| field_of(p, required, second),
                );
                assert forall|k: int| 0 <= k < sorted.len() implies one[k] == other[k] by {
                    lemma_resolved_whatever_order(sorted[k].1, first, second);
                }
                assert(one =~= other);
            }
        },
        _ => {
            lemma_resolved_whatever_order(schema, first, second);
        },
    }
}

/// The fields of a record do not depend on the order in which the properties
/// are given.
pub proof fn law_order_of_properties_is_immaterial(
    first: Seq<(Seq<char>, SchemaView)>,
    second: Seq<(Seq<char>, SchemaView)>,
    required: Option<Seq<Seq<char>>>,
    names: Seq<Seq<char>>,
)
    requires
        names_of(first).no_duplicates(),
        names_of(second).no_duplicates(),
        same_members(first, second),
    ensures
        fields_of(first, required, names) == fields_of(second, required, names),
{
    law_given_order_is_immaterial(first, second);
}

/// The data types do not depend on the order in which the named schemas are
/// given.
pub proof fn law_order_of_schemas_is_immaterial(
    first: Seq<(Seq<char>, SchemaView)>,
    second: Seq<(Seq<char>, SchemaView)>,
)
    requires
        names_of(first).no_duplicates(),
        names_of(second).no_duplicates(),
        same_members(first, second),
    ensures
        structs_of(first) == structs_of(second),
{
    law_given_order_is_immaterial(first, second);
    lemma_same_names(first, second);
    let sorted = by_name(first);
    let one = sorted.map_values(
        |s: (Seq<char>, SchemaView)| struct_of(s.0, s.1, names_of(first)),
    );
    let other = sorted.map_values(
        |s: (Seq<char>, SchemaView)| struct_of(s.0, s.1, names_of(second)),
    );
    assert forall|k: int| 0 <= k < sorted.len() implies one[k] == other[k] by {
        lemma_struct_whatever_order(sorted[k].0, sorted[k].1, names_of(first), names_of(second));
    }
    assert(one =~= other);
}

/// The routes do not depend on the order in which the paths are given.
pub proof fn law_order_of_paths_is_immaterial(
    first: Seq<(Seq<char>, PathItemView)>,
    second: Seq<(Seq<char>, PathItemView)>,
)
    requires
        names_of(first).no_duplicates(),
        names_of(second).no_duplicates(),
        same_members(first, second),
    ensures
        routes_of(first) == routes_of(second),
        first.len() == second.len(),
{
    law_given_order_is_immaterial(first, second);
    assert(by_name(first).len() == first.len());
    assert(by_name(second).len() == second.len());
}

/// The generated module does not depend on the order in which the paths and
/// the named schemas of a description are given.
pub proof fn law_order_of_input_is_immaterial(first: OpenApiSpecView, second: OpenApiSpecView)
    requires
        names_of(first.paths).no_duplicates(),
        names_of(second.paths).no_duplicates(),
        same_members(first.paths, second.paths),
        names_of(schemas_of(first)).no_duplicates(),
        names_of(schemas_of(second)).no_duplicates(),
        same_members(schemas_of(first), schemas_of(second)),
    ensures
        app_text(first) == app_text(second),
{
    law_order_of_schemas_is_immaterial(schemas_of(first), schemas_of(second));
    law_order_of_paths_is_immaterial(first.paths, second.paths);
}

/// In the record of an object, every property has its field, named by the
/// property's identifier and typed by the property's schema; the field is
/// optional exactly where the list of required names does not hold the
/// property.
pub proof fn law_required_fields(
    name: Seq<char>,
    schema: SchemaView,
    names: Seq<Seq<char>>,
    i: int,
)
    requires
        schema is Object,
        schema->properties is Some,
        0 <= i < schema->properties->0.len(),
        struct_of(name, schema, names) is Ok,
    ensures
        struct_of(name, schema, names)->Ok_0.body is Record,
        ({
            let fields = struct_of(name, schema, names)->Ok_0.body->Record_0;
            let property = schema->properties->0[i];
            &&& fields.len() == schema->properties->0.len()
            &&& exists|k: int|
                0 <= k < fields.len() && (#[trigger] fields[k]).name == sanitized(property.0)
                    && resolved(property.1, names) == Ok::<_, GenerateErrorView>(fields[k].ty)
                    && fields[k].optional == !requires_name(schema->required, property.0)
        }),
{
    let properties = schema->properties->0;
    let required = schema->required;
    let sorted = by_name(properties);
    let results = sorted.map_values(|p: (Seq<char>, SchemaView)| field_of(p, required, names));
    lemma_reported_is_among(results);
    lemma_by_name_rearranges(properties);
    let fields = struct_of(name, schema, names)->Ok_0.body->Record_0;
    assert(fields == values(results));
    let k = choose|k: int| 0 <= k < properties.len() && sorted[k] == properties[i];
    assert(results[k] is Ok);
    assert(fields[k] == results[k]->Ok_0);
}

/// The text `#/components/schemas/`.
pub open spec fn schemas_prefix() -> Seq<char> {
    "#/components/schemas/"@
}

/// A reference to a named schema resolves to the identifier under which the
/// data type of that schema is emitted.
pub proof fn law_reference_names_the_data_type(
    target: Seq<char>,
    schema: SchemaView,
    names: Seq<Seq<char>>,
)
    requires
        names.contains(target),
        !target.contains('/'),
    ensures
        resolved(SchemaView::Reference { ref_: schemas_prefix() + target }, names) == Ok::<
            _,
            GenerateErrorView,
        >(TypeExprView::Named(sanitized(target))),
        struct_of(target, schema, names) is Ok ==> struct_of(target, schema, names)->Ok_0.name
            == sanitized(target),
{
    let pointer = schemas_prefix() + target;
    let cut = schemas_prefix().len() as int;
    reveal_strlit("#/components/schemas/");
    assert(cut == 21);
    assert(pointer[cut - 1] == '/');
    assert forall|k: int| cut <= k < pointer.len() implies pointer[k] != '/' by {
        assert(pointer[k] == target[k - cut]);
        assert(target.contains(target[k - cut]));
    }
    lemma_last_segment_after(pointer, cut);
    assert(pointer.skip(cut) =~= target);
}

/// Two runs on one text hand back one thing: the module, or the failure, is
/// decided by the text and its syntax alone.
pub proof fn law_same_text_same_module(
    text: Seq<char>,
    syntax: Syntax,
    first: Result<Seq<char>, PipelineErrorView>,
    second: Result<Seq<char>, PipelineErrorView>,
)
    requires
        first == module_of_text(text, syntax),
        second == module_of_text(text, syntax),
    ensures
        first == second,
{
}

} // verus!
