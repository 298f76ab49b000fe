//! Queries over an authorization store: listing the objects a user reaches
//! and the users that reach an object, and the views of a model for people.

use vstd::prelude::*;

use crate::fga_dto::{
    LegacyModelResponse, LegacyModelType, ListObjectsRequest, ListObjectsResponse, ListUsersRequest, ListUsersResponse,
    ModelGraphEdge, ModelGraphNode, ModelGraphResponse, UserFilter,
};
use crate::fga_expr::{esize, expr_view, lemma_lsize_elem, lemma_views, lsize, views, RelExprV, RelationExpr};
use crate::fga_eval::{
    contextual_keys, holds, parse_contextual, request_world, tuple_views, Evaluator,
    lemma_parsed_views_are_tuple_views, check_fits, cache_settled, active_set,
};
use crate::fga_model::{
    AuthorizationModelWriteRequest, CompiledModel, CompiledRelationV, CompiledType, CompiledTypeV, TypeDefinition,
};
use crate::fga_refs::{
    clone_user_ref, spec_object_raw, spec_parse_object, spec_parse_user, spec_relation_name, spec_user_error, object_error_text,
    spec_user_raw, spec_user_type, FgaError, FgaErrorV, ObjectRef, ObjectRefV, ParsedTupleKey, TupleV, UserRef,
    UserRefV, user_well_formed, lemma_user_ref_round_trip,
};
use crate::fga_semantics::{val_rel, Truth, World};
use crate::fga_store::{
    key_lt, lemma_key_lt_irreflexive, lemma_key_lt_transitive, lemma_seq_lt_irreflexive, lemma_seq_lt_transitive,
    parsed_views, seq_lt, seq_lt_exec, spec_parse_all,
};
use crate::sorted_strings::{lemma_sorted_len, strictly_ascending, texts, SortedStrings};
use crate::fga_plan::{obj_plan, path_set, plan_objects, reachable_objects, upath_set, user_plan, UserPlanner};
use crate::text::{chars_of, concat3, copy_string, str_eq, str_to_string};

verus! {

/// How many distinct objects a listing may scan at most.
pub const LIST_SCAN_FALLBACK_LIMIT: usize = 10000;

/// Whether a user passes a listing filter: its type is the filter's, and
/// where the filter names a relation, it is a set of that relation.
pub open spec fn spec_user_matches_filter(u: UserRefV, f: UserFilter) -> bool {
    spec_user_type(u) == f.user_type@ && match f.relation {
        Some(r) => spec_relation_name(u) == Some(r@),
        None => true,
    }
}

/// Whether `user` passes `filter`.
pub fn user_matches_filter(user: &UserRef, filter: &UserFilter) -> (r: bool)
    ensures
        r == spec_user_matches_filter(user@, *filter),
{
    if !str_eq(user.user_type(), filter.user_type.as_str()) {
        return false;
    }
    match &filter.relation {
        None => true,
        Some(r) => match user.relation_name() {
            Some(n) => str_eq(n, r.as_str()),
            None => false,
        },
    }
}

/// The tuples a query reads: the stored ones, then the request's.
pub open spec fn all_tuples(stored: Seq<ParsedTupleKey>, contextual: Seq<ParsedTupleKey>) -> Seq<TupleV> {
    tuple_views(stored) + tuple_views(contextual)
}

/// The ids of the objects of type `t` among the tuples.
pub open spec fn object_ids_of_type(ts: Seq<TupleV>, t: Seq<char>) -> Set<Seq<char>> {
    Set::new(|id: Seq<char>| exists|i: int| 0 <= i < ts.len() && (#[trigger] ts[i]).object.object_type == t && ts[i].object.object_id == id)
}

fn collect_object_ids(
    tuples: &Vec<ParsedTupleKey>,
    object_type: &str,
    ids: &mut SortedStrings,
    ghost_prefix: Ghost<Seq<TupleV>>,
)
    requires
        old(ids).wf(),
        old(ids).contents() == object_ids_of_type(ghost_prefix@, object_type@),
    ensures
        final(ids).wf(),
        final(ids).contents() == object_ids_of_type(ghost_prefix@ + tuple_views(tuples@), object_type@),
{
    let ghost pre = ghost_prefix@;
    let mut i: usize = 0;
    while i < tuples.len()
        invariant
            i <= tuples@.len(),
            ids.wf(),
            ids.contents() == object_ids_of_type(pre + tuple_views(tuples@).subrange(0, i as int), object_type@),
        decreases tuples.len() - i,
    {
        let t = &tuples[i];
        let ghost before = pre + tuple_views(tuples@).subrange(0, i as int);
        let ghost after = pre + tuple_views(tuples@).subrange(0, i + 1);
        proof {
            assert(after =~= before.push(t@));
        }
        if str_eq(t.object.object_type.as_str(), object_type) {
            ids.insert(copy_string(&t.object.object_id));
            proof {
                assert forall|id: Seq<char>| object_ids_of_type(after, object_type@).contains(id) <==> object_ids_of_type(
                    before,
                    object_type@,
                ).insert(t@.object.object_id).contains(id) by {
                    if object_ids_of_type(after, object_type@).contains(id) {
                        let k = choose|k: int| 0 <= k < after.len() && (#[trigger] after[k]).object.object_type
                            == object_type@ && after[k].object.object_id == id;
                        if k < before.len() {
                            assert(before[k] == after[k]);
                        }
                    }
                    if object_ids_of_type(before, object_type@).contains(id) {
                        let k = choose|k: int| 0 <= k < before.len() && (#[trigger] before[k]).object.object_type
                            == object_type@ && before[k].object.object_id == id;
                        assert(after[k] == before[k]);
                    }
                    if id == t@.object.object_id {
                        assert(after[before.len() as int] == t@);
                    }
                }
                assert(object_ids_of_type(after, object_type@) =~= object_ids_of_type(before, object_type@).insert(
                    t@.object.object_id,
                ));
            }
        } else {
            proof {
                assert forall|id: Seq<char>| object_ids_of_type(after, object_type@).contains(id) <==> object_ids_of_type(
                    before,
                    object_type@,
                ).contains(id) by {
                    if object_ids_of_type(after, object_type@).contains(id) {
                        let k = choose|k: int| 0 <= k < after.len() && (#[trigger] after[k]).object.object_type
                            == object_type@ && after[k].object.object_id == id;
                        if k < before.len() {
                            assert(before[k] == after[k]);
                        }
                    }
                    if object_ids_of_type(before, object_type@).contains(id) {
                        let k = choose|k: int| 0 <= k < before.len() && (#[trigger] before[k]).object.object_type
                            == object_type@ && before[k].object.object_id == id;
                        assert(after[k] == before[k]);
                    }
                }
                assert(object_ids_of_type(after, object_type@) =~= object_ids_of_type(before, object_type@));
            }
        }
        i = i + 1;
    }
    assert(tuple_views(tuples@).subrange(0, tuples@.len() as int) =~= tuple_views(tuples@));
}

/// The ids of the objects of type `object_type` that the tuples mention, in
/// ascending order, each once.
pub fn candidate_object_ids(stored: &Vec<ParsedTupleKey>, contextual: &Vec<ParsedTupleKey>, object_type: &str) -> (r:
    SortedStrings)
    ensures
        r.wf(),
        r.contents() == object_ids_of_type(all_tuples(stored@, contextual@), object_type@),
{
    let mut ids = SortedStrings::new();
    proof {
        assert(ids.contents() =~= object_ids_of_type(Seq::<TupleV>::empty(), object_type@));
    }
    collect_object_ids(stored, object_type, &mut ids, Ghost(Seq::empty()));
    proof {
        assert(Seq::<TupleV>::empty() + tuple_views(stored@) =~= tuple_views(stored@));
    }
    collect_object_ids(contextual, object_type, &mut ids, Ghost(tuple_views(stored@)));
    ids
}

/// `raw` names an object of type `t` that `u` stands in relation `rel` to.
pub open spec fn lists_object(w: World, u: UserRefV, rel: Seq<char>, t: Seq<char>, raw: Seq<char>, o: ObjectRefV) -> bool {
    o.object_type == t && raw == spec_object_raw(o) && holds(w, u, rel, o)
}

pub open spec fn listed_object(w: World, u: UserRefV, rel: Seq<char>, t: Seq<char>, raw: Seq<char>) -> bool {
    exists|o: ObjectRefV| #[trigger] lists_object(w, u, rel, t, raw, o)
}

/// The check of every object of type `t` that the tuples mention fits
/// (see `check_fits`).
pub open spec fn object_candidates_fit(w: World, max: int, u: UserRefV, rel: Seq<char>, t: Seq<char>) -> bool {
    forall|id: Seq<char>|
        #[trigger] object_ids_of_type(w.tuples, t).contains(id) ==> check_fits(
            w,
            max,
            u,
            rel,
            ObjectRefV { object_type: t, object_id: id },
        )
}

pub open spec fn budget_text() -> Seq<char> {
    "list operation exceeds embedded planner budget"@
}

/// Lists the objects of a type that a user stands in a relation to, over the
/// stored tuples and the request's contextual tuples. The user and the
/// contextual tuples must parse, and the planner must accept the relation;
/// where it cannot plan the candidates, more than
/// `LIST_SCAN_FALLBACK_LIMIT` objects of the type are refused. The
/// candidates are the objects of the type that the tuples mention, in
/// ascending order; every object listed is one the user stands in the
/// relation to.
pub fn list_objects(
    model: &CompiledModel,
    stored: &Vec<ParsedTupleKey>,
    request: ListObjectsRequest,
    max_depth: usize,
) -> (r: Result<ListObjectsResponse, FgaError>)
    ensures
        match spec_parse_user(request.user@) {
            None => r matches Err(e) && e.is_bad_request(spec_user_error(request.user@)),
            Some(u) => match spec_parse_all(contextual_keys(request.contextual_tuples)) {
                Err(ce) => r matches Err(e) && e@ == ce,
                Ok(ctx) => match obj_plan(model@, Set::empty(), request.object_type@, request.relation@) {
                    Err(pe) => r matches Err(e) && e@ == pe,
                    Ok(planned) => {
                        &&& (!planned && object_ids_of_type(tuple_views(stored@) + ctx, request.object_type@).len()
                            > LIST_SCAN_FALLBACK_LIMIT) ==> (r matches Err(e) && e.is_unsupported(budget_text()))
                        &&& r matches Ok(resp) ==> strictly_ascending(texts(resp.objects@))
                        &&& r matches Ok(resp) ==> forall|i: int|
                            0 <= i < resp.objects@.len() ==> listed_object(
                                request_world(model@, stored@, ctx),
                                u,
                                request.relation@,
                                request.object_type@,
                                #[trigger] resp.objects@[i]@,
                            )
                        &&& (!(!planned && object_ids_of_type(tuple_views(stored@) + ctx, request.object_type@).len()
                            > LIST_SCAN_FALLBACK_LIMIT) && object_candidates_fit(
                            request_world(model@, stored@, ctx),
                            max_depth as int,
                            u,
                            request.relation@,
                            request.object_type@,
                        )) ==> (r matches Ok(resp) && forall|id: Seq<char>|
                            #[trigger] object_ids_of_type(tuple_views(stored@) + ctx, request.object_type@).contains(id)
                                && holds(
                                request_world(model@, stored@, ctx),
                                u,
                                request.relation@,
                                ObjectRefV { object_type: request.object_type@, object_id: id },
                            ) ==> texts(resp.objects@).contains(request.object_type@ + seq![':'] + id))
                    },
                },
            },
        },
{
    let user = match UserRef::parse(request.user.as_str()) {
        Ok(u) => u,
        Err(e) => {
            return Err(e);
        },
    };
    let contextual = match parse_contextual(request.contextual_tuples) {
        Ok(c) => c,
        Err(e) => {
            return Err(e);
        },
    };
    let ghost ctx = parsed_views(contextual@);
    proof {
        lemma_parsed_views_are_tuple_views(contextual@);
    }
    let empty: Vec<(String, String)> = Vec::new();
    proof {
        assert(path_set(empty@) =~= Set::<(Seq<char>, Seq<char>)>::empty());
    }
    let planned = match plan_objects(model, &empty, request.object_type.as_str(), request.relation.as_str()) {
        Ok(p) => p,
        Err(e) => {
            return Err(e);
        },
    };
    let ids = candidate_object_ids(stored, &contextual, request.object_type.as_str());
    proof {
        lemma_sorted_len(&ids);
        assert(all_tuples(stored@, contextual@) == tuple_views(stored@) + ctx);
    }
    if !planned && ids.items.len() > LIST_SCAN_FALLBACK_LIMIT {
        return Err(FgaError::Unsupported(str_to_string("list operation exceeds embedded planner budget")));
    }
    let mut ev = Evaluator::new(model, stored, &contextual, max_depth);
    let ghost wr = request_world(model@, stored@, ctx);
    let ghost prem = object_candidates_fit(wr, max_depth as int, user@, request.relation@, request.object_type@);
    let mut objects: Vec<String> = Vec::new();
    let mut i: usize = 0;
    while i < ids.items.len()
        invariant
            ev.inv(),
            ev.model == model,
            ev.stored == stored,
            ev.contextual == &contextual,
            ctx == tuple_views(contextual@),
            spec_parse_user(request.user@) == Some(user@),
            spec_parse_all(contextual_keys(request.contextual_tuples)) == Ok::<Seq<TupleV>, FgaErrorV>(ctx),
            obj_plan(model@, Set::empty(), request.object_type@, request.relation@) == Ok::<bool, FgaErrorV>(planned),
            !(!planned && object_ids_of_type(tuple_views(stored@) + ctx, request.object_type@).len()
                > LIST_SCAN_FALLBACK_LIMIT),
            ids.wf(),
            ids.contents() == object_ids_of_type(tuple_views(stored@) + ctx, request.object_type@),
            wr == request_world(model@, stored@, ctx),
            prem == object_candidates_fit(wr, max_depth as int, user@, request.relation@, request.object_type@),
            ev.max_depth == max_depth,
            prem ==> cache_settled(ev.decision_cache@) && ev.active@.len() == 0,
            prem ==> forall|j: int|
                0 <= j < i && holds(
                    wr,
                    user@,
                    request.relation@,
                    ObjectRefV { object_type: request.object_type@, object_id: #[trigger] ids.items@[j]@ },
                ) ==> texts(objects@).contains(request.object_type@ + seq![':'] + ids.items@[j]@),
            i <= ids.items@.len(),
            strictly_ascending(texts(objects@)),
            forall|k: int|
                0 <= k < objects@.len() ==> exists|j: int|
                    0 <= j < i && (#[trigger] objects@[k])@ == request.object_type@ + seq![':'] + ids.items@[j]@,
            forall|k: int|
                0 <= k < objects@.len() ==> listed_object(
                    request_world(model@, stored@, ctx),
                    user@,
                    request.relation@,
                    request.object_type@,
                    #[trigger] objects@[k]@,
                ),
        decreases ids.items.len() - i,
    {
        let object = ObjectRef { object_type: copy_string(&request.object_type), object_id: copy_string(&ids.items[i]) };
        proof {
            if prem {
                assert(texts(ids.items@)[i as int] == ids.items@[i as int]@);
                assert(ids.contents().contains(ids.items@[i as int]@));
                assert(wr.tuples == tuple_views(stored@) + ctx);
                assert(object_ids_of_type(wr.tuples, request.object_type@).contains(ids.items@[i as int]@));
                assert(object@ == ObjectRefV { object_type: request.object_type@, object_id: ids.items@[i as int]@ });
                assert(active_set(ev.active@) =~= Set::<(UserRefV, Seq<char>, ObjectRefV)>::empty());
                assert(ev.world() == wr);
            }
        }
        let ghost objects0 = objects@;
        let outcome = match ev.check(&user, request.relation.as_str(), &object, 0) {
            Ok(o) => o,
            Err(e) => {
                return Err(e);
            },
        };
        ev.record_request_issue(&user, request.relation.as_str(), &object, outcome);
        if outcome.is_allowed() {
            let raw = object.as_raw();
            proof {
                assert(val_rel(ev.world(), ev.fuel@, user@, request.relation@, object@) == Truth::Yes);
                assert(ev.world() == request_world(model@, stored@, ctx));
                assert(holds(request_world(model@, stored@, ctx), user@, request.relation@, object@));
            }
            let ghost before = objects@;
            let ghost prefix = request.object_type@ + seq![':'];
            proof {
                assert(raw@ == prefix + ids.items@[i as int]@);
                assert forall|k: int| 0 <= k < before.len() implies seq_lt(before[k]@, raw@) by {
                    let j = choose|j: int| 0 <= j < i && (#[trigger] before[k])@ == prefix + ids.items@[j]@;
                    assert(seq_lt(texts(ids.items@)[j], texts(ids.items@)[i as int]));
                    lemma_seq_lt_prefix(prefix, ids.items@[j]@, ids.items@[i as int]@);
                }
            }
            objects.push(raw);
            proof {
                assert forall|a: int, b: int| 0 <= a < b < texts(objects@).len() implies seq_lt(
                    #[trigger] texts(objects@)[a],
                    #[trigger] texts(objects@)[b],
                ) by {
                    if b < before.len() {
                        assert(texts(before)[a] == texts(objects@)[a]);
                        assert(texts(before)[b] == texts(objects@)[b]);
                    } else {
                        assert(objects@[a] == before[a]);
                    }
                }
                assert forall|k: int| 0 <= k < objects@.len() implies exists|j: int|
                    0 <= j < i + 1 && (#[trigger] objects@[k])@ == request.object_type@ + seq![':'] + ids.items@[j]@ by {
                    if k < before.len() {
                        assert(objects@[k] == before[k]);
                        let j = choose|j: int| 0 <= j < i && (#[trigger] before[k])@ == prefix + ids.items@[j]@;
                    } else {
                        assert(objects@[k]@ == prefix + ids.items@[i as int]@);
                    }
                }
                assert(lists_object(
                    request_world(model@, stored@, ctx),
                    user@,
                    request.relation@,
                    request.object_type@,
                    objects@[objects@.len() - 1]@,
                    object@,
                ));
                assert forall|k: int| 0 <= k < objects@.len() implies listed_object(
                    request_world(model@, stored@, ctx),
                    user@,
                    request.relation@,
                    request.object_type@,
                    #[trigger] objects@[k]@,
                ) by {
                    if k < before.len() {
                        assert(objects@[k] == before[k]);
                    }
                }
            }
        }
        proof {
            assert forall|k: int| 0 <= k < objects@.len() implies exists|j: int|
                0 <= j < i + 1 && (#[trigger] objects@[k])@ == request.object_type@ + seq![':'] + ids.items@[j]@ by {
                let j = choose|j: int| 0 <= j < i + 1 && (#[trigger] objects@[k])@ == request.object_type@ + seq![':'] + ids.items@[j]@;
            }
            if prem {
                assert forall|j: int|
                    0 <= j < i + 1 && holds(
                        wr,
                        user@,
                        request.relation@,
                        ObjectRefV { object_type: request.object_type@, object_id: #[trigger] ids.items@[j]@ },
                    ) implies texts(objects@).contains(request.object_type@ + seq![':'] + ids.items@[j]@) by {
                    if j < i {
                        let x = request.object_type@ + seq![':'] + ids.items@[j]@;
                        assert(texts(objects0).contains(x));
                        let k = choose|k: int| 0 <= k < texts(objects0).len() && texts(objects0)[k] == x;
                        assert(objects@[k] == objects0[k]);
                        assert(texts(objects@)[k] == x);
                    } else {
                        assert(outcome == crate::fga_eval::EvalOutcome::Allow);
                        let k = objects@.len() - 1;
                        assert(texts(objects@)[k] == request.object_type@ + seq![':'] + ids.items@[j]@);
                    }
                }
            }
        }
        i = i + 1;
    }
    Ok(ListObjectsResponse { objects })
}

/// `raw` names a user that passes one of the filters and stands in relation
/// `rel` to `o`.
pub open spec fn lists_user(
    w: World,
    o: ObjectRefV,
    rel: Seq<char>,
    filters: Seq<UserFilter>,
    raw: Seq<char>,
    u: UserRefV,
) -> bool {
    raw == spec_user_raw(u) && holds(w, u, rel, o) && exists|k: int|
        0 <= k < filters.len() && spec_user_matches_filter(u, #[trigger] filters[k])
}

pub open spec fn listed_user(w: World, o: ObjectRefV, rel: Seq<char>, filters: Seq<UserFilter>, raw: Seq<char>) -> bool {
    exists|u: UserRefV| #[trigger] lists_user(w, o, rel, filters, raw, u)
}

/// The raw texts of the users of the tuples that pass `f`.
pub open spec fn matching_raws(ts: Seq<TupleV>, f: UserFilter) -> Set<Seq<char>> {
    Set::new(
        |x: Seq<char>|
            exists|i: int|
                0 <= i < ts.len() && spec_user_matches_filter((#[trigger] ts[i]).user, f) && spec_user_raw(ts[i].user)
                    == x,
    )
}

/// Every tuple names a well-formed user, as parsing gives.
pub open spec fn tuple_users_well_formed(ts: Seq<TupleV>) -> bool {
    forall|i: int| 0 <= i < ts.len() ==> user_well_formed(#[trigger] ts[i].user)
}

/// The check of every user of the tuples that passes a filter fits (see
/// `check_fits`).
pub open spec fn user_candidates_fit(w: World, max: int, o: ObjectRefV, rel: Seq<char>, filters: Seq<UserFilter>) -> bool {
    forall|i: int, k: int|
        0 <= i < w.tuples.len() && 0 <= k < filters.len() && spec_user_matches_filter(
            (#[trigger] w.tuples[i]).user,
            #[trigger] filters[k],
        ) ==> check_fits(w, max, w.tuples[i].user, rel, o)
}

/// Every user of the tuples that passes one of the first `n` filters and
/// stands in the relation is among `found`.
pub open spec fn users_found(
    w: World,
    o: ObjectRefV,
    rel: Seq<char>,
    filters: Seq<UserFilter>,
    n: int,
    found: Set<Seq<char>>,
) -> bool {
    forall|i: int, k: int|
        0 <= i < w.tuples.len() && 0 <= k < n && spec_user_matches_filter((#[trigger] w.tuples[i]).user, #[trigger] filters[k])
            && holds(w, w.tuples[i].user, rel, o) ==> found.contains(spec_user_raw(w.tuples[i].user))
}

/// Every candidate is the user of one of the tuples `ts`.
pub open spec fn users_from(c: Seq<UserRef>, ts: Seq<TupleV>) -> bool {
    forall|j: int| 0 <= j < c.len() ==> exists|k: int| 0 <= k < ts.len() && (#[trigger] c[j])@ == ts[k].user
}

fn collect_users(
    tuples: &Vec<ParsedTupleKey>,
    filter: &UserFilter,
    seen: &mut SortedStrings,
    candidates: &mut Vec<UserRef>,
    Ghost(prefix): Ghost<Seq<TupleV>>,
)
    requires
        old(seen).wf(),
        old(seen).contents() == matching_raws(prefix, *filter),
        old(candidates)@.len() == old(seen).items@.len(),
        forall|j: int| 0 <= j < old(candidates)@.len() ==> spec_user_matches_filter(
            (#[trigger] old(candidates)@[j])@,
            *filter,
        ),
        users_from(old(candidates)@, prefix),
        forall|x: Seq<char>| #[trigger] old(seen).contents().contains(x) ==> exists|j: int|
            0 <= j < old(candidates)@.len() && spec_user_raw((#[trigger] old(candidates)@[j])@) == x,
    ensures
        final(seen).wf(),
        final(seen).contents() == matching_raws(prefix + tuple_views(tuples@), *filter),
        final(candidates)@.len() == final(seen).items@.len(),
        forall|j: int| 0 <= j < final(candidates)@.len() ==> spec_user_matches_filter(
            (#[trigger] final(candidates)@[j])@,
            *filter,
        ),
        users_from(final(candidates)@, prefix + tuple_views(tuples@)),
        forall|x: Seq<char>| #[trigger] final(seen).contents().contains(x) ==> exists|j: int|
            0 <= j < final(candidates)@.len() && spec_user_raw((#[trigger] final(candidates)@[j])@) == x,
{
    proof {
        assert(prefix + tuple_views(tuples@).subrange(0, 0) =~= prefix);
    }
    let mut i: usize = 0;
    while i < tuples.len()
        invariant
            i <= tuples@.len(),
            seen.wf(),
            seen.contents() == matching_raws(prefix + tuple_views(tuples@).subrange(0, i as int), *filter),
            candidates@.len() == seen.items@.len(),
            forall|j: int| 0 <= j < candidates@.len() ==> spec_user_matches_filter(
                (#[trigger] candidates@[j])@,
                *filter,
            ),
            users_from(candidates@, prefix + tuple_views(tuples@).subrange(0, i as int)),
            forall|x: Seq<char>| #[trigger] seen.contents().contains(x) ==> exists|j: int|
                0 <= j < candidates@.len() && spec_user_raw((#[trigger] candidates@[j])@) == x,
        decreases tuples.len() - i,
    {
        let t = &tuples[i];
        let ghost before = prefix + tuple_views(tuples@).subrange(0, i as int);
        let ghost after = prefix + tuple_views(tuples@).subrange(0, i + 1);
        proof {
            assert(after =~= before.push(t@));
        }
        let matched = user_matches_filter(&t.user, filter);
        let ghost target = if matched {
            matching_raws(before, *filter).insert(spec_user_raw(t@.user))
        } else {
            matching_raws(before, *filter)
        };
        proof {
            assert forall|x: Seq<char>| matching_raws(after, *filter).contains(x) <==> target.contains(x) by {
                if matching_raws(after, *filter).contains(x) {
                    let k = choose|k: int|
                        0 <= k < after.len() && spec_user_matches_filter((#[trigger] after[k]).user, *filter)
                            && spec_user_raw(after[k].user) == x;
                    if k < before.len() {
                        assert(before[k] == after[k]);
                    }
                }
                if matching_raws(before, *filter).contains(x) {
                    let k = choose|k: int|
                        0 <= k < before.len() && spec_user_matches_filter((#[trigger] before[k]).user, *filter)
                            && spec_user_raw(before[k].user) == x;
                    assert(after[k] == before[k]);
                }
                if matched && x == spec_user_raw(t@.user) {
                    assert(after[before.len() as int] == t@);
                }
            }
            assert(matching_raws(after, *filter) =~= target);
        }
        if matched {
            let raw = t.user.as_raw();
            if !seen.contains(raw.as_str()) {
                proof {
                    broadcast use vstd::seq_lib::seq_to_set_is_finite;
                    lemma_sorted_len(&*seen);
                }
                let ghost old_contents = seen.contents();
                seen.insert(raw);
                proof {
                    broadcast use vstd::seq_lib::seq_to_set_is_finite;
                    lemma_sorted_len(&*seen);
                    assert(old_contents.finite());
                    assert(seen.contents().len() == old_contents.len() + 1);
                }
                let ghost cbefore = candidates@;
                candidates.push(clone_user_ref(&t.user));
                proof {
                    assert forall|j: int| 0 <= j < candidates@.len() implies spec_user_matches_filter(
                        (#[trigger] candidates@[j])@,
                        *filter,
                    ) by {
                        if j < cbefore.len() {
                            assert(candidates@[j] == cbefore[j]);
                        }
                    }
                    assert forall|j: int| 0 <= j < candidates@.len() implies exists|k: int|
                        0 <= k < after.len() && (#[trigger] candidates@[j])@ == after[k].user by {
                        if j < cbefore.len() {
                            assert(candidates@[j] == cbefore[j]);
                            let k = choose|k: int| 0 <= k < before.len() && (#[trigger] cbefore[j])@ == before[k].user;
                            assert(after[k] == before[k]);
                        } else {
                            assert(after[before.len() as int] == t@);
                        }
                    }
                    assert(users_from(candidates@, after));
                    assert forall|x: Seq<char>| #[trigger] seen.contents().contains(x) implies exists|j: int|
                        0 <= j < candidates@.len() && spec_user_raw((#[trigger] candidates@[j])@) == x by {
                        if old_contents.contains(x) {
                            let j = choose|j: int| 0 <= j < cbefore.len() && spec_user_raw((#[trigger] cbefore[j])@) == x;
                            assert(candidates@[j] == cbefore[j]);
                        } else {
                            assert(x == raw@);
                            assert(candidates@[cbefore.len() as int]@ == t@.user);
                        }
                    }
                }
            } else {
                proof {
                    assert(seen.contents().insert(raw@) =~= seen.contents());
                }
            }
        }
        proof {
            if users_from(candidates@, before) {
                assert forall|j: int| 0 <= j < candidates@.len() implies exists|k: int|
                    0 <= k < after.len() && (#[trigger] candidates@[j])@ == after[k].user by {
                    let k = choose|k: int| 0 <= k < before.len() && (#[trigger] candidates@[j])@ == before[k].user;
                    assert(after[k] == before[k]);
                }
            }
            assert(after == prefix + tuple_views(tuples@).subrange(0, i + 1));
        }
        i = i + 1;
    }
    proof {
        assert(tuple_views(tuples@).subrange(0, tuples@.len() as int) =~= tuple_views(tuples@));
    }
}

/// Lists the users that stand in a relation to an object, over the stored
/// tuples and the request's contextual tuples: for each filter, the users of
/// the tuples that pass it are checked. The object and the contextual tuples
/// must parse; with a filter given, the planner must accept the relation,
/// and where it cannot plan the candidates, a filter passed by more than
/// `LIST_SCAN_FALLBACK_LIMIT` users is refused. The raw users listed are in
/// ascending order, each once, and each stands in the relation.
pub fn list_users(
    model: &CompiledModel,
    stored: &Vec<ParsedTupleKey>,
    request: ListUsersRequest,
    max_depth: usize,
) -> (r: Result<ListUsersResponse, FgaError>)
    ensures
        match spec_parse_object(request.object@) {
            None => r matches Err(e) && e.is_bad_request(object_error_text(request.object@)),
            Some(o) => match spec_parse_all(contextual_keys(request.contextual_tuples)) {
                Err(ce) => r matches Err(e) && e@ == ce,
                Ok(ctx) => {
                    &&& request.user_filters@.len() > 0 ==> match user_plan(
                        request_world(model@, stored@, ctx),
                        o,
                        Set::empty(),
                        o,
                        request.relation@,
                    ) {
                        Err(pe) => r matches Err(e) && e@ == pe,
                        Ok(planned) => (!planned && exists|k: int|
                            0 <= k < request.user_filters@.len() && matching_raws(
                                tuple_views(stored@) + ctx,
                                #[trigger] request.user_filters@[k],
                            ).len() > LIST_SCAN_FALLBACK_LIMIT) ==> r is Err,
                    }
                    &&& (tuple_users_well_formed(tuple_views(stored@) + ctx) && user_candidates_fit(
                        request_world(model@, stored@, ctx),
                        max_depth as int,
                        o,
                        request.relation@,
                        request.user_filters@,
                    ) && (request.user_filters@.len() > 0 ==> (user_plan(
                        request_world(model@, stored@, ctx),
                        o,
                        Set::empty(),
                        o,
                        request.relation@,
                    ) matches Ok(planned) && (planned || forall|k: int|
                        0 <= k < request.user_filters@.len() ==> matching_raws(
                            tuple_views(stored@) + ctx,
                            #[trigger] request.user_filters@[k],
                        ).len() <= LIST_SCAN_FALLBACK_LIMIT)))) ==> (r matches Ok(resp) && users_found(
                        request_world(model@, stored@, ctx),
                        o,
                        request.relation@,
                        request.user_filters@,
                        request.user_filters@.len() as int,
                        texts(resp.users@).to_set(),
                    ))
                    &&& r matches Ok(resp) ==> {
                        &&& crate::sorted_strings::strictly_ascending(texts(resp.users@))
                        &&& forall|i: int|
                            0 <= i < resp.users@.len() ==> listed_user(
                                request_world(model@, stored@, ctx),
                                o,
                                request.relation@,
                                request.user_filters@,
                                #[trigger] resp.users@[i]@,
                            )
                    }
                },
            },
        },
{
    let object = match ObjectRef::parse(request.object.as_str()) {
        Ok(o) => o,
        Err(e) => {
            return Err(e);
        },
    };
    let contextual = match parse_contextual(request.contextual_tuples) {
        Ok(c) => c,
        Err(e) => {
            return Err(e);
        },
    };
    let ghost ctx = parsed_views(contextual@);
    proof {
        lemma_parsed_views_are_tuple_views(contextual@);
    }
    let planner = UserPlanner { model, stored, contextual: &contextual, root: Ghost(object@) };
    let planned = if request.user_filters.len() > 0 {
        let empty: Vec<(ObjectRef, String)> = Vec::new();
        proof {
            assert(upath_set(empty@) =~= Set::<(ObjectRefV, Seq<char>)>::empty());
            assert(reachable_objects(planner.world().tuples, object@)[0] == object@);
        }
        match planner.plan(&empty, &object, request.relation.as_str()) {
            Ok(p) => p,
            Err(e) => {
                return Err(e);
            },
        }
    } else {
        true
    };
    let ghost w = request_world(model@, stored@, ctx);
    let ghost filters = request.user_filters@;
    let mut ev = Evaluator::new(model, stored, &contextual, max_depth);
    let ghost prem = tuple_users_well_formed(w.tuples) && user_candidates_fit(
        w,
        max_depth as int,
        object@,
        request.relation@,
        filters,
    );
    let mut users = SortedStrings::new();
    let mut f: usize = 0;
    while f < request.user_filters.len()
        invariant
            ev.inv(),
            ev.model == model,
            ev.stored == stored,
            ev.contextual == &contextual,
            ctx == tuple_views(contextual@),
            w == request_world(model@, stored@, ctx),
            filters == request.user_filters@,
            spec_parse_object(request.object@) == Some(object@),
            spec_parse_all(contextual_keys(request.contextual_tuples)) == Ok::<Seq<TupleV>, FgaErrorV>(ctx),
            users.wf(),
            forall|x: Seq<char>| #[trigger] users.contents().contains(x) ==> listed_user(w, object@, request.relation@, filters, x),
            f <= filters.len(),
            ev.max_depth == max_depth,
            prem == (tuple_users_well_formed(w.tuples) && user_candidates_fit(w, max_depth as int, object@, request.relation@, filters)),
            prem ==> cache_settled(ev.decision_cache@) && ev.active@.len() == 0,
            prem ==> users_found(w, object@, request.relation@, filters, f as int, users.contents()),
            request.user_filters@.len() > 0 ==> user_plan(
                request_world(model@, stored@, ctx),
                object@,
                Set::empty(),
                object@,
                request.relation@,
            ) == Ok::<bool, FgaErrorV>(planned),
            planned || forall|k: int|
                0 <= k < f ==> matching_raws(tuple_views(stored@) + ctx, #[trigger] filters[k]).len()
                    <= LIST_SCAN_FALLBACK_LIMIT,
        decreases request.user_filters.len() - f,
    {
        let filter = &request.user_filters[f];
        let mut seen = SortedStrings::new();
        let mut candidates: Vec<UserRef> = Vec::new();
        proof {
            assert(seen.contents() =~= matching_raws(Seq::<TupleV>::empty(), *filter));
        }
        collect_users(stored, filter, &mut seen, &mut candidates, Ghost(Seq::empty()));
        proof {
            assert(Seq::<TupleV>::empty() + tuple_views(stored@) =~= tuple_views(stored@));
        }
        collect_users(&contextual, filter, &mut seen, &mut candidates, Ghost(tuple_views(stored@)));
        proof {
            lemma_sorted_len(&seen);
            assert(*filter == filters[f as int]);
            assert(tuple_views(stored@) + tuple_views(contextual@) == w.tuples);
        }
        if !planned && candidates.len() > LIST_SCAN_FALLBACK_LIMIT {
            return Err(FgaError::Unsupported(str_to_string("list operation exceeds embedded planner budget")));
        }
        let mut i: usize = 0;
        while i < candidates.len()
            invariant
                ev.inv(),
                ev.model == model,
                ev.stored == stored,
                ev.contextual == &contextual,
                ctx == tuple_views(contextual@),
                w == request_world(model@, stored@, ctx),
                filters == request.user_filters@,
                0 <= f < filters.len(),
                *filter == filters[f as int],
                spec_parse_object(request.object@) == Some(object@),
                spec_parse_all(contextual_keys(request.contextual_tuples)) == Ok::<Seq<TupleV>, FgaErrorV>(ctx),
                planned || forall|k: int|
                    0 <= k <= f ==> matching_raws(tuple_views(stored@) + ctx, #[trigger] filters[k]).len()
                        <= LIST_SCAN_FALLBACK_LIMIT,
                request.user_filters@.len() > 0 ==> user_plan(
                    request_world(model@, stored@, ctx),
                    object@,
                    Set::empty(),
                    object@,
                    request.relation@,
                ) == Ok::<bool, FgaErrorV>(planned),
                forall|j: int| 0 <= j < candidates@.len() ==> spec_user_matches_filter(
                    (#[trigger] candidates@[j])@,
                    *filter,
                ),
                users.wf(),
                forall|x: Seq<char>| #[trigger] users.contents().contains(x) ==> listed_user(w, object@, request.relation@, filters, x),
                ev.max_depth == max_depth,
                prem == (tuple_users_well_formed(w.tuples) && user_candidates_fit(w, max_depth as int, object@, request.relation@, filters)),
                prem ==> cache_settled(ev.decision_cache@) && ev.active@.len() == 0,
                prem ==> users_found(w, object@, request.relation@, filters, f as int, users.contents()),
                prem ==> forall|j: int|
                    0 <= j < i && holds(w, (#[trigger] candidates@[j])@, request.relation@, object@) ==> users.contents().contains(
                        spec_user_raw(candidates@[j]@),
                    ),
                users_from(candidates@, w.tuples),
                i <= candidates@.len(),
            decreases candidates.len() - i,
        {
            let user = &candidates[i];
            proof {
                if prem {
                    let k = choose|k: int| 0 <= k < w.tuples.len() && (#[trigger] candidates@[i as int])@ == w.tuples[k].user;
                    assert(spec_user_matches_filter(w.tuples[k].user, filters[f as int]));
                    assert(check_fits(w, max_depth as int, w.tuples[k].user, request.relation@, object@));
                    assert(active_set(ev.active@) =~= Set::<(UserRefV, Seq<char>, ObjectRefV)>::empty());
                    assert(ev.world() == w);
                }
            }
            let ghost users0 = users.contents();
            let outcome = match ev.check(user, request.relation.as_str(), &object, 0) {
                Ok(o) => o,
                Err(e) => {
                    return Err(e);
                },
            };
            ev.record_request_issue(user, request.relation.as_str(), &object, outcome);
            if outcome.is_allowed() {
                let raw = user.as_raw();
                proof {
                    assert(val_rel(ev.world(), ev.fuel@, user@, request.relation@, object@) == Truth::Yes);
                    assert(ev.world() == w);
                    assert(holds(w, user@, request.relation@, object@));
                    assert(spec_user_matches_filter(candidates@[i as int]@, filters[f as int]));
                    assert(lists_user(w, object@, request.relation@, filters, raw@, user@));
                }
                let ghost before = users.contents();
                users.insert(raw);
            }
            proof {
                if prem {
                    assert(users0.subset_of(users.contents()));
                    assert forall|j: int|
                        0 <= j < i + 1 && holds(w, (#[trigger] candidates@[j])@, request.relation@, object@) implies users.contents().contains(
                            spec_user_raw(candidates@[j]@),
                        ) by {
                        if j < i {
                            assert(users0.contains(spec_user_raw(candidates@[j]@)));
                        }
                    }
                    assert forall|a: int, k: int|
                        0 <= a < w.tuples.len() && 0 <= k < f && spec_user_matches_filter((#[trigger] w.tuples[a]).user, #[trigger] filters[k])
                            && holds(w, w.tuples[a].user, request.relation@, object@) implies users.contents().contains(spec_user_raw(w.tuples[a].user)) by {
                        assert(users0.contains(spec_user_raw(w.tuples[a].user)));
                    }
                }
            }
            i = i + 1;
        }
        proof {
            if prem {
                assert forall|a: int, k: int|
                    0 <= a < w.tuples.len() && 0 <= k < f + 1 && spec_user_matches_filter((#[trigger] w.tuples[a]).user, #[trigger] filters[k])
                        && holds(w, w.tuples[a].user, request.relation@, object@) implies users.contents().contains(spec_user_raw(w.tuples[a].user)) by {
                    if k == f {
                        let u = w.tuples[a].user;
                        assert(matching_raws(w.tuples, filters[f as int]).contains(spec_user_raw(u)));
                        assert(seen.contents().contains(spec_user_raw(u)));
                        let j = choose|j: int| 0 <= j < candidates@.len() && spec_user_raw((#[trigger] candidates@[j])@) == spec_user_raw(u);
                        let k2 = choose|k2: int| 0 <= k2 < w.tuples.len() && (#[trigger] candidates@[j])@ == w.tuples[k2].user;
                        lemma_user_ref_round_trip(u);
                        lemma_user_ref_round_trip(candidates@[j]@);
                        assert(candidates@[j]@ == u);
                    }
                }
            }
        }
        f = f + 1;
    }
    proof {
        if prem {
            assert(users_found(w, object@, request.relation@, filters, filters.len() as int, users.contents()));
        }
    }
    let ghost held = users.contents();
    let ghost held_items = users.items@;
    let out = users.into_vec();
    proof {
        assert(out@ == held_items);
        assert forall|i: int| 0 <= i < out@.len() implies listed_user(
            w,
            object@,
            request.relation@,
            filters,
            #[trigger] out@[i]@,
        ) by {
            assert(texts(out@)[i] == out@[i]@);
            assert(texts(out@).to_set().contains(out@[i]@));
            assert(held.contains(out@[i]@));
        }
    }
    Ok(ListUsersResponse { users: out })
}

/// A rewrite of the model graph: from, to, relation text and kind.
pub type EdgeV = (Seq<char>, Seq<char>, Seq<char>, Seq<char>);

pub open spec fn edge_view(e: ModelGraphEdge) -> EdgeV {
    (e.from@, e.to@, e.relation@, e.kind@)
}

pub open spec fn edge_views(s: Seq<ModelGraphEdge>) -> Seq<EdgeV> {
    s.map_values(|e: ModelGraphEdge| edge_view(e))
}

/// The rewrites an expression of relation `rel` of type `t` shows: a
/// computed relation as `rel -> target`, a tuple-to-userset as
/// `tupleset->relation`, both from the type to itself; unions,
/// intersections and differences show those of their parts, in order.
pub open spec fn graph_edges(t: Seq<char>, rel: Seq<char>, e: RelExprV) -> Seq<EdgeV>
    decreases e,
{
    match e {
        RelExprV::This => Seq::empty(),
        RelExprV::Computed(target) => seq![(t, t, rel + " -> "@ + target, "computed_userset"@)],
        RelExprV::TupleToUserset(ts, cu) => seq![(t, t, ts + "->"@ + cu, "tuple_to_userset"@)],
        RelExprV::Union(c) => graph_edges_list(t, rel, c),
        RelExprV::Intersection(c) => graph_edges_list(t, rel, c),
        RelExprV::Difference(b, sub) => graph_edges(t, rel, *b) + graph_edges(t, rel, *sub),
    }
}

pub open spec fn graph_edges_list(t: Seq<char>, rel: Seq<char>, c: Seq<RelExprV>) -> Seq<EdgeV>
    decreases c,
{
    if c.len() == 0 {
        Seq::empty()
    } else {
        graph_edges_list(t, rel, c.drop_last()) + graph_edges(t, rel, c.last())
    }
}

fn graph_edge(from: &str, relation: String, kind: &str) -> (r: ModelGraphEdge)
    ensures
        edge_view(r) == (from@, from@, relation@, kind@),
{
    ModelGraphEdge { from: str_to_string(from), to: str_to_string(from), relation, kind: str_to_string(kind) }
}

/// Appends the rewrites of relation `relation` of type `object_type`.
pub fn collect_graph_edges(object_type: &str, relation: &str, expr: &RelationExpr, edges: &mut Vec<ModelGraphEdge>)
    ensures
        edge_views(final(edges)@) == edge_views(old(edges)@) + graph_edges(object_type@, relation@, expr_view(*expr)),
    decreases esize(expr_view(*expr)),
{
    let ghost start = edge_views(edges@);
    match expr {
        RelationExpr::This => {
            assert(edge_views(edges@) =~= start + Seq::<EdgeV>::empty());
        },
        RelationExpr::ComputedUserset { relation: target } => {
            edges.push(graph_edge(object_type, concat3(relation, " -> ", target.as_str()), "computed_userset"));
            assert(edge_views(edges@) =~= start + graph_edges(object_type@, relation@, expr_view(*expr)));
        },
        RelationExpr::TupleToUserset { tupleset, computed_userset } => {
            edges.push(
                graph_edge(object_type, concat3(tupleset.as_str(), "->", computed_userset.as_str()), "tuple_to_userset"),
            );
            assert(edge_views(edges@) =~= start + graph_edges(object_type@, relation@, expr_view(*expr)));
        },
        RelationExpr::Union { children } | RelationExpr::Intersection { children } => {
            let ghost cv = views(children@);
            proof {
                lemma_views(children@);
                assert(cv.subrange(0, 0) =~= Seq::<RelExprV>::empty());
                assert(edge_views(edges@) =~= start + graph_edges_list(object_type@, relation@, cv.subrange(0, 0)));
            }
            let mut i: usize = 0;
            while i < children.len()
                invariant
                    i <= children@.len(),
                    cv == views(children@),
                    cv.len() == children@.len(),
                    forall|j: int| 0 <= j < children@.len() ==> #[trigger] cv[j] == expr_view(children@[j]),
                    esize(expr_view(*expr)) == 1 + lsize(cv),
                    edge_views(edges@) == start + graph_edges_list(object_type@, relation@, cv.subrange(0, i as int)),
                decreases children.len() - i,
            {
                proof {
                    lemma_lsize_elem(cv, i as int);
                }
                collect_graph_edges(object_type, relation, &children[i], edges);
                proof {
                    let pre = cv.subrange(0, i as int + 1);
                    assert(pre.drop_last() =~= cv.subrange(0, i as int));
                    assert(pre.last() == cv[i as int]);
                }
                i = i + 1;
            }
            proof {
                assert(cv.subrange(0, cv.len() as int) =~= cv);
            }
        },
        RelationExpr::Difference { base, subtract } => {
            collect_graph_edges(object_type, relation, base, edges);
            collect_graph_edges(object_type, relation, subtract, edges);
            assert(edge_views(edges@) =~= start + graph_edges(object_type@, relation@, expr_view(*expr)));
        },
    }
}

pub type NodeV = (Seq<char>, Seq<Seq<char>>, Seq<Seq<char>>);

pub open spec fn node_view(n: ModelGraphNode) -> NodeV {
    (n.id@, texts(n.relations@), texts(n.permissions@))
}

pub open spec fn node_views(s: Seq<ModelGraphNode>) -> Seq<NodeV> {
    s.map_values(|n: ModelGraphNode| node_view(n))
}

/// The names of the relations, in order.
pub open spec fn relation_names(rels: Seq<CompiledRelationV>) -> Seq<Seq<char>> {
    rels.map_values(|r: CompiledRelationV| r.name)
}

/// The names of the relations that are computed rather than stored.
pub open spec fn permission_names(rels: Seq<CompiledRelationV>) -> Seq<Seq<char>>
    decreases rels.len(),
{
    if rels.len() == 0 {
        Seq::empty()
    } else {
        permission_names(rels.drop_last()) + if rels.last().expr is This {
            Seq::<Seq<char>>::empty()
        } else {
            seq![rels.last().name]
        }
    }
}

/// The node of a type: its name, its relations, and its computed ones.
pub open spec fn spec_node(t: CompiledTypeV) -> NodeV {
    (t.name, relation_names(t.relations), permission_names(t.relations))
}

/// The rewrites of the relations of a type, in order.
pub open spec fn relation_edges(t: Seq<char>, rels: Seq<CompiledRelationV>) -> Seq<EdgeV>
    decreases rels.len(),
{
    if rels.len() == 0 {
        Seq::empty()
    } else {
        relation_edges(t, rels.drop_last()) + graph_edges(t, rels.last().name, rels.last().expr)
    }
}

/// The rewrites of all types, in order.
pub open spec fn model_edges(types: Seq<CompiledTypeV>) -> Seq<EdgeV>
    decreases types.len(),
{
    if types.len() == 0 {
        Seq::empty()
    } else {
        model_edges(types.drop_last()) + relation_edges(types.last().name, types.last().relations)
    }
}

pub open spec fn edge_key(e: EdgeV) -> (Seq<char>, Seq<char>, Seq<char>) {
    (e.0, e.1, e.2)
}

/// Nodes in ascending order of their ids.
pub open spec fn nodes_sorted(s: Seq<NodeV>) -> bool {
    forall|i: int, j: int| 0 <= i < j < s.len() ==> !seq_lt(#[trigger] s[j].0, #[trigger] s[i].0)
}

/// Rewrites in ascending order of from, to and relation text.
pub open spec fn edges_sorted(s: Seq<EdgeV>) -> bool {
    forall|i: int, j: int| 0 <= i < j < s.len() ==> !key_lt(edge_key(#[trigger] s[j]), edge_key(#[trigger] s[i]))
}

fn insert_node(sorted: &mut Vec<ModelGraphNode>, n: ModelGraphNode)
    requires
        nodes_sorted(node_views(old(sorted)@)),
    ensures
        nodes_sorted(node_views(final(sorted)@)),
        node_views(final(sorted)@).to_multiset() == node_views(old(sorted)@).to_multiset().insert(node_view(n)),
{
    let ghost s0 = node_views(sorted@);
    let nv = chars_of(n.id.as_str());
    let mut p: usize = 0;
    while p < sorted.len()
        invariant
            p <= sorted@.len(),
            node_views(sorted@) == s0,
            nodes_sorted(s0),
            nv@ == n.id@,
            forall|j: int| 0 <= j < p ==> !seq_lt(n.id@, #[trigger] s0[j].0),
        ensures
            p <= sorted@.len(),
            node_views(sorted@) == s0,
            forall|j: int| 0 <= j < p ==> !seq_lt(n.id@, #[trigger] s0[j].0),
            p < sorted@.len() ==> seq_lt(n.id@, s0[p as int].0),
        decreases sorted.len() - p,
    {
        let iv = chars_of(sorted[p].id.as_str());
        if seq_lt_exec(nv.as_slice(), iv.as_slice()) {
            break;
        }
        p = p + 1;
    }
    let ghost x = node_view(n);
    sorted.insert(p, n);
    proof {
        let s1 = node_views(sorted@);
        assert(s1 =~= s0.insert(p as int, x));
        assert forall|i: int, j: int| 0 <= i < j < s1.len() implies !seq_lt(#[trigger] s1[j].0, #[trigger] s1[i].0) by {
            if j < p {
            } else if j == p {
                assert(s1[i] == s0[i]);
            } else if i == p {
                assert(s1[j] == s0[j - 1]);
                if seq_lt(s0[j - 1].0, x.0) {
                    if j - 1 == p {
                        lemma_seq_lt_transitive(x.0, s0[p as int].0, x.0);
                        lemma_seq_lt_irreflexive(x.0);
                    } else {
                        lemma_seq_lt_transitive(s0[j - 1].0, x.0, s0[p as int].0);
                        assert(!seq_lt(s0[j - 1].0, s0[p as int].0));
                    }
                }
            } else if i < p {
                assert(s1[i] == s0[i] && s1[j] == s0[j - 1]);
            } else {
                assert(s1[i] == s0[i - 1] && s1[j] == s0[j - 1]);
            }
        }
        vstd::seq_lib::to_multiset_insert(s0, p as int, x);
    }
}

fn insert_edge(sorted: &mut Vec<ModelGraphEdge>, e: ModelGraphEdge)
    requires
        edges_sorted(edge_views(old(sorted)@)),
    ensures
        edges_sorted(edge_views(final(sorted)@)),
        edge_views(final(sorted)@).to_multiset() == edge_views(old(sorted)@).to_multiset().insert(edge_view(e)),
{
    let ghost s0 = edge_views(sorted@);
    let ghost x = edge_view(e);
    let f = chars_of(e.from.as_str());
    let t = chars_of(e.to.as_str());
    let r = chars_of(e.relation.as_str());
    let mut p: usize = 0;
    while p < sorted.len()
        invariant
            p <= sorted@.len(),
            edge_views(sorted@) == s0,
            edges_sorted(s0),
            x == edge_view(e),
            f@ == e.from@,
            t@ == e.to@,
            r@ == e.relation@,
            forall|j: int| 0 <= j < p ==> !key_lt(edge_key(x), edge_key(#[trigger] s0[j])),
        ensures
            p <= sorted@.len(),
            edge_views(sorted@) == s0,
            forall|j: int| 0 <= j < p ==> !key_lt(edge_key(x), edge_key(#[trigger] s0[j])),
            p < sorted@.len() ==> key_lt(edge_key(x), edge_key(s0[p as int])),
        decreases sorted.len() - p,
    {
        let o = &sorted[p];
        let of = chars_of(o.from.as_str());
        let ot = chars_of(o.to.as_str());
        let or = chars_of(o.relation.as_str());
        let lt0 = seq_lt_exec(f.as_slice(), of.as_slice());
        let eq0 = str_eq(e.from.as_str(), o.from.as_str());
        let lt1 = seq_lt_exec(t.as_slice(), ot.as_slice());
        let eq1 = str_eq(e.to.as_str(), o.to.as_str());
        let lt2 = seq_lt_exec(r.as_slice(), or.as_slice());
        proof {
            assert(s0[p as int] == edge_view(*o));
        }
        if lt0 || (eq0 && (lt1 || (eq1 && lt2))) {
            break;
        }
        p = p + 1;
    }
    sorted.insert(p, e);
    proof {
        let s1 = edge_views(sorted@);
        assert(s1 =~= s0.insert(p as int, x));
        assert forall|i: int, j: int| 0 <= i < j < s1.len() implies !key_lt(
            edge_key(#[trigger] s1[j]),
            edge_key(#[trigger] s1[i]),
        ) by {
            if j < p {
            } else if j == p {
                assert(s1[i] == s0[i]);
            } else if i == p {
                assert(s1[j] == s0[j - 1]);
                if key_lt(edge_key(s0[j - 1]), edge_key(x)) {
                    if j - 1 == p {
                        lemma_key_lt_transitive(edge_key(x), edge_key(s0[p as int]), edge_key(x));
                        lemma_key_lt_irreflexive(edge_key(x));
                    } else {
                        lemma_key_lt_transitive(edge_key(s0[j - 1]), edge_key(x), edge_key(s0[p as int]));
                        assert(!key_lt(edge_key(s0[j - 1]), edge_key(s0[p as int])));
                    }
                }
            } else if i < p {
                assert(s1[i] == s0[i] && s1[j] == s0[j - 1]);
            } else {
                assert(s1[i] == s0[i - 1] && s1[j] == s0[j - 1]);
            }
        }
        vstd::seq_lib::to_multiset_insert(s0, p as int, x);
    }
}

fn copy_strings(v: &Vec<String>) -> (r: Vec<String>)
    ensures
        texts(r@) == texts(v@),
{
    let mut out: Vec<String> = Vec::new();
    let mut i: usize = 0;
    while i < v.len()
        invariant
            i <= v@.len(),
            texts(out@) == texts(v@).subrange(0, i as int),
        decreases v.len() - i,
    {
        let ghost before = out@;
        out.push(copy_string(&v[i]));
        proof {
            assert(out@ == before.push(out@.last()));
            assert(texts(out@) =~= texts(before).push(v@[i as int]@));
            assert(texts(out@) =~= texts(v@).subrange(0, i as int + 1));
        }
        i = i + 1;
    }
    assert(texts(v@).subrange(0, v@.len() as int) =~= texts(v@));
    out
}

fn type_node(t: &CompiledType) -> (r: ModelGraphNode)
    ensures
        node_view(r) == spec_node(t@),
{
    let ghost rv = t@.relations;
    let mut relations: Vec<String> = Vec::new();
    let mut permissions: Vec<String> = Vec::new();
    let mut i: usize = 0;
    proof {
        assert(rv.subrange(0, 0) =~= Seq::<CompiledRelationV>::empty());
        assert(texts(relations@) =~= relation_names(rv.subrange(0, 0)));
    }
    while i < t.relations.len()
        invariant
            i <= t.relations@.len(),
            rv == t@.relations,
            rv.len() == t.relations@.len(),
            forall|j: int| 0 <= j < rv.len() ==> #[trigger] rv[j] == t.relations@[j]@,
            texts(relations@) == relation_names(rv.subrange(0, i as int)),
            texts(permissions@) == permission_names(rv.subrange(0, i as int)),
        decreases t.relations.len() - i,
    {
        let rel = &t.relations[i];
        let ghost pre = rv.subrange(0, i as int + 1);
        proof {
            assert(pre.drop_last() =~= rv.subrange(0, i as int));
            assert(pre.last() == rel@);
        }
        let ghost rel_before = relations@;
        relations.push(copy_string(&rel.name));
        proof {
            assert(texts(relations@) =~= texts(rel_before).push(rel.name@));
            assert(relation_names(pre) =~= relation_names(rv.subrange(0, i as int)).push(rel@.name));
        }
        let computed = match rel.expr {
            RelationExpr::This => false,
            _ => true,
        };
        if computed {
            permissions.push(copy_string(&rel.name));
        }
        proof {
            assert(texts(relations@) =~= relation_names(pre));
            assert(texts(permissions@) =~= permission_names(pre));
        }
        i = i + 1;
    }
    proof {
        assert(rv.subrange(0, rv.len() as int) =~= rv);
    }
    ModelGraphNode { id: copy_string(&t.name), relations, permissions }
}

/// The graph of a model: a node per type with its relations and computed
/// relations, and the rewrites of every relation; nodes in ascending order
/// of their ids, rewrites in ascending order of from, to and relation text.
pub fn legacy_model_graph(model: &CompiledModel) -> (r: ModelGraphResponse)
    ensures
        nodes_sorted(node_views(r.nodes@)),
        node_views(r.nodes@).to_multiset() == model@.types.map_values(|t: CompiledTypeV| spec_node(t)).to_multiset(),
        edges_sorted(edge_views(r.edges@)),
        edge_views(r.edges@).to_multiset() == model_edges(model@.types).to_multiset(),
{
    let ghost tv = model@.types;
    let mut nodes: Vec<ModelGraphNode> = Vec::new();
    let mut edges: Vec<ModelGraphEdge> = Vec::new();
    let mut i: usize = 0;
    proof {
        assert(tv.subrange(0, 0) =~= Seq::<CompiledTypeV>::empty());
        assert(tv.subrange(0, 0).map_values(|t: CompiledTypeV| spec_node(t)) =~= Seq::<NodeV>::empty());
        assert(node_views(nodes@) =~= Seq::<NodeV>::empty());
        assert(edge_views(edges@) =~= Seq::<EdgeV>::empty());
    }
    while i < model.types.len()
        invariant
            i <= model.types@.len(),
            tv == model@.types,
            tv.len() == model.types@.len(),
            forall|j: int| 0 <= j < tv.len() ==> #[trigger] tv[j] == model.types@[j]@,
            nodes_sorted(node_views(nodes@)),
            node_views(nodes@).to_multiset() == tv.subrange(0, i as int).map_values(|t: CompiledTypeV| spec_node(t)).to_multiset(),
            edges_sorted(edge_views(edges@)),
            edge_views(edges@).to_multiset() == model_edges(tv.subrange(0, i as int)).to_multiset(),
        decreases model.types.len() - i,
    {
        let t = &model.types[i];
        let ghost pre = tv.subrange(0, i as int + 1);
        proof {
            assert(pre.drop_last() =~= tv.subrange(0, i as int));
            assert(pre.last() == t@);
            assert(pre.map_values(|t: CompiledTypeV| spec_node(t)) =~= tv.subrange(0, i as int).map_values(
                |t: CompiledTypeV| spec_node(t),
            ).push(spec_node(t@)));
            vstd::seq_lib::to_multiset_build(tv.subrange(0, i as int).map_values(|t: CompiledTypeV| spec_node(t)), spec_node(t@));
        }
        insert_node(&mut nodes, type_node(t));
        let mut own: Vec<ModelGraphEdge> = Vec::new();
        let ghost rv = t@.relations;
        let mut k: usize = 0;
        proof {
            assert(rv.subrange(0, 0) =~= Seq::<CompiledRelationV>::empty());
            assert(edge_views(own@) =~= relation_edges(t.name@, rv.subrange(0, 0)));
        }
        while k < t.relations.len()
            invariant
                k <= t.relations@.len(),
                rv == t@.relations,
                rv.len() == t.relations@.len(),
                forall|j: int| 0 <= j < rv.len() ==> #[trigger] rv[j] == t.relations@[j]@,
                edge_views(own@) == relation_edges(t.name@, rv.subrange(0, k as int)),
            decreases t.relations.len() - k,
        {
            let rel = &t.relations[k];
            proof {
                let p2 = rv.subrange(0, k as int + 1);
                assert(p2.drop_last() =~= rv.subrange(0, k as int));
                assert(p2.last() == rel@);
            }
            collect_graph_edges(t.name.as_str(), rel.name.as_str(), &rel.expr, &mut own);
            k = k + 1;
        }
        proof {
            assert(rv.subrange(0, rv.len() as int) =~= rv);
        }
        let ghost own_views = edge_views(own@);
        let ghost e_before = edge_views(edges@).to_multiset();
        let ghost mut m: int = 0;
        let mut rest = own;
        let ghost own_all = rest@;
        proof {
            assert(own_views.subrange(0, 0) =~= Seq::<EdgeV>::empty());
            vstd::seq_lib::to_multiset_len(Seq::<EdgeV>::empty());
            vstd::multiset::lemma_multiset_empty_len(Seq::<EdgeV>::empty().to_multiset());
            assert(e_before.add(vstd::multiset::Multiset::<EdgeV>::empty()) =~= e_before);
        }
        while rest.len() > 0
            invariant
                edges_sorted(edge_views(edges@)),
                edge_views(own_all) == own_views,
                0 <= m <= own_all.len(),
                own_all.len() == own_views.len(),
                rest@ == own_all.subrange(m as int, own_all.len() as int),
                edge_views(edges@).to_multiset() == e_before.add(own_views.subrange(0, m as int).to_multiset()),
            decreases rest.len(),
        {
            let e = rest.remove(0);
            proof {
                assert(e == own_all[m as int]);
                assert(own_views.subrange(0, m as int + 1) =~= own_views.subrange(0, m as int).push(edge_view(e)));
                vstd::seq_lib::to_multiset_build(own_views.subrange(0, m as int), edge_view(e));
            }
            insert_edge(&mut edges, e);
            proof {
                m = m + 1;
                assert(rest@ =~= own_all.subrange(m as int, own_all.len() as int));
            }
        }
        proof {
            assert(own_views.subrange(0, m as int) =~= own_views);
            assert(model_edges(pre) == model_edges(tv.subrange(0, i as int)) + relation_edges(t.name@, rv));
            vstd::seq_lib::lemma_multiset_commutative(model_edges(tv.subrange(0, i as int)), relation_edges(t.name@, rv));
        }
        i = i + 1;
    }
    proof {
        assert(tv.subrange(0, tv.len() as int) =~= tv);
    }
    ModelGraphResponse { nodes, edges }
}

/// The keys of a member list.
pub open spec fn member_keys(ms: Seq<crate::json::JsonMember>) -> Set<Seq<char>> {
    Set::new(|k: Seq<char>| exists|i: int| 0 <= i < ms.len() && (#[trigger] ms[i]).key@ == k)
}

/// A type of a stored model in the older listing form: its name and its
/// relation names, ascending and without repeats.
pub open spec fn legacy_type_is(t: LegacyModelType, td: TypeDefinition) -> bool {
    &&& t.name@ == td.object_type@
    &&& strictly_ascending(texts(t.relations@))
    &&& texts(t.relations@).to_set() == member_keys(td.relations@)
}

fn relation_names_sorted(ms: &Vec<crate::json::JsonMember>) -> (r: Vec<String>)
    ensures
        strictly_ascending(texts(r@)),
        texts(r@).to_set() == member_keys(ms@),
{
    let mut set = SortedStrings::new();
    let mut i: usize = 0;
    proof {
        assert(set.contents() =~= member_keys(ms@.subrange(0, 0)));
    }
    while i < ms.len()
        invariant
            i <= ms@.len(),
            set.wf(),
            set.contents() == member_keys(ms@.subrange(0, i as int)),
        decreases ms.len() - i,
    {
        set.insert(copy_string(&ms[i].key));
        proof {
            let pre = ms@.subrange(0, i as int);
            let next = ms@.subrange(0, i as int + 1);
            assert forall|k: Seq<char>| member_keys(next).contains(k) <==> member_keys(pre).insert(
                ms@[i as int].key@,
            ).contains(k) by {
                if member_keys(next).contains(k) {
                    let j = choose|j: int| 0 <= j < next.len() && (#[trigger] next[j]).key@ == k;
                    if j < i {
                        assert(pre[j] == next[j]);
                    }
                }
                if member_keys(pre).contains(k) {
                    let j = choose|j: int| 0 <= j < pre.len() && (#[trigger] pre[j]).key@ == k;
                    assert(next[j] == pre[j]);
                }
                if k == ms@[i as int].key@ {
                    assert(next[i as int] == ms@[i as int]);
                }
            }
            assert(member_keys(next) =~= member_keys(pre).insert(ms@[i as int].key@));
        }
        i = i + 1;
    }
    assert(ms@.subrange(0, ms@.len() as int) =~= ms@);
    set.into_vec()
}

/// A stored model in the older listing form: its schema version and, for
/// each type in order, its name and relation names.
pub fn legacy_model(model: &AuthorizationModelWriteRequest) -> (r: LegacyModelResponse)
    ensures
        r.schema_version@ == model.schema_version@,
        r.types@.len() == model.type_definitions@.len(),
        forall|i: int|
            0 <= i < r.types@.len() ==> legacy_type_is(#[trigger] r.types@[i], model.type_definitions@[i]),
{
    let mut types: Vec<LegacyModelType> = Vec::new();
    let mut i: usize = 0;
    while i < model.type_definitions.len()
        invariant
            i <= model.type_definitions@.len(),
            types@.len() == i,
            forall|j: int| 0 <= j < i ==> legacy_type_is(#[trigger] types@[j], model.type_definitions@[j]),
        decreases model.type_definitions.len() - i,
    {
        let td = &model.type_definitions[i];
        let relations = relation_names_sorted(&td.relations);
        types.push(LegacyModelType { name: copy_string(&td.object_type), relations });
        i = i + 1;
    }
    LegacyModelResponse { schema_version: copy_string(&model.schema_version), types }
}

/// A common prefix keeps the order of texts.
pub proof fn lemma_seq_lt_prefix(p: Seq<char>, a: Seq<char>, b: Seq<char>)
    requires
        seq_lt(a, b),
    ensures
        seq_lt(p + a, p + b),
    decreases p.len(),
{
    if p.len() > 0 {
        assert((p + a)[0] == p[0] && (p + b)[0] == p[0]);
        assert((p + a).drop_first() =~= p.drop_first() + a);
        assert((p + b).drop_first() =~= p.drop_first() + b);
        lemma_seq_lt_prefix(p.drop_first(), a, b);
    } else {
        assert(p + a =~= a);
        assert(p + b =~= b);
    }
}

/// A user passes a filter only if it is of the filter's user type, and, for
/// a filter naming a relation, a userset with that relation.
pub proof fn lemma_filter_fixes_type(u: UserRefV, f: UserFilter)
    requires
        spec_user_matches_filter(u, f),
    ensures
        spec_user_type(u) == f.user_type@,
        f.relation matches Some(r) ==> spec_relation_name(u) == Some(r@),
{
}

/// Every user that `list_users` may list is of the user type of one of the
/// request's filters.
pub proof fn lemma_listed_user_has_filter_type(
    w: World,
    o: ObjectRefV,
    rel: Seq<char>,
    filters: Seq<UserFilter>,
    raw: Seq<char>,
)
    requires
        listed_user(w, o, rel, filters, raw),
    ensures
        exists|u: UserRefV, k: int|
            0 <= k < filters.len() && raw == spec_user_raw(u) && #[trigger] spec_user_type(u) == (#[trigger] filters[k]).user_type@,
{
    let u = choose|u: UserRefV| #[trigger] lists_user(w, o, rel, filters, raw, u);
    let k = choose|k: int| 0 <= k < filters.len() && spec_user_matches_filter(u, #[trigger] filters[k]);
    assert(spec_user_type(u) == filters[k].user_type@);
}

} // verus!
