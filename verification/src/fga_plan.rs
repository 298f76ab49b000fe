//! The candidate planner of listings: whether the objects a user may reach
//! through a relation can be found from the model's rewrites and metadata,
//! or only by scanning every object of the type.

use vstd::prelude::*;

use crate::fga_model::{
    AllowedV, CandidateSource, CompiledModel, CompiledTypeV, ListPlan, SourceV, allowed_views, plan_view,
    spec_lookup, spec_plan, undefined_relation_text, find_relation, find_type,
};
use crate::fga_refs::{
    FgaError, FgaErrorV, ObjectRef, ObjectRefV, ParsedTupleKey, TupleV, UserRef, UserRefV, clone_object_ref, object_ref_eq,
};
use crate::fga_eval::tuple_views;
use crate::fga_semantics::World;
use crate::text::{copy_string, str_eq, str_to_string};

verus! {

/// The pairs of type and relation a model defines, type by type.
pub open spec fn model_pairs(types: Seq<CompiledTypeV>) -> Seq<(Seq<char>, Seq<char>)>
    decreases types.len(),
{
    if types.len() == 0 {
        Seq::empty()
    } else {
        model_pairs(types.drop_last()) + types.last().relations.map_values(
            |c: crate::fga_model::CompiledRelationV| (types.last().name, c.name),
        )
    }
}

/// How many entries of `pairs` are not on `path`.
pub open spec fn unvisited<A>(pairs: Seq<A>, path: Set<A>) -> nat
    decreases pairs.len(),
{
    if pairs.len() == 0 {
        0
    } else {
        unvisited(pairs.drop_last(), path) + if path.contains(pairs.last()) {
            0nat
        } else {
            1nat
        }
    }
}

pub proof fn lemma_pairs_contain(types: Seq<CompiledTypeV>, i: int, j: int)
    requires
        0 <= i < types.len(),
        0 <= j < types[i].relations.len(),
    ensures
        model_pairs(types).contains((types[i].name, types[i].relations[j].name)),
    decreases types.len(),
{
    let last = types.last();
    let tail = last.relations.map_values(|c: crate::fga_model::CompiledRelationV| (last.name, c.name));
    let pre = model_pairs(types.drop_last());
    if i == types.len() - 1 {
        assert((pre + tail)[pre.len() + j] == tail[j]);
    } else {
        lemma_pairs_contain(types.drop_last(), i, j);
        let k = choose|k: int| 0 <= k < pre.len() && pre[k] == (types[i].name, types[i].relations[j].name);
        assert((pre + tail)[k] == pre[k]);
    }
}

pub proof fn lemma_find_type_index(types: Seq<CompiledTypeV>, name: Seq<char>)
    ensures
        find_type(types, name) matches Some(t) ==> exists|i: int| 0 <= i < types.len() && types[i] == t,
    decreases types.len(),
{
    if types.len() > 0 && types[0].name != name {
        lemma_find_type_index(types.drop_first(), name);
        if let Some(t) = find_type(types, name) {
            let i = choose|i: int| 0 <= i < types.drop_first().len() && types.drop_first()[i] == t;
            assert(types[i + 1] == t);
        }
    }
}

pub proof fn lemma_find_relation_index(rels: Seq<crate::fga_model::CompiledRelationV>, name: Seq<char>)
    ensures
        find_relation(rels, name) matches Some(c) ==> exists|j: int| 0 <= j < rels.len() && rels[j] == c && c.name == name,
    decreases rels.len(),
{
    if rels.len() > 0 && rels[0].name != name {
        lemma_find_relation_index(rels.drop_first(), name);
        if let Some(c) = find_relation(rels, name) {
            let j = choose|j: int| 0 <= j < rels.drop_first().len() && rels.drop_first()[j] == c && c.name == name;
            assert(rels[j + 1] == c);
        }
    }
}

/// A relation the model defines is one of its pairs.
pub proof fn lemma_lookup_in_pairs(m: crate::fga_model::ModelV, t: Seq<char>, r: Seq<char>)
    requires
        spec_lookup(m, t, r) is Some,
    ensures
        model_pairs(m.types).contains((t, r)),
{
    lemma_find_type_index(m.types, t);
    let ty = find_type(m.types, t)->0;
    let i = choose|i: int| 0 <= i < m.types.len() && m.types[i] == ty;
    lemma_find_type_name(m.types, t);
    lemma_find_relation_index(ty.relations, r);
    let j = choose|j: int| 0 <= j < ty.relations.len() && ty.relations[j] == find_relation(ty.relations, r)->0
        && find_relation(ty.relations, r)->0.name == r;
    lemma_pairs_contain(m.types, i, j);
}

pub proof fn lemma_find_type_name(types: Seq<CompiledTypeV>, name: Seq<char>)
    ensures
        find_type(types, name) matches Some(t) ==> t.name == name,
    decreases types.len(),
{
    if types.len() > 0 && types[0].name != name {
        lemma_find_type_name(types.drop_first(), name);
    }
}

/// Putting a pair of `pairs` on the path leaves fewer pairs unvisited.
pub proof fn lemma_unvisited_insert<A>(pairs: Seq<A>, path: Set<A>, p: A)
    requires
        pairs.contains(p),
        !path.contains(p),
    ensures
        unvisited(pairs, path.insert(p)) < unvisited(pairs, path),
    decreases pairs.len(),
{
    if pairs.last() == p {
        lemma_unvisited_insert_le(pairs.drop_last(), path, p);
    } else {
        let k = choose|k: int| 0 <= k < pairs.len() && pairs[k] == p;
        assert(pairs.drop_last()[k] == p);
        lemma_unvisited_insert(pairs.drop_last(), path, p);
    }
}

pub proof fn lemma_unvisited_insert_le<A>(pairs: Seq<A>, path: Set<A>, p: A)
    ensures
        unvisited(pairs, path.insert(p)) <= unvisited(pairs, path),
    decreases pairs.len(),
{
    if pairs.len() > 0 {
        lemma_unvisited_insert_le(pairs.drop_last(), path, p);
    }
}

/// Whether the candidate objects of `t#r` for one user can be planned
/// (`true`) or need a scan (`false`), with the pairs on `path` being planned
/// already: a pair met again needs a scan; an undefined relation is an
/// error; otherwise the relation's plan decides, each of its sources in turn.
pub open spec fn obj_plan(m: crate::fga_model::ModelV, path: Set<(Seq<char>, Seq<char>)>, t: Seq<char>, r: Seq<char>) -> Result<
    bool,
    FgaErrorV,
>
    decreases unvisited(model_pairs(m.types), path), 0nat, 0nat,
{
    if path.contains((t, r)) {
        Ok(false)
    } else {
        match spec_lookup(m, t, r) {
            None => Err(FgaErrorV::BadRequest(undefined_relation_text(t, r))),
            Some(c) => match spec_plan(c.expr) {
                None => Ok(false),
                Some(sources) => {
                    proof {
                        lemma_lookup_in_pairs(m, t, r);
                        lemma_unvisited_insert(model_pairs(m.types), path, (t, r));
                    }
                    sources_plan(m, path.insert((t, r)), t, r, sources, 0)
                },
            },
        }
    }
}

/// The sources from the `k`-th on, in order; the first error or scan
/// decides.
pub open spec fn sources_plan(
    m: crate::fga_model::ModelV,
    path: Set<(Seq<char>, Seq<char>)>,
    t: Seq<char>,
    r: Seq<char>,
    ss: Seq<SourceV>,
    k: nat,
) -> Result<bool, FgaErrorV>
    decreases unvisited(model_pairs(m.types), path), 3nat, ss.len() - k,
{
    if k >= ss.len() {
        Ok(true)
    } else {
        match source_plan(m, path, t, r, ss[k as int]) {
            Err(e) => Err(e),
            Ok(false) => Ok(false),
            Ok(true) => sources_plan(m, path, t, r, ss, k + 1),
        }
    }
}

/// A tupleset relation whose users cannot be followed as objects: none
/// declared, or a wildcard or a userset among them.
pub open spec fn tupleset_blocked(al: Seq<AllowedV>) -> bool {
    al.len() == 0 || exists|i: int| 0 <= i < al.len() && ((#[trigger] al[i]).wildcard || al[i].relation is Some)
}

/// One source: the direct users need declared users, and each declared
/// userset planned; a computed userset its relation planned; a tuple to
/// userset followable tupleset users, each of whose types plans the
/// computed relation.
pub open spec fn source_plan(
    m: crate::fga_model::ModelV,
    path: Set<(Seq<char>, Seq<char>)>,
    t: Seq<char>,
    r: Seq<char>,
    s: SourceV,
) -> Result<bool, FgaErrorV>
    decreases unvisited(model_pairs(m.types), path), 2nat, 0nat,
{
    match s {
        SourceV::Direct => match spec_lookup(m, t, r) {
            None => Err(FgaErrorV::BadRequest(undefined_relation_text(t, r))),
            Some(c) => if c.allowed_direct_users.len() == 0 {
                Ok(false)
            } else {
                usersets_plan(m, path, c.allowed_direct_users, 0)
            },
        },
        SourceV::Computed(r2) => obj_plan(m, path, t, r2),
        SourceV::TupleToUserset(ts, cu) => match spec_lookup(m, t, ts) {
            None => Err(FgaErrorV::BadRequest(undefined_relation_text(t, ts))),
            Some(c) => if tupleset_blocked(c.allowed_direct_users) {
                Ok(false)
            } else {
                types_plan(m, path, c.allowed_direct_users, cu, 0)
            },
        },
    }
}

/// The declared usersets from the `k`-th on, each planned in turn.
pub open spec fn usersets_plan(
    m: crate::fga_model::ModelV,
    path: Set<(Seq<char>, Seq<char>)>,
    al: Seq<AllowedV>,
    k: nat,
) -> Result<bool, FgaErrorV>
    decreases unvisited(model_pairs(m.types), path), 1nat, al.len() - k,
{
    if k >= al.len() {
        Ok(true)
    } else {
        match al[k as int].relation {
            None => usersets_plan(m, path, al, k + 1),
            Some(rel) => match obj_plan(m, path, al[k as int].user_type, rel) {
                Err(e) => Err(e),
                Ok(false) => Ok(false),
                Ok(true) => usersets_plan(m, path, al, k + 1),
            },
        }
    }
}

/// The declared tupleset user types from the `k`-th on, each planning
/// relation `cu` in turn.
pub open spec fn types_plan(
    m: crate::fga_model::ModelV,
    path: Set<(Seq<char>, Seq<char>)>,
    al: Seq<AllowedV>,
    cu: Seq<char>,
    k: nat,
) -> Result<bool, FgaErrorV>
    decreases unvisited(model_pairs(m.types), path), 1nat, al.len() - k,
{
    if k >= al.len() {
        Ok(true)
    } else {
        match obj_plan(m, path, al[k as int].user_type, cu) {
            Err(e) => Err(e),
            Ok(false) => Ok(false),
            Ok(true) => types_plan(m, path, al, cu, k + 1),
        }
    }
}

/// The pairs on an exec path.
pub open spec fn path_set(v: Seq<(String, String)>) -> Set<(Seq<char>, Seq<char>)> {
    Set::new(|p: (Seq<char>, Seq<char>)| exists|i: int| 0 <= i < v.len() && (#[trigger] v[i].0)@ == p.0 && v[i].1@ == p.1)
}

fn path_contains(path: &Vec<(String, String)>, t: &str, r: &str) -> (b: bool)
    ensures
        b == path_set(path@).contains((t@, r@)),
{
    let mut i: usize = 0;
    while i < path.len()
        invariant
            i <= path@.len(),
            forall|j: int| 0 <= j < i ==> !((#[trigger] path@[j].0)@ == t@ && path@[j].1@ == r@),
        decreases path.len() - i,
    {
        if str_eq(path[i].0.as_str(), t) && str_eq(path[i].1.as_str(), r) {
            assert(path_set(path@).contains((t@, r@)));
            return true;
        }
        i = i + 1;
    }
    false
}

fn path_with(path: &Vec<(String, String)>, t: &str, r: &str) -> (out: Vec<(String, String)>)
    ensures
        path_set(out@) == path_set(path@).insert((t@, r@)),
{
    let mut out: Vec<(String, String)> = Vec::new();
    let mut i: usize = 0;
    while i < path.len()
        invariant
            i <= path@.len(),
            out@.len() == i,
            forall|j: int| 0 <= j < i ==> (#[trigger] out@[j].0)@ == path@[j].0@ && out@[j].1@ == path@[j].1@,
        decreases path.len() - i,
    {
        out.push((copy_string(&path[i].0), copy_string(&path[i].1)));
        i = i + 1;
    }
    let ghost pre = out@;
    out.push((str_to_string(t), str_to_string(r)));
    proof {
        let n = path@.len() as int;
        assert forall|j: int| 0 <= j < n implies out@[j] == pre[j] by {}
        assert forall|p: (Seq<char>, Seq<char>)| path_set(out@).contains(p) <==> path_set(path@).insert((t@, r@)).contains(p) by {
            if path_set(out@).contains(p) {
                let j = choose|j: int| 0 <= j < out@.len() && (#[trigger] out@[j].0)@ == p.0 && out@[j].1@ == p.1;
                if j < n {
                    assert(path@[j].0@ == p.0 && path@[j].1@ == p.1);
                }
            }
            if path_set(path@).contains(p) {
                let j = choose|j: int| 0 <= j < path@.len() && (#[trigger] path@[j].0)@ == p.0 && path@[j].1@ == p.1;
                assert(out@[j].0@ == p.0 && out@[j].1@ == p.1);
            }
            if p == (t@, r@) {
                assert(out@[n].0@ == p.0 && out@[n].1@ == p.1);
            }
        }
        assert(path_set(out@) =~= path_set(path@).insert((t@, r@)));
    }
    out
}

/// Whether the candidate objects of `object_type#relation` can be planned
/// with the pairs on `path` planned already: `Ok(false)` where only a scan
/// of all objects of the type will find them.
pub fn plan_objects(model: &CompiledModel, path: &Vec<(String, String)>, object_type: &str, relation: &str) -> (r:
    Result<bool, FgaError>)
    ensures
        match r {
            Ok(b) => obj_plan(model@, path_set(path@), object_type@, relation@) == Ok::<bool, FgaErrorV>(b),
            Err(e) => obj_plan(model@, path_set(path@), object_type@, relation@) == Err::<bool, FgaErrorV>(e@),
        },
    decreases unvisited(model_pairs(model@.types), path_set(path@)), 0nat, 0nat,
{
    if path_contains(path, object_type, relation) {
        return Ok(false);
    }
    let plan = match model.list_plan(object_type, relation) {
        Ok(p) => p,
        Err(e) => {
            return Err(e);
        },
    };
    match plan {
        ListPlan::ScanFallback => Ok(false),
        ListPlan::Planned { sources } => {
            let ghost ss = plan_view(ListPlan::Planned { sources: sources });
            let inner = path_with(path, object_type, relation);
            proof {
                lemma_lookup_in_pairs(model@, object_type@, relation@);
                lemma_unvisited_insert(model_pairs(model@.types), path_set(path@), (object_type@, relation@));
            }
            plan_sources(model, &inner, object_type, relation, &sources)
        },
    }
}

fn plan_sources(
    model: &CompiledModel,
    path: &Vec<(String, String)>,
    object_type: &str,
    relation: &str,
    sources: &Vec<CandidateSource>,
) -> (r: Result<bool, FgaError>)
    ensures
        match r {
            Ok(b) => sources_plan(
                model@,
                path_set(path@),
                object_type@,
                relation@,
                crate::fga_model::source_views(sources@),
                0,
            ) == Ok::<bool, FgaErrorV>(b),
            Err(e) => sources_plan(
                model@,
                path_set(path@),
                object_type@,
                relation@,
                crate::fga_model::source_views(sources@),
                0,
            ) == Err::<bool, FgaErrorV>(e@),
        },
    decreases unvisited(model_pairs(model@.types), path_set(path@)), 3nat, sources@.len(),
{
    let ghost ss = crate::fga_model::source_views(sources@);
    let mut k: usize = 0;
    while k < sources.len()
        invariant
            k <= sources@.len(),
            ss == crate::fga_model::source_views(sources@),
            ss.len() == sources@.len(),
            sources_plan(model@, path_set(path@), object_type@, relation@, ss, 0) == sources_plan(
                model@,
                path_set(path@),
                object_type@,
                relation@,
                ss,
                k as nat,
            ),
        decreases sources.len() - k,
    {
        proof {
            assert(ss[k as int] == sources@[k as int]@);
        }
        match plan_source(model, path, object_type, relation, &sources[k]) {
            Err(e) => {
                return Err(e);
            },
            Ok(false) => {
                return Ok(false);
            },
            Ok(true) => {},
        }
        k = k + 1;
    }
    Ok(true)
}

fn plan_source(
    model: &CompiledModel,
    path: &Vec<(String, String)>,
    object_type: &str,
    relation: &str,
    source: &CandidateSource,
) -> (r: Result<bool, FgaError>)
    ensures
        match r {
            Ok(b) => source_plan(model@, path_set(path@), object_type@, relation@, source@) == Ok::<bool, FgaErrorV>(b),
            Err(e) => source_plan(model@, path_set(path@), object_type@, relation@, source@) == Err::<bool, FgaErrorV>(e@),
        },
    decreases unvisited(model_pairs(model@.types), path_set(path@)), 2nat, 0nat,
{
    match source {
        CandidateSource::Direct => {
            let c = match model.relation(object_type, relation) {
                Ok(c) => c,
                Err(e) => {
                    return Err(e);
                },
            };
            if c.allowed_direct_users.len() == 0 {
                return Ok(false);
            }
            plan_usersets(model, path, &c.allowed_direct_users)
        },
        CandidateSource::ComputedUserset { relation: computed } => plan_objects(
            model,
            path,
            object_type,
            computed.as_str(),
        ),
        CandidateSource::TupleToUserset { tupleset, computed_userset } => {
            let c = match model.relation(object_type, tupleset.as_str()) {
                Ok(c) => c,
                Err(e) => {
                    return Err(e);
                },
            };
            let al = &c.allowed_direct_users;
            if al.len() == 0 || blocked_users(al) {
                return Ok(false);
            }
            plan_types(model, path, al, computed_userset.as_str())
        },
    }
}

fn blocked_users(al: &Vec<crate::fga_model::AllowedDirectUser>) -> (b: bool)
    ensures
        b == exists|i: int|
            0 <= i < allowed_views(al@).len() && ((#[trigger] allowed_views(al@)[i]).wildcard || allowed_views(
                al@,
            )[i].relation is Some),
{
    let ghost alv = allowed_views(al@);
    let mut i: usize = 0;
    while i < al.len()
        invariant
            i <= al@.len(),
            alv == allowed_views(al@),
            alv.len() == al@.len(),
            forall|j: int| 0 <= j < i ==> !((#[trigger] alv[j]).wildcard || alv[j].relation is Some),
        decreases al.len() - i,
    {
        proof {
            assert(alv[i as int] == al@[i as int]@);
        }
        if al[i].wildcard || al[i].is_userset() {
            return true;
        }
        i = i + 1;
    }
    false
}

fn plan_usersets(model: &CompiledModel, path: &Vec<(String, String)>, al: &Vec<crate::fga_model::AllowedDirectUser>) -> (r:
    Result<bool, FgaError>)
    ensures
        match r {
            Ok(b) => usersets_plan(model@, path_set(path@), allowed_views(al@), 0) == Ok::<bool, FgaErrorV>(b),
            Err(e) => usersets_plan(model@, path_set(path@), allowed_views(al@), 0) == Err::<bool, FgaErrorV>(e@),
        },
    decreases unvisited(model_pairs(model@.types), path_set(path@)), 1nat, al@.len() + 1,
{
    let ghost alv = allowed_views(al@);
    let mut k: usize = 0;
    while k < al.len()
        invariant
            k <= al@.len(),
            alv == allowed_views(al@),
            alv.len() == al@.len(),
            usersets_plan(model@, path_set(path@), alv, 0) == usersets_plan(model@, path_set(path@), alv, k as nat),
        decreases al.len() - k,
    {
        proof {
            assert(alv[k as int] == al@[k as int]@);
        }
        match &al[k].relation {
            None => {},
            Some(rel) => {
                match plan_objects(model, path, al[k].user_type.as_str(), rel.as_str()) {
                    Err(e) => {
                        return Err(e);
                    },
                    Ok(false) => {
                        return Ok(false);
                    },
                    Ok(true) => {},
                }
            },
        }
        k = k + 1;
    }
    Ok(true)
}

fn plan_types(
    model: &CompiledModel,
    path: &Vec<(String, String)>,
    al: &Vec<crate::fga_model::AllowedDirectUser>,
    computed: &str,
) -> (r: Result<bool, FgaError>)
    ensures
        match r {
            Ok(b) => types_plan(model@, path_set(path@), allowed_views(al@), computed@, 0) == Ok::<bool, FgaErrorV>(b),
            Err(e) => types_plan(model@, path_set(path@), allowed_views(al@), computed@, 0) == Err::<bool, FgaErrorV>(e@),
        },
    decreases unvisited(model_pairs(model@.types), path_set(path@)), 1nat, al@.len() + 1,
{
    let ghost alv = allowed_views(al@);
    let mut k: usize = 0;
    while k < al.len()
        invariant
            k <= al@.len(),
            alv == allowed_views(al@),
            alv.len() == al@.len(),
            types_plan(model@, path_set(path@), alv, computed@, 0) == types_plan(
                model@,
                path_set(path@),
                alv,
                computed@,
                k as nat,
            ),
        decreases al.len() - k,
    {
        proof {
            assert(alv[k as int] == al@[k as int]@);
        }
        match plan_objects(model, path, al[k].user_type.as_str(), computed) {
            Err(e) => {
                return Err(e);
            },
            Ok(false) => {
                return Ok(false);
            },
            Ok(true) => {},
        }
        k = k + 1;
    }
    Ok(true)
}

/// The object a user names; a wildcard names none, and stands for `o0`.
pub open spec fn user_object(u: UserRefV, o0: ObjectRefV) -> ObjectRefV {
    match u {
        UserRefV::Object(o) => o,
        UserRefV::Userset(o, _) => o,
        UserRefV::Wildcard(_) => o0,
    }
}

/// The objects a user listing of `o0` can reach: `o0` and the objects the
/// users of the tuples name.
pub open spec fn reachable_objects(ts: Seq<TupleV>, o0: ObjectRefV) -> Seq<ObjectRefV> {
    seq![o0] + ts.map_values(|t: TupleV| user_object(t.user, o0))
}

/// Each object with each relation name of the pairs.
pub open spec fn object_keys(os: Seq<ObjectRefV>, pairs: Seq<(Seq<char>, Seq<char>)>) -> Seq<(ObjectRefV, Seq<char>)>
    decreases os.len(),
{
    if os.len() == 0 {
        Seq::empty()
    } else {
        object_keys(os.drop_last(), pairs) + pairs.map_values(|p: (Seq<char>, Seq<char>)| (os.last(), p.1))
    }
}

pub open spec fn user_universe(w: World, o0: ObjectRefV) -> Seq<(ObjectRefV, Seq<char>)> {
    object_keys(reachable_objects(w.tuples, o0), model_pairs(w.model.types))
}

pub proof fn lemma_object_keys_contain(os: Seq<ObjectRefV>, pairs: Seq<(Seq<char>, Seq<char>)>, i: int, j: int)
    requires
        0 <= i < os.len(),
        0 <= j < pairs.len(),
    ensures
        object_keys(os, pairs).contains((os[i], pairs[j].1)),
    decreases os.len(),
{
    let pre = object_keys(os.drop_last(), pairs);
    let tail = pairs.map_values(|p: (Seq<char>, Seq<char>)| (os.last(), p.1));
    if i == os.len() - 1 {
        assert((pre + tail)[pre.len() + j] == tail[j]);
    } else {
        lemma_object_keys_contain(os.drop_last(), pairs, i, j);
        let k = choose|k: int| 0 <= k < pre.len() && pre[k] == (os[i], pairs[j].1);
        assert((pre + tail)[k] == pre[k]);
    }
}

/// A reachable object with a relation its type defines is in the universe.
pub proof fn lemma_in_user_universe(w: World, o0: ObjectRefV, o: ObjectRefV, r: Seq<char>)
    requires
        reachable_objects(w.tuples, o0).contains(o),
        spec_lookup(w.model, o.object_type, r) is Some,
    ensures
        user_universe(w, o0).contains((o, r)),
{
    let os = reachable_objects(w.tuples, o0);
    let pairs = model_pairs(w.model.types);
    lemma_lookup_in_pairs(w.model, o.object_type, r);
    let i = choose|i: int| 0 <= i < os.len() && os[i] == o;
    let j = choose|j: int| 0 <= j < pairs.len() && pairs[j] == (o.object_type, r);
    lemma_object_keys_contain(os, pairs, i, j);
}

/// Whether the candidate users of `o#r` can be planned (`true`) or need a
/// scan (`false`), with the keys on `path` being planned already: a key met
/// again needs a scan; an undefined relation is an error; otherwise the
/// relation's plan decides, each of its sources in turn.
pub open spec fn user_plan(w: World, o0: ObjectRefV, path: Set<(ObjectRefV, Seq<char>)>, o: ObjectRefV, r: Seq<char>) -> Result<
    bool,
    FgaErrorV,
>
    decreases unvisited(user_universe(w, o0), path), 0nat, 0nat,
    when reachable_objects(w.tuples, o0).contains(o)
{
    if path.contains((o, r)) {
        Ok(false)
    } else {
        match spec_lookup(w.model, o.object_type, r) {
            None => Err(FgaErrorV::BadRequest(undefined_relation_text(o.object_type, r))),
            Some(c) => match spec_plan(c.expr) {
                None => Ok(false),
                Some(ss) => {
                    proof {
                        lemma_in_user_universe(w, o0, o, r);
                        lemma_unvisited_insert(user_universe(w, o0), path, (o, r));
                    }
                    usources_plan(w, o0, path.insert((o, r)), o, r, ss, 0)
                },
            },
        }
    }
}

pub open spec fn usources_plan(
    w: World,
    o0: ObjectRefV,
    path: Set<(ObjectRefV, Seq<char>)>,
    o: ObjectRefV,
    r: Seq<char>,
    ss: Seq<SourceV>,
    k: nat,
) -> Result<bool, FgaErrorV>
    decreases unvisited(user_universe(w, o0), path), 3nat, ss.len() - k,
{
    if k >= ss.len() {
        Ok(true)
    } else {
        match usource_plan(w, o0, path, o, r, ss[k as int]) {
            Err(e) => Err(e),
            Ok(false) => Ok(false),
            Ok(true) => usources_plan(w, o0, path, o, r, ss, k + 1),
        }
    }
}

/// One source: the direct tuples need each userset they name planned; a
/// computed userset its relation planned; a tuple to userset tuples whose
/// users are objects, each planning the computed relation.
pub open spec fn usource_plan(
    w: World,
    o0: ObjectRefV,
    path: Set<(ObjectRefV, Seq<char>)>,
    o: ObjectRefV,
    r: Seq<char>,
    s: SourceV,
) -> Result<bool, FgaErrorV>
    decreases unvisited(user_universe(w, o0), path), 2nat, 0nat,
{
    match s {
        SourceV::Direct => udirect_plan(w, o0, path, o, r, 0),
        SourceV::Computed(r2) => user_plan(w, o0, path, o, r2),
        SourceV::TupleToUserset(ts, cu) => uttu_plan(w, o0, path, o, ts, cu, 0),
    }
}

pub open spec fn udirect_plan(
    w: World,
    o0: ObjectRefV,
    path: Set<(ObjectRefV, Seq<char>)>,
    o: ObjectRefV,
    r: Seq<char>,
    k: nat,
) -> Result<bool, FgaErrorV>
    decreases unvisited(user_universe(w, o0), path), 1nat, w.tuples.len() - k,
{
    if k >= w.tuples.len() {
        Ok(true)
    } else {
        let t = w.tuples[k as int];
        if t.object == o && t.relation == r {
            match t.user {
                UserRefV::Userset(no, nr) => match user_plan(w, o0, path, no, nr) {
                    Err(e) => Err(e),
                    Ok(false) => Ok(false),
                    Ok(true) => udirect_plan(w, o0, path, o, r, k + 1),
                },
                _ => udirect_plan(w, o0, path, o, r, k + 1),
            }
        } else {
            udirect_plan(w, o0, path, o, r, k + 1)
        }
    }
}

pub open spec fn uttu_plan(
    w: World,
    o0: ObjectRefV,
    path: Set<(ObjectRefV, Seq<char>)>,
    o: ObjectRefV,
    ts: Seq<char>,
    cu: Seq<char>,
    k: nat,
) -> Result<bool, FgaErrorV>
    decreases unvisited(user_universe(w, o0), path), 1nat, w.tuples.len() - k,
{
    if k >= w.tuples.len() {
        Ok(true)
    } else {
        let t = w.tuples[k as int];
        if t.object == o && t.relation == ts {
            match t.user {
                UserRefV::Object(target) => match user_plan(w, o0, path, target, cu) {
                    Err(e) => Err(e),
                    Ok(false) => Ok(false),
                    Ok(true) => uttu_plan(w, o0, path, o, ts, cu, k + 1),
                },
                _ => Ok(false),
            }
        } else {
            uttu_plan(w, o0, path, o, ts, cu, k + 1)
        }
    }
}

/// The keys on an exec path of a user listing.
pub open spec fn upath_set(v: Seq<(ObjectRef, String)>) -> Set<(ObjectRefV, Seq<char>)> {
    Set::new(|p: (ObjectRefV, Seq<char>)| exists|i: int| 0 <= i < v.len() && (#[trigger] v[i].0)@ == p.0 && v[i].1@ == p.1)
}

fn upath_contains(path: &Vec<(ObjectRef, String)>, o: &ObjectRef, r: &str) -> (b: bool)
    ensures
        b == upath_set(path@).contains((o@, r@)),
{
    let mut i: usize = 0;
    while i < path.len()
        invariant
            i <= path@.len(),
            forall|j: int| 0 <= j < i ==> !((#[trigger] path@[j].0)@ == o@ && path@[j].1@ == r@),
        decreases path.len() - i,
    {
        if object_ref_eq(&path[i].0, o) && str_eq(path[i].1.as_str(), r) {
            assert(upath_set(path@).contains((o@, r@)));
            return true;
        }
        i = i + 1;
    }
    false
}

fn upath_with(path: &Vec<(ObjectRef, String)>, o: &ObjectRef, r: &str) -> (out: Vec<(ObjectRef, String)>)
    ensures
        upath_set(out@) == upath_set(path@).insert((o@, r@)),
{
    let mut out: Vec<(ObjectRef, String)> = Vec::new();
    let mut i: usize = 0;
    while i < path.len()
        invariant
            i <= path@.len(),
            out@.len() == i,
            forall|j: int| 0 <= j < i ==> (#[trigger] out@[j].0)@ == path@[j].0@ && out@[j].1@ == path@[j].1@,
        decreases path.len() - i,
    {
        out.push((clone_object_ref(&path[i].0), copy_string(&path[i].1)));
        i = i + 1;
    }
    let ghost pre = out@;
    out.push((clone_object_ref(o), str_to_string(r)));
    proof {
        let n = path@.len() as int;
        assert forall|j: int| 0 <= j < n implies out@[j] == pre[j] by {}
        assert forall|p: (ObjectRefV, Seq<char>)| upath_set(out@).contains(p) <==> upath_set(path@).insert((o@, r@)).contains(
            p,
        ) by {
            if upath_set(out@).contains(p) {
                let j = choose|j: int| 0 <= j < out@.len() && (#[trigger] out@[j].0)@ == p.0 && out@[j].1@ == p.1;
                if j < n {
                    assert(path@[j].0@ == p.0 && path@[j].1@ == p.1);
                }
            }
            if upath_set(path@).contains(p) {
                let j = choose|j: int| 0 <= j < path@.len() && (#[trigger] path@[j].0)@ == p.0 && path@[j].1@ == p.1;
                assert(out@[j].0@ == p.0 && out@[j].1@ == p.1);
            }
            if p == (o@, r@) {
                assert(out@[n].0@ == p.0 && out@[n].1@ == p.1);
            }
        }
        assert(upath_set(out@) =~= upath_set(path@).insert((o@, r@)));
    }
    out
}

/// Plans the candidate users of a listing of `root` over a model and the
/// stored and contextual tuples.
pub struct UserPlanner<'a> {
    pub model: &'a CompiledModel,
    pub stored: &'a Vec<ParsedTupleKey>,
    pub contextual: &'a Vec<ParsedTupleKey>,
    pub root: Ghost<ObjectRefV>,
}

impl<'a> UserPlanner<'a> {
    pub open spec fn world(&self) -> World {
        World { model: self.model@, tuples: tuple_views(self.stored@) + tuple_views(self.contextual@) }
    }

    pub open spec fn reaches(&self, o: ObjectRefV) -> bool {
        reachable_objects(self.world().tuples, self.root@).contains(o)
    }

    /// Whether the candidate users of `object#relation` can be planned with
    /// the keys on `path` planned already.
    pub fn plan(&self, path: &Vec<(ObjectRef, String)>, object: &ObjectRef, relation: &str) -> (r: Result<bool, FgaError>)
        requires
            self.reaches(object@),
        ensures
            match r {
                Ok(b) => user_plan(self.world(), self.root@, upath_set(path@), object@, relation@) == Ok::<bool, FgaErrorV>(b),
                Err(e) => user_plan(self.world(), self.root@, upath_set(path@), object@, relation@) == Err::<bool, FgaErrorV>(
                    e@,
                ),
            },
        decreases unvisited(user_universe(self.world(), self.root@), upath_set(path@)), 0nat, 0nat,
    {
        if upath_contains(path, object, relation) {
            return Ok(false);
        }
        let plan = match self.model.list_plan(object.object_type.as_str(), relation) {
            Ok(p) => p,
            Err(e) => {
                return Err(e);
            },
        };
        match plan {
            ListPlan::ScanFallback => Ok(false),
            ListPlan::Planned { sources } => {
                let inner = upath_with(path, object, relation);
                proof {
                    lemma_in_user_universe(self.world(), self.root@, object@, relation@);
                    lemma_unvisited_insert(user_universe(self.world(), self.root@), upath_set(path@), (object@, relation@));
                }
                let ghost ss = crate::fga_model::source_views(sources@);
                proof {
                    assert(user_plan(self.world(), self.root@, upath_set(path@), object@, relation@) == usources_plan(
                        self.world(),
                        self.root@,
                        upath_set(path@).insert((object@, relation@)),
                        object@,
                        relation@,
                        ss,
                        0,
                    ));
                }
                let mut k: usize = 0;
                while k < sources.len()
                    invariant
                        k <= sources@.len(),
                        ss == crate::fga_model::source_views(sources@),
                        ss.len() == sources@.len(),
                        self.reaches(object@),
                        user_plan(self.world(), self.root@, upath_set(path@), object@, relation@) == usources_plan(
                            self.world(),
                            self.root@,
                            upath_set(inner@),
                            object@,
                            relation@,
                            ss,
                            0,
                        ),
                        upath_set(inner@) == upath_set(path@).insert((object@, relation@)),
                        unvisited(user_universe(self.world(), self.root@), upath_set(inner@)) < unvisited(
                            user_universe(self.world(), self.root@),
                            upath_set(path@),
                        ),
                        usources_plan(self.world(), self.root@, upath_set(inner@), object@, relation@, ss, 0)
                            == usources_plan(self.world(), self.root@, upath_set(inner@), object@, relation@, ss, k as nat),
                    decreases sources.len() - k,
                {
                    proof {
                        assert(ss[k as int] == sources@[k as int]@);
                    }
                    match self.plan_source(&inner, object, relation, &sources[k]) {
                        Err(e) => {
                            return Err(e);
                        },
                        Ok(false) => {
                            return Ok(false);
                        },
                        Ok(true) => {},
                    }
                    k = k + 1;
                }
                Ok(true)
            },
        }
    }

    fn plan_source(&self, path: &Vec<(ObjectRef, String)>, object: &ObjectRef, relation: &str, source: &CandidateSource) -> (r:
        Result<bool, FgaError>)
        requires
            self.reaches(object@),
        ensures
            match r {
                Ok(b) => usource_plan(self.world(), self.root@, upath_set(path@), object@, relation@, source@) == Ok::<
                    bool,
                    FgaErrorV,
                >(b),
                Err(e) => usource_plan(self.world(), self.root@, upath_set(path@), object@, relation@, source@) == Err::<
                    bool,
                    FgaErrorV,
                >(e@),
            },
        decreases unvisited(user_universe(self.world(), self.root@), upath_set(path@)), 2nat, 0nat,
    {
        match source {
            CandidateSource::Direct => self.plan_tuples(path, object, relation, None),
            CandidateSource::ComputedUserset { relation: computed } => self.plan(path, object, computed.as_str()),
            CandidateSource::TupleToUserset { tupleset, computed_userset } => self.plan_tuples(
                path,
                object,
                tupleset.as_str(),
                Some(computed_userset.as_str()),
            ),
        }
    }

    /// The direct tuples of `object#relation` (`computed` none), or the
    /// tupleset tuples of a tuple to userset onto `computed`, in order.
    fn plan_tuples(&self, path: &Vec<(ObjectRef, String)>, object: &ObjectRef, relation: &str, computed: Option<&str>) -> (r:
        Result<bool, FgaError>)
        requires
            self.reaches(object@),
        ensures
            match computed {
                None => match r {
                    Ok(b) => udirect_plan(self.world(), self.root@, upath_set(path@), object@, relation@, 0) == Ok::<
                        bool,
                        FgaErrorV,
                    >(b),
                    Err(e) => udirect_plan(self.world(), self.root@, upath_set(path@), object@, relation@, 0) == Err::<
                        bool,
                        FgaErrorV,
                    >(e@),
                },
                Some(cu) => match r {
                    Ok(b) => uttu_plan(self.world(), self.root@, upath_set(path@), object@, relation@, cu@, 0) == Ok::<
                        bool,
                        FgaErrorV,
                    >(b),
                    Err(e) => uttu_plan(self.world(), self.root@, upath_set(path@), object@, relation@, cu@, 0) == Err::<
                        bool,
                        FgaErrorV,
                    >(e@),
                },
            },
        decreases unvisited(user_universe(self.world(), self.root@), upath_set(path@)), 1nat, 0nat,
    {
        let ghost w = self.world();
        let ghost root = self.root@;
        let ghost ps = upath_set(path@);
        let ghost n1 = self.stored@.len();
        let mut part: usize = 0;
        while part < 2
            invariant
                w == self.world(),
                root == self.root@,
                ps == upath_set(path@),
                n1 == self.stored@.len(),
                part <= 2,
                self.reaches(object@),
                match computed {
                    None => udirect_plan(w, root, ps, object@, relation@, 0) == udirect_plan(
                        w,
                        root,
                        ps,
                        object@,
                        relation@,
                        if part == 0 {
                            0nat
                        } else if part == 1 {
                            n1
                        } else {
                            w.tuples.len()
                        },
                    ),
                    Some(cu) => uttu_plan(w, root, ps, object@, relation@, cu@, 0) == uttu_plan(
                        w,
                        root,
                        ps,
                        object@,
                        relation@,
                        cu@,
                        if part == 0 {
                            0nat
                        } else if part == 1 {
                            n1
                        } else {
                            w.tuples.len()
                        },
                    ),
                },
            decreases 2 - part,
        {
            let src: &Vec<ParsedTupleKey> = if part == 0 {
                self.stored
            } else {
                self.contextual
            };
            let ghost base: nat = if part == 0 {
                0nat
            } else {
                n1
            };
            proof {
                assert(forall|j: int| 0 <= j < src@.len() ==> #[trigger] w.tuples[base + j] == src@[j]@);
            }
            let mut k: usize = 0;
            while k < src.len()
                invariant
                    w == self.world(),
                    root == self.root@,
                    ps == upath_set(path@),
                    self.reaches(object@),
                    k <= src@.len(),
                    base + src@.len() <= w.tuples.len(),
                    forall|j: int| 0 <= j < src@.len() ==> #[trigger] w.tuples[base + j] == src@[j]@,
                    match computed {
                        None => udirect_plan(w, root, ps, object@, relation@, 0) == udirect_plan(
                            w,
                            root,
                            ps,
                            object@,
                            relation@,
                            (base + k) as nat,
                        ),
                        Some(cu) => uttu_plan(w, root, ps, object@, relation@, cu@, 0) == uttu_plan(
                            w,
                            root,
                            ps,
                            object@,
                            relation@,
                            cu@,
                            (base + k) as nat,
                        ),
                    },
                decreases src.len() - k,
            {
                let t = &src[k];
                proof {
                    assert(w.tuples[base + k] == t@);
                    assert(reachable_objects(w.tuples, root)[1 + base + k] == user_object(t@.user, root));
                }
                if object_ref_eq(&t.object, object) && str_eq(t.relation.as_str(), relation) {
                    match computed {
                        None => {
                            match &t.user {
                                UserRef::Userset { object: uo, relation: ur } => {
                                    match self.plan(path, uo, ur.as_str()) {
                                        Err(e) => {
                                            return Err(e);
                                        },
                                        Ok(false) => {
                                            return Ok(false);
                                        },
                                        Ok(true) => {},
                                    }
                                },
                                _ => {},
                            }
                        },
                        Some(cu) => {
                            match &t.user {
                                UserRef::Object(target) => {
                                    match self.plan(path, target, cu) {
                                        Err(e) => {
                                            return Err(e);
                                        },
                                        Ok(false) => {
                                            return Ok(false);
                                        },
                                        Ok(true) => {},
                                    }
                                },
                                _ => {
                                    return Ok(false);
                                },
                            }
                        },
                    }
                }
                k = k + 1;
            }
            part = part + 1;
        }
        Ok(true)
    }
}

} // verus!
