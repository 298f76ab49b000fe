//! The check evaluator: decides whether a user stands in a relation to an
//! object, with a depth limit, cycle detection and a decision cache. Every
//! `Allow` it gives is true of the model and tuples, and every plain "no match"
//! denial is false of them (see `fga_semantics`).

use vstd::prelude::*;

use crate::fga_expr::{RelExprV, RelationExpr, esize, lemma_lsize_elem, lemma_views, lsize, views};
use crate::fga_model::{CompiledModel, ModelV, spec_relation_expr, undefined_relation_text};
use crate::fga_refs::{
    FgaError, ObjectRef, ObjectRefV, ParsedTupleKey, TupleV, UserRef, UserRefV, clone_object_ref, clone_user_ref,
    object_ref_eq, user_ref_eq,
};
use crate::fga_semantics::{
    Truth, World, lemma_any_yes_extends, lemma_direct_yes_extends,
    lemma_mono_all, lemma_mono_any, lemma_mono_direct, lemma_mono_expr, lemma_mono_rel, lemma_mono_ttu,
    lemma_ttu_yes_extends, tuple_val, ttu_val, val_all, val_any, val_direct, val_expr,
    val_rel, val_ttu,
};
use crate::text::{str_eq, str_to_string};
use crate::fga_refs::{spec_object_raw, spec_user_raw, spec_parse_tuple, TupleKey, FgaErrorV};
use crate::fga_dto::{BatchCheckRequest, BatchCheckResponse, BatchCheckResult, CheckRequest, CheckResponse, ContextualTuples};
use crate::fga_store::{parse_all, parsed_views, spec_parse_all};

verus! {

/// Why a check was denied.
#[derive(Clone, Copy, Debug, PartialEq, Eq, Structural)]
pub enum DenyReason {
    NoMatch,
    CycleDetected,
    DepthExhausted,
}

/// The answer of a check.
#[derive(Clone, Copy, Debug, PartialEq, Eq, Structural)]
pub enum EvalOutcome {
    Allow,
    Deny(DenyReason),
}

pub open spec fn spec_priority(d: DenyReason) -> u8 {
    match d {
        DenyReason::NoMatch => 0,
        DenyReason::CycleDetected => 1,
        DenyReason::DepthExhausted => 2,
    }
}

pub open spec fn spec_prefer(a: DenyReason, b: DenyReason) -> DenyReason {
    if spec_priority(b) > spec_priority(a) {
        b
    } else {
        a
    }
}

impl DenyReason {
    /// The reason of higher priority (depth over cycle over no match).
    pub fn prefer(self, other: DenyReason) -> (r: DenyReason)
        ensures
            r == spec_prefer(self, other),
    {
        if other.priority() > self.priority() {
            other
        } else {
            self
        }
    }

    pub fn priority(self) -> (r: u8)
        ensures
            r == spec_priority(self),
    {
        match self {
            DenyReason::NoMatch => 0,
            DenyReason::CycleDetected => 1,
            DenyReason::DepthExhausted => 2,
        }
    }

    /// The name of the reason.
    pub fn as_str(self) -> (r: &'static str)
        ensures
            r@ == match self {
                DenyReason::NoMatch => "no_match"@,
                DenyReason::CycleDetected => "cycle_detected"@,
                DenyReason::DepthExhausted => "depth_exhausted"@,
            },
    {
        match self {
            DenyReason::NoMatch => "no_match",
            DenyReason::CycleDetected => "cycle_detected",
            DenyReason::DepthExhausted => "depth_exhausted",
        }
    }
}

impl EvalOutcome {
    pub fn is_allowed(self) -> (r: bool)
        ensures
            r == (self == EvalOutcome::Allow),
    {
        match self {
            EvalOutcome::Allow => true,
            EvalOutcome::Deny(_) => false,
        }
    }

    pub fn deny_reason(self) -> (r: Option<DenyReason>)
        ensures
            match self {
                EvalOutcome::Allow => r is None,
                EvalOutcome::Deny(d) => r == Some(d),
            },
    {
        match self {
            EvalOutcome::Allow => None,
            EvalOutcome::Deny(d) => Some(d),
        }
    }
}

/// A decided check.
#[derive(Debug)]
pub struct CacheEntry {
    pub user: UserRef,
    pub relation: String,
    pub object: ObjectRef,
    pub outcome: EvalOutcome,
}

/// A check under way.
#[derive(Debug)]
pub struct ActiveKey {
    pub user: UserRef,
    pub relation: String,
    pub object: ObjectRef,
}

/// The first guardrail denial of a request, kept for reporting.
#[derive(Debug)]
pub struct EvalIssue {
    pub reason: DenyReason,
    pub user: String,
    pub relation: String,
    pub object: String,
}

pub open spec fn tuple_views(s: Seq<ParsedTupleKey>) -> Seq<TupleV> {
    s.map_values(|t: ParsedTupleKey| t@)
}

/// What an answer claims: `Allow` that the relation holds, a plain no-match
/// denial that it does not; other denials claim nothing.
pub open spec fn outcome_sound(o: EvalOutcome, t: Truth) -> bool {
    &&& o == EvalOutcome::Allow ==> t == Truth::Yes
    &&& o == EvalOutcome::Deny(DenyReason::NoMatch) ==> t == Truth::No
}

pub open spec fn entry_sound(w: World, fuel: nat, e: CacheEntry) -> bool {
    outcome_sound(e.outcome, val_rel(w, fuel, e.user@, e.relation@, e.object@))
}

pub open spec fn cache_sound(w: World, fuel: nat, cache: Seq<CacheEntry>) -> bool {
    forall|i: int| 0 <= i < cache.len() ==> entry_sound(w, fuel, #[trigger] cache[i])
}

/// The remaining depth budget, for termination.
pub open spec fn budget(max_depth: usize, depth: usize) -> nat {
    if depth <= max_depth {
        (max_depth - depth + 1) as nat
    } else {
        0
    }
}

proof fn lemma_cache_lift(w: World, f: nat, f2: nat, cache: Seq<CacheEntry>)
    requires
        f <= f2,
        cache_sound(w, f, cache),
    ensures
        cache_sound(w, f2, cache),
{
    assert forall|i: int| 0 <= i < cache.len() implies entry_sound(w, f2, #[trigger] cache[i]) by {
        let e = cache[i];
        lemma_mono_rel(w, f, f2, e.user@, e.relation@, e.object@);
    }
}

/// `e` reports a relation that the model does not define.
pub open spec fn undefined_relation_error(m: ModelV, e: FgaError) -> bool {
    exists|t: Seq<char>, r: Seq<char>|
        spec_relation_expr(m, t, r) is None && #[trigger] e.is_bad_request(undefined_relation_text(t, r))
}

/// Relation `r` is defined on type `t`.
pub open spec fn resolves(w: World, t: Seq<char>, r: Seq<char>) -> bool {
    spec_relation_expr(w.model, t, r) is Some
}

/// A userset tuple names a relation that is defined.
pub open spec fn tuple_closed(w: World, t: TupleV) -> bool {
    match t.user {
        UserRefV::Userset(obj, rel) => resolves(w, obj.object_type, rel),
        _ => true,
    }
}

/// Every tuple of `object#tupleset` leads to an object on which `computed`
/// is defined.
pub open spec fn ttu_closed(w: World, o: ObjectRefV, ts: Seq<char>, cu: Seq<char>) -> bool {
    forall|i: int|
        0 <= i < w.tuples.len() && (#[trigger] w.tuples[i]).object == o && w.tuples[i].relation == ts
            ==> match w.tuples[i].user {
            UserRefV::Object(target) => resolves(w, target.object_type, cu),
            _ => true,
        }
}

/// Every relation that rewrite `e` of object `o` refers to is defined.
pub open spec fn expr_closed(w: World, o: ObjectRefV, e: RelExprV) -> bool
    decreases esize(e), 0nat,
{
    match e {
        RelExprV::This => true,
        RelExprV::Computed(r2) => resolves(w, o.object_type, r2),
        RelExprV::TupleToUserset(ts, cu) => ttu_closed(w, o, ts, cu),
        RelExprV::Union(c) => exprs_closed(w, o, c),
        RelExprV::Intersection(c) => exprs_closed(w, o, c),
        RelExprV::Difference(b, s) => {
            proof {
                crate::fga_expr::lemma_esize_pos(*b);
                crate::fga_expr::lemma_esize_pos(*s);
            }
            expr_closed(w, o, *b) && expr_closed(w, o, *s)
        },
    }
}

pub open spec fn exprs_closed(w: World, o: ObjectRefV, c: Seq<RelExprV>) -> bool
    decreases lsize(c), 1nat,
{
    if c.len() == 0 {
        true
    } else {
        proof {
            crate::fga_expr::lemma_esize_pos(c.last());
        }
        exprs_closed(w, o, c.drop_last()) && expr_closed(w, o, c.last())
    }
}

/// No check over this world can reach an undefined relation: every defined
/// relation refers only to defined ones, and so does every userset tuple.
pub open spec fn world_closed(w: World) -> bool {
    &&& forall|o: ObjectRefV, r: Seq<char>|
        #[trigger] spec_relation_expr(w.model, o.object_type, r) is Some ==> expr_closed(
            w,
            o,
            spec_relation_expr(w.model, o.object_type, r).unwrap(),
        )
    &&& forall|i: int| 0 <= i < w.tuples.len() ==> tuple_closed(w, #[trigger] w.tuples[i])
}

proof fn lemma_exprs_closed_elem(w: World, o: ObjectRefV, c: Seq<RelExprV>, i: int)
    requires
        exprs_closed(w, o, c),
        0 <= i < c.len(),
    ensures
        expr_closed(w, o, c[i]),
    decreases c.len(),
{
    if i < c.len() - 1 {
        lemma_exprs_closed_elem(w, o, c.drop_last(), i);
        assert(c.drop_last()[i] == c[i]);
    }
}

/// The depth of a child rewrite: one more, held at the largest `usize`.
pub open spec fn next_depth(d: int) -> int {
    if d < usize::MAX {
        d + 1
    } else {
        d
    }
}

pub open spec fn depth_left(max: int, d: int) -> nat {
    if d <= max {
        (max - d) as nat
    } else {
        0
    }
}

/// Evaluating `u` in `o#r` from depth `d`, with the checks of `path` under
/// way, meets neither the depth limit `max`, nor a check already under way,
/// nor an undefined relation, on any branch.
pub open spec fn fits_node(
    w: World,
    max: int,
    d: int,
    u: UserRefV,
    r: Seq<char>,
    o: ObjectRefV,
    path: Set<(UserRefV, Seq<char>, ObjectRefV)>,
) -> bool
    decreases depth_left(max, d) + 1, 0nat, 0nat,
{
    &&& d <= max
    &&& !path.contains((u, r, o))
    &&& match spec_relation_expr(w.model, o.object_type, r) {
        Some(e) => fits_expr(w, max, d, u, r, o, e, path.insert((u, r, o))),
        None => false,
    }
}

/// The same, for rewrite `e` of `o#r` evaluated at depth `d`.
pub open spec fn fits_expr(
    w: World,
    max: int,
    d: int,
    u: UserRefV,
    r: Seq<char>,
    o: ObjectRefV,
    e: RelExprV,
    path: Set<(UserRefV, Seq<char>, ObjectRefV)>,
) -> bool
    decreases depth_left(max, d), esize(e), 0nat,
{
    match e {
        RelExprV::This => forall|i: int|
            0 <= i < w.tuples.len() && (#[trigger] w.tuples[i]).object == o && w.tuples[i].relation == r
                ==> match w.tuples[i].user {
                UserRefV::Userset(uo, ur) => d < max && fits_node(w, max, d + 1, u, ur, uo, path),
                _ => true,
            },
        RelExprV::Computed(r2) => d < max && fits_node(w, max, d + 1, u, r2, o, path),
        RelExprV::TupleToUserset(ts, cu) => forall|i: int|
            0 <= i < w.tuples.len() && (#[trigger] w.tuples[i]).object == o && w.tuples[i].relation == ts
                ==> match w.tuples[i].user {
                UserRefV::Object(target) => d < max && fits_node(w, max, d + 1, u, cu, target, path),
                _ => true,
            },
        RelExprV::Union(c) => fits_exprs(w, max, next_depth(d), u, r, o, c, path),
        RelExprV::Intersection(c) => fits_exprs(w, max, next_depth(d), u, r, o, c, path),
        RelExprV::Difference(b, s) => {
            proof {
                crate::fga_expr::lemma_esize_pos(*b);
                crate::fga_expr::lemma_esize_pos(*s);
            }
            fits_expr(w, max, next_depth(d), u, r, o, *b, path) && fits_expr(
                w,
                max,
                next_depth(d),
                u,
                r,
                o,
                *s,
                path,
            )
        },
    }
}

pub open spec fn fits_exprs(
    w: World,
    max: int,
    d: int,
    u: UserRefV,
    r: Seq<char>,
    o: ObjectRefV,
    c: Seq<RelExprV>,
    path: Set<(UserRefV, Seq<char>, ObjectRefV)>,
) -> bool
    decreases depth_left(max, d), lsize(c), 1nat,
{
    if c.len() == 0 {
        true
    } else {
        proof {
            crate::fga_expr::lemma_esize_pos(c.last());
        }
        fits_exprs(w, max, d, u, r, o, c.drop_last(), path) && fits_expr(w, max, d, u, r, o, c.last(), path)
    }
}

/// The same, for the tuple-to-userset rewrite `ts -> cu` of object `o`.
pub open spec fn fits_ttu(
    w: World,
    max: int,
    d: int,
    u: UserRefV,
    o: ObjectRefV,
    ts: Seq<char>,
    cu: Seq<char>,
    path: Set<(UserRefV, Seq<char>, ObjectRefV)>,
) -> bool {
    fits_expr(w, max, d, u, cu, o, RelExprV::TupleToUserset(ts, cu), path)
}

/// The checks under way, as a set.
pub open spec fn active_set(active: Seq<ActiveKey>) -> Set<(UserRefV, Seq<char>, ObjectRefV)> {
    Set::new(
        |k: (UserRefV, Seq<char>, ObjectRefV)|
            exists|i: int|
                0 <= i < active.len() && (#[trigger] active[i]).user@ == k.0 && active[i].relation@ == k.1
                    && active[i].object@ == k.2,
    )
}

/// Every cached answer is an `Allow` or a plain no-match denial.
pub open spec fn cache_settled(cache: Seq<CacheEntry>) -> bool {
    forall|i: int|
        0 <= i < cache.len() ==> (#[trigger] cache[i]).outcome == EvalOutcome::Allow || cache[i].outcome
            == EvalOutcome::Deny(DenyReason::NoMatch)
}

/// The cache holds answer `out` for `u` in `o#r`.
pub open spec fn cached_as(cache: Seq<CacheEntry>, u: UserRefV, r: Seq<char>, o: ObjectRefV, out: EvalOutcome) -> bool {
    exists|i: int|
        0 <= i < cache.len() && (#[trigger] cache[i]).user@ == u && cache[i].relation@ == r && cache[i].object@ == o
            && cache[i].outcome == out
}

/// The cache holds some answer for `u` in `o#r`.
pub open spec fn is_cached(cache: Seq<CacheEntry>, u: UserRefV, r: Seq<char>, o: ObjectRefV) -> bool {
    exists|i: int|
        0 <= i < cache.len() && (#[trigger] cache[i]).user@ == u && cache[i].relation@ == r && cache[i].object@ == o
}

/// An answer that is an `Allow` or a plain no-match denial.
pub open spec fn settled(o: EvalOutcome) -> bool {
    o == EvalOutcome::Allow || o == EvalOutcome::Deny(DenyReason::NoMatch)
}

proof fn lemma_fits_exprs_elem(
    w: World,
    max: int,
    d: int,
    u: UserRefV,
    r: Seq<char>,
    o: ObjectRefV,
    c: Seq<RelExprV>,
    path: Set<(UserRefV, Seq<char>, ObjectRefV)>,
    i: int,
)
    requires
        fits_exprs(w, max, d, u, r, o, c, path),
        0 <= i < c.len(),
    ensures
        fits_expr(w, max, d, u, r, o, c[i], path),
    decreases c.len(),
{
    if i < c.len() - 1 {
        lemma_fits_exprs_elem(w, max, d, u, r, o, c.drop_last(), path, i);
        assert(c.drop_last()[i] == c[i]);
    }
}

proof fn lemma_fits_direct_at(
    w: World,
    max: int,
    d: int,
    u: UserRefV,
    r: Seq<char>,
    o: ObjectRefV,
    path: Set<(UserRefV, Seq<char>, ObjectRefV)>,
    i: int,
)
    requires
        fits_expr(w, max, d, u, r, o, RelExprV::This, path),
        0 <= i < w.tuples.len(),
    ensures
        w.tuples[i].object == o && w.tuples[i].relation == r ==> match w.tuples[i].user {
            UserRefV::Userset(uo, ur) => d < max && fits_node(w, max, d + 1, u, ur, uo, path),
            _ => true,
        },
{
    assert(w.tuples[i] == w.tuples[i]);
}

proof fn lemma_fits_ttu_at(
    w: World,
    max: int,
    d: int,
    u: UserRefV,
    o: ObjectRefV,
    ts: Seq<char>,
    cu: Seq<char>,
    path: Set<(UserRefV, Seq<char>, ObjectRefV)>,
    i: int,
)
    requires
        fits_ttu(w, max, d, u, o, ts, cu, path),
        0 <= i < w.tuples.len(),
    ensures
        w.tuples[i].object == o && w.tuples[i].relation == ts ==> match w.tuples[i].user {
            UserRefV::Object(target) => d < max && fits_node(w, max, d + 1, u, cu, target, path),
            _ => true,
        },
{
    assert(w.tuples[i] == w.tuples[i]);
}

proof fn lemma_settled_holds(w: World, n: nat, u: UserRefV, r: Seq<char>, o: ObjectRefV, out: EvalOutcome)
    requires
        settled(out),
        outcome_sound(out, val_rel(w, n, u, r, o)),
    ensures
        out == EvalOutcome::Allow <==> holds(w, u, r, o),
{
    if out == EvalOutcome::Allow {
        assert(val_rel(w, n, u, r, o) == Truth::Yes);
    } else {
        lemma_no_means_not_holds(w, n, u, r, o);
    }
}

/// A relation read as not holding at some fuel holds at no fuel.
pub proof fn lemma_no_means_not_holds(w: World, n: nat, u: UserRefV, r: Seq<char>, o: ObjectRefV)
    requires
        val_rel(w, n, u, r, o) == Truth::No,
    ensures
        !holds(w, u, r, o),
{
    assert forall|m: nat| val_rel(w, m, u, r, o) != Truth::Yes by {
        if m <= n {
            lemma_mono_rel(w, m, n, u, r, o);
        } else {
            lemma_mono_rel(w, n, m, u, r, o);
        }
    }
}

/// The reason an answer gives, a plain no-match for an `Allow`.
pub open spec fn reason_of(o: EvalOutcome) -> DenyReason {
    match o {
        EvalOutcome::Allow => DenyReason::NoMatch,
        EvalOutcome::Deny(r) => r,
    }
}

/// The reason of highest priority among the answers (no match for none).
pub open spec fn fold_reason(outs: Seq<EvalOutcome>) -> DenyReason
    decreases outs.len(),
{
    if outs.len() == 0 {
        DenyReason::NoMatch
    } else {
        spec_prefer(fold_reason(outs.drop_last()), reason_of(outs.last()))
    }
}

pub open spec fn has_allow(outs: Seq<EvalOutcome>) -> bool {
    exists|j: int| 0 <= j < outs.len() && outs[j] == EvalOutcome::Allow
}

/// A union: `Allow` where a child allows, else the weightiest denial.
pub open spec fn union_outcome(outs: Seq<EvalOutcome>) -> EvalOutcome {
    if has_allow(outs) {
        EvalOutcome::Allow
    } else {
        EvalOutcome::Deny(fold_reason(outs))
    }
}

/// An intersection: `Allow` where every child allows, else the weightiest
/// denial.
pub open spec fn intersection_outcome(outs: Seq<EvalOutcome>) -> EvalOutcome {
    if forall|j: int| 0 <= j < outs.len() ==> outs[j] == EvalOutcome::Allow {
        EvalOutcome::Allow
    } else {
        EvalOutcome::Deny(fold_reason(outs))
    }
}

/// A difference: a denied base as it came; an allowed base is allowed
/// unless the subtracted rewrite allows (a plain denial then) or gives a
/// guardrail denial (passed on).
pub open spec fn difference_outcome(base: EvalOutcome, sub: Option<EvalOutcome>) -> EvalOutcome {
    if base != EvalOutcome::Allow {
        base
    } else {
        match sub {
            Some(EvalOutcome::Allow) => EvalOutcome::Deny(DenyReason::NoMatch),
            Some(EvalOutcome::Deny(DenyReason::NoMatch)) => EvalOutcome::Allow,
            Some(EvalOutcome::Deny(r)) => EvalOutcome::Deny(r),
            None => base,
        }
    }
}

/// Every answer of `outs` is sound for the matching rewrite of `c`.
pub open spec fn answers_sound(
    w: World,
    n: nat,
    u: UserRefV,
    r: Seq<char>,
    o: ObjectRefV,
    c: Seq<RelExprV>,
    outs: Seq<EvalOutcome>,
) -> bool {
    outs.len() <= c.len() && forall|j: int| 0 <= j < outs.len() ==> outcome_sound(#[trigger] outs[j], val_expr(w, n, u, r, o, c[j]))
}

proof fn lemma_answers_lift(
    w: World,
    n: nat,
    n2: nat,
    u: UserRefV,
    r: Seq<char>,
    o: ObjectRefV,
    c: Seq<RelExprV>,
    outs: Seq<EvalOutcome>,
)
    requires
        n <= n2,
        answers_sound(w, n, u, r, o, c, outs),
    ensures
        answers_sound(w, n2, u, r, o, c, outs),
{
    assert forall|j: int| 0 <= j < outs.len() implies outcome_sound(#[trigger] outs[j], val_expr(w, n2, u, r, o, c[j])) by {
        lemma_mono_expr(w, n, n2, u, r, o, c[j]);
    }
}

/// Evaluates checks against a compiled model and a set of tuples (the stored
/// ones, then the contextual ones of the request).
pub struct Evaluator<'a> {
    pub model: &'a CompiledModel,
    pub stored: &'a Vec<ParsedTupleKey>,
    pub contextual: &'a Vec<ParsedTupleKey>,
    pub decision_cache: Vec<CacheEntry>,
    pub active: Vec<ActiveKey>,
    pub max_depth: usize,
    pub request_issue: Option<EvalIssue>,
    /// How far the relations have been unfolded to justify the cached answers.
    pub fuel: Ghost<nat>,
}

impl<'a> Evaluator<'a> {
    /// The model and tuples the evaluator reads.
    pub open spec fn world(&self) -> World {
        World { model: self.model@, tuples: tuple_views(self.stored@) + tuple_views(self.contextual@) }
    }

    /// Every cached answer is true of the world.
    pub open spec fn inv(&self) -> bool {
        cache_sound(self.world(), self.fuel@, self.decision_cache@)
    }

    pub open spec fn same_world(&self, other: &Self) -> bool {
        &&& self.model == other.model
        &&& self.stored == other.stored
        &&& self.contextual == other.contextual
        &&& self.max_depth == other.max_depth
        &&& self.fuel@ >= other.fuel@
    }

    /// An evaluator with empty caches.
    pub fn new(
        model: &'a CompiledModel,
        stored: &'a Vec<ParsedTupleKey>,
        contextual: &'a Vec<ParsedTupleKey>,
        max_depth: usize,
    ) -> (r: Evaluator<'a>)
        ensures
            r.inv(),
            r.model == model,
            r.stored == stored,
            r.contextual == contextual,
            r.max_depth == max_depth,
            r.decision_cache@.len() == 0,
            r.active@.len() == 0,
            r.request_issue is None,
    {
        Evaluator {
            model,
            stored,
            contextual,
            decision_cache: Vec::new(),
            active: Vec::new(),
            max_depth,
            request_issue: None,
            fuel: Ghost(0),
        }
    }

    fn find_cached(&self, user: &UserRef, relation: &str, object: &ObjectRef) -> (r: Option<usize>)
        ensures
            match r {
                Some(i) => i < self.decision_cache@.len() && self.decision_cache@[i as int].user@ == user@
                    && self.decision_cache@[i as int].relation@ == relation@
                    && self.decision_cache@[i as int].object@ == object@,
                None => forall|j: int|
                    0 <= j < self.decision_cache@.len() ==> !(#[trigger] self.decision_cache@[j].user@ == user@
                        && self.decision_cache@[j].relation@ == relation@
                        && self.decision_cache@[j].object@ == object@),
            },
    {
        let mut i: usize = 0;
        while i < self.decision_cache.len()
            invariant
                i <= self.decision_cache@.len(),
                forall|j: int|
                    0 <= j < i ==> !(#[trigger] self.decision_cache@[j].user@ == user@
                        && self.decision_cache@[j].relation@ == relation@
                        && self.decision_cache@[j].object@ == object@),
            decreases self.decision_cache.len() - i,
        {
            let e = &self.decision_cache[i];
            if user_ref_eq(&e.user, user) && str_eq(e.relation.as_str(), relation) && object_ref_eq(
                &e.object,
                object,
            ) {
                return Some(i);
            }
            i = i + 1;
        }
        None
    }

    fn find_active(&self, user: &UserRef, relation: &str, object: &ObjectRef) -> (r: Option<usize>)
        ensures
            match r {
                Some(i) => i < self.active@.len() && self.active@[i as int].user@ == user@
                    && self.active@[i as int].relation@ == relation@
                    && self.active@[i as int].object@ == object@,
                None => forall|j: int|
                    0 <= j < self.active@.len() ==> !(#[trigger] self.active@[j].user@ == user@
                        && self.active@[j].relation@ == relation@
                        && self.active@[j].object@ == object@),
            },
    {
        let mut i: usize = 0;
        while i < self.active.len()
            invariant
                i <= self.active@.len(),
                forall|j: int|
                    0 <= j < i ==> !(#[trigger] self.active@[j].user@ == user@
                        && self.active@[j].relation@ == relation@
                        && self.active@[j].object@ == object@),
            decreases self.active.len() - i,
        {
            let e = &self.active[i];
            if user_ref_eq(&e.user, user) && str_eq(e.relation.as_str(), relation) && object_ref_eq(
                &e.object,
                object,
            ) {
                return Some(i);
            }
            i = i + 1;
        }
        None
    }
}

impl<'a> Evaluator<'a> {
    /// Decides whether `user` stands in `relation` to `object`. Depth beyond
    /// the limit is denied as exhausted, a check that reaches itself as a
    /// cycle; decided checks are cached. An `Allow` is true of the world and a
    /// no-match denial false of it, at the evaluator's fuel.
    pub fn check(&mut self, user: &UserRef, relation: &str, object: &ObjectRef, depth: usize) -> (r: Result<
        EvalOutcome,
        FgaError,
    >)
        requires
            old(self).inv(),
        ensures
            final(self).inv(),
            final(self).same_world(&*old(self)),
            r matches Ok(o) ==> outcome_sound(
                o,
                val_rel(final(self).world(), final(self).fuel@, user@, relation@, object@),
            ),
            r matches Err(e) ==> undefined_relation_error(old(self).world().model, e),
            world_closed(old(self).world()) && resolves(old(self).world(), object@.object_type, relation@) ==> r is Ok,
            depth > old(self).max_depth ==> r matches Ok(EvalOutcome::Deny(DenyReason::DepthExhausted)),
            fits_node(old(self).world(), old(self).max_depth as int, depth as int, user@, relation@, object@, active_set(old(self).active@)) && cache_settled(old(self).decision_cache@) ==> (r matches Ok(o) && settled(o)) && final(self).active@ == old(self).active@ && cache_settled(final(self).decision_cache@),
            fits_node(
                old(self).world(),
                old(self).max_depth as int,
                depth as int,
                user@,
                relation@,
                object@,
                active_set(old(self).active@),
            ) && cache_settled(old(self).decision_cache@) ==> (r matches Ok(o) && (o == EvalOutcome::Allow
                <==> holds(old(self).world(), user@, relation@, object@))),
            depth <= old(self).max_depth && is_cached(old(self).decision_cache@, user@, relation@, object@) ==> (r matches Ok(
                o,
            ) && cached_as(old(self).decision_cache@, user@, relation@, object@, o)),
            depth <= old(self).max_depth && !is_cached(old(self).decision_cache@, user@, relation@, object@)
                && active_set(old(self).active@).contains((user@, relation@, object@)) ==> r matches Ok(
                EvalOutcome::Deny(DenyReason::CycleDetected),
            ),
            r matches Ok(o) ==> (depth <= old(self).max_depth && !active_set(old(self).active@).contains(
                (user@, relation@, object@),
            ) ==> cached_as(final(self).decision_cache@, user@, relation@, object@, o)),
        decreases budget(old(self).max_depth, depth) + 1, 0nat, 0nat,
    {
        if depth > self.max_depth {
            return Ok(EvalOutcome::Deny(DenyReason::DepthExhausted));
        }
        if let Some(i) = self.find_cached(user, relation, object) {
            let o = self.decision_cache[i].outcome;
            proof {
                assert(entry_sound(self.world(), self.fuel@, self.decision_cache@[i as int]));
                if settled(o) {
                    lemma_settled_holds(self.world(), self.fuel@, user@, relation@, object@, o);
                }
            }
            return Ok(o);
        }
        let ghost key = (user@, relation@, object@);
        let ghost a0 = self.active@;
        if let Some(i) = self.find_active(user, relation, object) {
            proof {
                assert(self.active@[i as int].user@ == key.0);
                assert(active_set(a0).contains(key));
            }
            return Ok(EvalOutcome::Deny(DenyReason::CycleDetected));
        }
        self.active.push(
            ActiveKey {
                user: clone_user_ref(user),
                relation: str_to_string(relation),
                object: clone_object_ref(object),
            },
        );
        let model = self.model;
        let expr = match model.relation_expr(object.object_type.as_str(), relation) {
            Ok(e) => e,
            Err(e) => {
                return Err(e);
            },
        };
        proof {
            let a1 = self.active@;
            assert(a1.len() == a0.len() + 1);
            assert(a1[a0.len() as int].user@ == key.0);
            assert forall|k: (UserRefV, Seq<char>, ObjectRefV)|
                active_set(a1).contains(k) <==> #[trigger] active_set(a0).insert(key).contains(k) by {
                if active_set(a0).contains(k) {
                    let j = choose|j: int|
                        0 <= j < a0.len() && (#[trigger] a0[j]).user@ == k.0 && a0[j].relation@ == k.1
                            && a0[j].object@ == k.2;
                    assert(a1[j] == a0[j]);
                }
                if active_set(a1).contains(k) {
                    let j = choose|j: int|
                        0 <= j < a1.len() && (#[trigger] a1[j]).user@ == k.0 && a1[j].relation@ == k.1
                            && a1[j].object@ == k.2;
                    if j < a0.len() {
                        assert(a1[j] == a0[j]);
                    }
                }
            }
            assert(active_set(a1) =~= active_set(a0).insert(key));
        }
        let ghost a1 = self.active@;
        let ghost prem = fits_node(
            old(self).world(),
            old(self).max_depth as int,
            depth as int,
            user@,
            relation@,
            object@,
            active_set(a0),
        ) && cache_settled(old(self).decision_cache@);
        let res = self.eval_expr(user, relation, object, expr, depth);
        if let Some(i) = self.find_active(user, relation, object) {
            proof {
                if prem {
                    assert(self.active@ == a1);
                    if i < a0.len() {
                        assert(a1[i as int] == a0[i as int]);
                        assert(false);
                    }
                    assert(i == a0.len());
                }
            }
            self.active.remove(i);
            proof {
                if prem {
                    assert(self.active@ =~= a0);
                }
            }
        } else {
            proof {
                if prem {
                    assert(self.active@ == a1);
                    assert(a1[a0.len() as int].user@ == key.0);
                    assert(false);
                }
            }
        }
        let outcome = match res {
            Ok(o) => o,
            Err(e) => {
                return Err(e);
            },
        };
        proof {
            lemma_cache_lift(self.world(), self.fuel@, self.fuel@ + 1, self.decision_cache@);
        }
        self.fuel = Ghost((self.fuel@ + 1) as nat);
        let ghost before = self.decision_cache@;
        self.decision_cache.push(
            CacheEntry {
                user: clone_user_ref(user),
                relation: str_to_string(relation),
                object: clone_object_ref(object),
                outcome,
            },
        );
        proof {
            assert forall|i: int| 0 <= i < self.decision_cache@.len() implies entry_sound(
                self.world(),
                self.fuel@,
                #[trigger] self.decision_cache@[i],
            ) by {
                if i < before.len() {
                    assert(self.decision_cache@[i] == before[i]);
                }
            }
            let last = before.len() as int;
            assert(entry_sound(self.world(), self.fuel@, self.decision_cache@[last]));
            if settled(outcome) {
                lemma_settled_holds(self.world(), self.fuel@, user@, relation@, object@, outcome);
            }
        }
        Ok(outcome)
    }

    fn eval_expr(&mut self, user: &UserRef, relation: &str, object: &ObjectRef, expr: &RelationExpr, depth: usize) -> (r:
        Result<EvalOutcome, FgaError>)
        requires
            old(self).inv(),
        ensures
            final(self).inv(),
            final(self).same_world(&*old(self)),
            r matches Ok(o) ==> outcome_sound(
                o,
                val_expr(final(self).world(), final(self).fuel@, user@, relation@, object@, expr@),
            ),
            r matches Err(e) ==> undefined_relation_error(old(self).world().model, e),
            world_closed(old(self).world()) && expr_closed(old(self).world(), object@, expr@) ==> r is Ok,
            fits_expr(old(self).world(), old(self).max_depth as int, depth as int, user@, relation@, object@, expr@, active_set(old(self).active@)) && cache_settled(old(self).decision_cache@) ==> (r matches Ok(o) && settled(o)) && final(self).active@ == old(self).active@ && cache_settled(final(self).decision_cache@),
            r matches Ok(o) ==> (expr@ matches RelExprV::Union(c) ==> exists|outs: Seq<EvalOutcome>|
                #[trigger] union_outcome(outs) == o && answers_sound(
                    final(self).world(),
                    final(self).fuel@,
                    user@,
                    relation@,
                    object@,
                    c,
                    outs,
                ) && (outs.len() < c.len() ==> outs.len() > 0 && outs.last() == EvalOutcome::Allow)),
            r matches Ok(o) ==> (expr@ matches RelExprV::Intersection(c) ==> exists|outs: Seq<EvalOutcome>|
                #[trigger] intersection_outcome(outs) == o && outs.len() == c.len() && answers_sound(
                    final(self).world(),
                    final(self).fuel@,
                    user@,
                    relation@,
                    object@,
                    c,
                    outs,
                )),
            r matches Ok(o) ==> (expr@ matches RelExprV::Difference(b, sub) ==> exists|bo: EvalOutcome, so: Option<EvalOutcome>|
                #[trigger] difference_outcome(bo, so) == o && outcome_sound(
                    bo,
                    val_expr(final(self).world(), final(self).fuel@, user@, relation@, object@, *b),
                ) && (bo == EvalOutcome::Allow <==> so is Some) && (so matches Some(x) ==> outcome_sound(
                    x,
                    val_expr(final(self).world(), final(self).fuel@, user@, relation@, object@, *sub),
                ))),
        decreases budget(old(self).max_depth, depth), esize(expr@), 1nat,
    {
        match expr {
            RelationExpr::This => {
                proof {
                    assert(expr@ == RelExprV::This);
                }
                self.eval_direct(user, relation, object, depth)
            },
            RelationExpr::ComputedUserset { relation: target } => {
                proof {
                    assert(expr@ == RelExprV::Computed(target@));
                }
                if depth < self.max_depth {
                    self.check(user, target.as_str(), object, depth + 1)
                } else {
                    Ok(EvalOutcome::Deny(DenyReason::DepthExhausted))
                }
            },
            RelationExpr::TupleToUserset { tupleset, computed_userset } => {
                proof {
                    assert(expr@ == RelExprV::TupleToUserset(tupleset@, computed_userset@));
                }
                self.eval_ttu(user, object, tupleset.as_str(), computed_userset.as_str(), depth)
            },
            RelationExpr::Union { children } => {
                let r = self.eval_union(user, relation, object, children, depth);
                proof {
                    assert(expr@ == RelExprV::Union(views(children@)));
                    lemma_views(children@);
                }
                r
            },
            RelationExpr::Intersection { children } => {
                let r = self.eval_intersection(user, relation, object, children, depth);
                proof {
                    assert(expr@ == RelExprV::Intersection(views(children@)));
                    lemma_views(children@);
                }
                r
            },
            RelationExpr::Difference { base, subtract } => {
                let ghost w = self.world();
                let child_depth = depth.saturating_add(1);
                proof {
                    crate::fga_expr::lemma_esize_pos((**subtract)@);
                    crate::fga_expr::lemma_esize_pos((**base)@);
                }
                let b = match self.eval_expr(user, relation, object, base, child_depth) {
                    Ok(b) => b,
                    Err(e) => {
                        return Err(e);
                    },
                };
                if !b.is_allowed() {
                    proof {
                        assert(difference_outcome(b, None) == b);
                        assert(expr@ == RelExprV::Difference(Box::new((**base)@), Box::new((**subtract)@)));
                        assert(outcome_sound(b, val_expr(self.world(), self.fuel@, user@, relation@, object@, (**base)@)));
                    }
                    return Ok(b);
                }
                let ghost f1 = self.fuel@;
                let s = match self.eval_expr(user, relation, object, subtract, child_depth) {
                    Ok(s) => s,
                    Err(e) => {
                        return Err(e);
                    },
                };
                proof {
                    assert(self.world() == w);
                    lemma_mono_expr(w, f1, self.fuel@, user@, relation@, object@, (**base)@);
                    assert(expr@ == RelExprV::Difference(Box::new((**base)@), Box::new((**subtract)@)));
                    assert(outcome_sound(b, val_expr(self.world(), self.fuel@, user@, relation@, object@, (**base)@)));
                    assert(outcome_sound(s, val_expr(self.world(), self.fuel@, user@, relation@, object@, (**subtract)@)));
                }
                let out = match s {
                    EvalOutcome::Allow => EvalOutcome::Deny(DenyReason::NoMatch),
                    EvalOutcome::Deny(DenyReason::NoMatch) => EvalOutcome::Allow,
                    EvalOutcome::Deny(reason) => EvalOutcome::Deny(reason),
                };
                proof {
                    assert(difference_outcome(b, Some(s)) == out);
                    assert(b == EvalOutcome::Allow);
                }
                Ok(out)
            },
        }
    }

}

impl<'a> Evaluator<'a> {
    fn direct_tuple(&mut self, user: &UserRef, relation: &str, object: &ObjectRef, t: &ParsedTupleKey, depth: usize) -> (r:
        Result<EvalOutcome, FgaError>)
        requires
            old(self).inv(),
        ensures
            final(self).inv(),
            final(self).same_world(&*old(self)),
            r matches Ok(o) ==> outcome_sound(
                o,
                tuple_val(final(self).world(), final(self).fuel@, user@, relation@, object@, t@),
            ),
            r matches Err(e) ==> undefined_relation_error(old(self).world().model, e),
            world_closed(old(self).world()) && tuple_closed(old(self).world(), t@) ==> r is Ok,
            !(t@.object == object@ && t@.relation == relation@) ==> r matches Ok(EvalOutcome::Deny(DenyReason::NoMatch)),
            (t@.object == object@ && t@.relation == relation@ ==> match t@.user {
                UserRefV::Userset(uo, ur) => depth < old(self).max_depth && fits_node(old(self).world(), old(self).max_depth as int, depth + 1, user@, ur, uo, active_set(old(self).active@)),
                _ => true,
            }) && cache_settled(old(self).decision_cache@) ==> (r matches Ok(o) && settled(o)) && final(self).active@ == old(self).active@ && cache_settled(final(self).decision_cache@),
        decreases budget(old(self).max_depth, depth), 0nat, 1nat,
    {
        if !(object_ref_eq(&t.object, object) && str_eq(t.relation.as_str(), relation)) {
            return Ok(EvalOutcome::Deny(DenyReason::NoMatch));
        }
        match &t.user {
            UserRef::Userset { object: uo, relation: ur } => {
                if depth < self.max_depth {
                    self.check(user, ur.as_str(), uo, depth + 1)
                } else {
                    Ok(EvalOutcome::Deny(DenyReason::DepthExhausted))
                }
            },
            _ => {
                if t.user.matches(user) {
                    Ok(EvalOutcome::Allow)
                } else {
                    Ok(EvalOutcome::Deny(DenyReason::NoMatch))
                }
            },
        }
    }

    fn ttu_tuple(
        &mut self,
        user: &UserRef,
        object: &ObjectRef,
        tupleset: &str,
        computed: &str,
        t: &ParsedTupleKey,
        depth: usize,
    ) -> (r: Result<EvalOutcome, FgaError>)
        requires
            old(self).inv(),
        ensures
            final(self).inv(),
            final(self).same_world(&*old(self)),
            r matches Ok(o) ==> outcome_sound(
                o,
                ttu_val(final(self).world(), final(self).fuel@, user@, object@, tupleset@, computed@, t@),
            ),
            r matches Err(e) ==> undefined_relation_error(old(self).world().model, e),
            world_closed(old(self).world()) && (t@.object == object@ && t@.relation == tupleset@ ==> match t@.user {
                UserRefV::Object(target) => resolves(old(self).world(), target.object_type, computed@),
                _ => true,
            }) ==> r is Ok,
            !(t@.object == object@ && t@.relation == tupleset@) ==> r matches Ok(EvalOutcome::Deny(DenyReason::NoMatch)),
            (t@.object == object@ && t@.relation == tupleset@ ==> match t@.user {
                UserRefV::Object(target) => depth < old(self).max_depth && fits_node(old(self).world(), old(self).max_depth as int, depth + 1, user@, computed@, target, active_set(old(self).active@)),
                _ => true,
            }) && cache_settled(old(self).decision_cache@) ==> (r matches Ok(o) && settled(o)) && final(self).active@ == old(self).active@ && cache_settled(final(self).decision_cache@),
        decreases budget(old(self).max_depth, depth), 0nat, 1nat,
    {
        if !(object_ref_eq(&t.object, object) && str_eq(t.relation.as_str(), tupleset)) {
            return Ok(EvalOutcome::Deny(DenyReason::NoMatch));
        }
        match &t.user {
            UserRef::Object(target) => {
                if depth < self.max_depth {
                    self.check(user, computed, target, depth + 1)
                } else {
                    Ok(EvalOutcome::Deny(DenyReason::DepthExhausted))
                }
            },
            _ => Ok(EvalOutcome::Deny(DenyReason::NoMatch)),
        }
    }

    fn eval_direct(&mut self, user: &UserRef, relation: &str, object: &ObjectRef, depth: usize) -> (r: Result<
        EvalOutcome,
        FgaError,
    >)
        requires
            old(self).inv(),
        ensures
            final(self).inv(),
            final(self).same_world(&*old(self)),
            r matches Ok(o) ==> outcome_sound(
                o,
                val_direct(
                    final(self).world(),
                    final(self).fuel@,
                    user@,
                    relation@,
                    object@,
                    final(self).world().tuples.len(),
                ),
            ),
            r matches Err(e) ==> undefined_relation_error(old(self).world().model, e),
            world_closed(old(self).world()) ==> r is Ok,
            fits_expr(old(self).world(), old(self).max_depth as int, depth as int, user@, relation@, object@, RelExprV::This, active_set(old(self).active@)) && cache_settled(old(self).decision_cache@) ==> (r matches Ok(o) && settled(o)) && final(self).active@ == old(self).active@ && cache_settled(final(self).decision_cache@),
        decreases budget(old(self).max_depth, depth), 0nat, 2nat,
    {
        let ghost s0 = *self;
        let ghost w = self.world();
        let ghost prem = fits_expr(w, s0.max_depth as int, depth as int, user@, relation@, object@, RelExprV::This, active_set(s0.active@)) && cache_settled(s0.decision_cache@);
        let stored = self.stored;
        let ctx = self.contextual;
        let n1 = stored.len();
        let n2 = ctx.len();
        let mut denied = DenyReason::NoMatch;
        let mut k: usize = 0;
        while k < n1
            invariant
                s0 == *old(self),
                prem == (fits_expr(w, s0.max_depth as int, depth as int, user@, relation@, object@, RelExprV::This, active_set(s0.active@)) && cache_settled(s0.decision_cache@)),
                prem ==> (self.active@ == s0.active@ && cache_settled(self.decision_cache@) && denied
                    == DenyReason::NoMatch),
                self.inv(),
                self.same_world(&s0),
                s0.stored == stored,
                s0.contextual == ctx,
                w == s0.world(),
                k <= n1,
                n1 == stored@.len(),
                n2 == ctx@.len(),
                w.tuples == tuple_views(stored@) + tuple_views(ctx@),
                w.tuples.len() == n1 + n2,
                denied == DenyReason::NoMatch ==> val_direct(w, self.fuel@, user@, relation@, object@, k as nat)
                    == Truth::No,
            decreases n1 - k,
        {
            proof {
                assert(w.tuples[k as int] == stored@[k as int]@);
                if prem {
                    assert(self.world() == w);
                    assert(active_set(self.active@) == active_set(s0.active@));
                    lemma_fits_direct_at(w, s0.max_depth as int, depth as int, user@, relation@, object@, active_set(s0.active@), k as int);
                }
            }
            let ghost f0 = self.fuel@;
            let outcome = match self.direct_tuple(user, relation, object, &stored[k], depth) {
                Ok(o) => o,
                Err(e) => {
                    return Err(e);
                },
            };
            proof {
                lemma_mono_direct(w, f0, self.fuel@, user@, relation@, object@, k as nat);
            }
            if outcome.is_allowed() {
                proof {
                    lemma_direct_yes_extends(w, self.fuel@, user@, relation@, object@, (k + 1) as nat, w.tuples.len());
                }
                return Ok(EvalOutcome::Allow);
            }
            if let EvalOutcome::Deny(reason) = outcome {
                denied = denied.prefer(reason);
            }
            k = k + 1;
        }
        let mut j: usize = 0;
        while j < n2
            invariant
                s0 == *old(self),
                prem == (fits_expr(w, s0.max_depth as int, depth as int, user@, relation@, object@, RelExprV::This, active_set(s0.active@)) && cache_settled(s0.decision_cache@)),
                prem ==> (self.active@ == s0.active@ && cache_settled(self.decision_cache@) && denied
                    == DenyReason::NoMatch),
                self.inv(),
                self.same_world(&s0),
                s0.stored == stored,
                s0.contextual == ctx,
                w == s0.world(),
                j <= n2,
                n1 == stored@.len(),
                n2 == ctx@.len(),
                w.tuples == tuple_views(stored@) + tuple_views(ctx@),
                w.tuples.len() == n1 + n2,
                denied == DenyReason::NoMatch ==> val_direct(w, self.fuel@, user@, relation@, object@, (n1 + j) as nat)
                    == Truth::No,
            decreases n2 - j,
        {
            proof {
                assert(w.tuples[n1 + j] == ctx@[j as int]@);
                if prem {
                    assert(self.world() == w);
                    assert(active_set(self.active@) == active_set(s0.active@));
                    lemma_fits_direct_at(w, s0.max_depth as int, depth as int, user@, relation@, object@, active_set(s0.active@), n1 + j);
                }
            }
            let ghost f0 = self.fuel@;
            let outcome = match self.direct_tuple(user, relation, object, &ctx[j], depth) {
                Ok(o) => o,
                Err(e) => {
                    return Err(e);
                },
            };
            proof {
                lemma_mono_direct(w, f0, self.fuel@, user@, relation@, object@, (n1 + j) as nat);
            }
            if outcome.is_allowed() {
                proof {
                    lemma_direct_yes_extends(w, self.fuel@, user@, relation@, object@, (n1 + j + 1) as nat, w.tuples.len());
                }
                return Ok(EvalOutcome::Allow);
            }
            if let EvalOutcome::Deny(reason) = outcome {
                denied = denied.prefer(reason);
            }
            j = j + 1;
        }
        Ok(EvalOutcome::Deny(denied))
    }

    fn eval_ttu(&mut self, user: &UserRef, object: &ObjectRef, tupleset: &str, computed: &str, depth: usize) -> (r:
        Result<EvalOutcome, FgaError>)
        requires
            old(self).inv(),
        ensures
            final(self).inv(),
            final(self).same_world(&*old(self)),
            r matches Ok(o) ==> outcome_sound(
                o,
                val_ttu(
                    final(self).world(),
                    final(self).fuel@,
                    user@,
                    object@,
                    tupleset@,
                    computed@,
                    final(self).world().tuples.len(),
                ),
            ),
            r matches Err(e) ==> undefined_relation_error(old(self).world().model, e),
            world_closed(old(self).world()) && ttu_closed(old(self).world(), object@, tupleset@, computed@) ==> r is Ok,
            fits_ttu(old(self).world(), old(self).max_depth as int, depth as int, user@, object@, tupleset@, computed@, active_set(old(self).active@)) && cache_settled(old(self).decision_cache@) ==> (r matches Ok(o) && settled(o)) && final(self).active@ == old(self).active@ && cache_settled(final(self).decision_cache@),
        decreases budget(old(self).max_depth, depth), 0nat, 2nat,
    {
        let ghost s0 = *self;
        let ghost w = self.world();
        let ghost prem = fits_ttu(w, s0.max_depth as int, depth as int, user@, object@, tupleset@, computed@, active_set(s0.active@)) && cache_settled(s0.decision_cache@);
        let stored = self.stored;
        let ctx = self.contextual;
        let n1 = stored.len();
        let n2 = ctx.len();
        let mut denied = DenyReason::NoMatch;
        let mut k: usize = 0;
        while k < n1
            invariant
                s0 == *old(self),
                prem == (fits_ttu(w, s0.max_depth as int, depth as int, user@, object@, tupleset@, computed@, active_set(s0.active@)) && cache_settled(s0.decision_cache@)),
                prem ==> (self.active@ == s0.active@ && cache_settled(self.decision_cache@) && denied
                    == DenyReason::NoMatch),
                self.inv(),
                self.same_world(&s0),
                s0.stored == stored,
                s0.contextual == ctx,
                w == s0.world(),
                k <= n1,
                n1 == stored@.len(),
                n2 == ctx@.len(),
                w.tuples == tuple_views(stored@) + tuple_views(ctx@),
                w.tuples.len() == n1 + n2,
                denied == DenyReason::NoMatch ==> val_ttu(w, self.fuel@, user@, object@, tupleset@, computed@, k as nat)
                    == Truth::No,
            decreases n1 - k,
        {
            proof {
                assert(w.tuples[k as int] == stored@[k as int]@);
                if prem {
                    assert(self.world() == w);
                    assert(active_set(self.active@) == active_set(s0.active@));
                    lemma_fits_ttu_at(w, s0.max_depth as int, depth as int, user@, object@, tupleset@, computed@, active_set(s0.active@), k as int);
                }
            }
            let ghost f0 = self.fuel@;
            let outcome = match self.ttu_tuple(user, object, tupleset, computed, &stored[k], depth) {
                Ok(o) => o,
                Err(e) => {
                    return Err(e);
                },
            };
            proof {
                lemma_mono_ttu(w, f0, self.fuel@, user@, object@, tupleset@, computed@, k as nat);
            }
            if outcome.is_allowed() {
                proof {
                    lemma_ttu_yes_extends(w, self.fuel@, user@, object@, tupleset@, computed@, (k + 1) as nat, w.tuples.len());
                }
                return Ok(EvalOutcome::Allow);
            }
            if let EvalOutcome::Deny(reason) = outcome {
                denied = denied.prefer(reason);
            }
            k = k + 1;
        }
        let mut j: usize = 0;
        while j < n2
            invariant
                s0 == *old(self),
                prem == (fits_ttu(w, s0.max_depth as int, depth as int, user@, object@, tupleset@, computed@, active_set(s0.active@)) && cache_settled(s0.decision_cache@)),
                prem ==> (self.active@ == s0.active@ && cache_settled(self.decision_cache@) && denied
                    == DenyReason::NoMatch),
                self.inv(),
                self.same_world(&s0),
                s0.stored == stored,
                s0.contextual == ctx,
                w == s0.world(),
                j <= n2,
                n1 == stored@.len(),
                n2 == ctx@.len(),
                w.tuples == tuple_views(stored@) + tuple_views(ctx@),
                w.tuples.len() == n1 + n2,
                denied == DenyReason::NoMatch ==> val_ttu(w, self.fuel@, user@, object@, tupleset@, computed@, (n1 + j) as nat)
                    == Truth::No,
            decreases n2 - j,
        {
            proof {
                assert(w.tuples[n1 + j] == ctx@[j as int]@);
                if prem {
                    assert(self.world() == w);
                    assert(active_set(self.active@) == active_set(s0.active@));
                    lemma_fits_ttu_at(w, s0.max_depth as int, depth as int, user@, object@, tupleset@, computed@, active_set(s0.active@), n1 + j);
                }
            }
            let ghost f0 = self.fuel@;
            let outcome = match self.ttu_tuple(user, object, tupleset, computed, &ctx[j], depth) {
                Ok(o) => o,
                Err(e) => {
                    return Err(e);
                },
            };
            proof {
                lemma_mono_ttu(w, f0, self.fuel@, user@, object@, tupleset@, computed@, (n1 + j) as nat);
            }
            if outcome.is_allowed() {
                proof {
                    lemma_ttu_yes_extends(w, self.fuel@, user@, object@, tupleset@, computed@, (n1 + j + 1) as nat, w.tuples.len());
                }
                return Ok(EvalOutcome::Allow);
            }
            if let EvalOutcome::Deny(reason) = outcome {
                denied = denied.prefer(reason);
            }
            j = j + 1;
        }
        Ok(EvalOutcome::Deny(denied))
    }

    fn eval_union(
        &mut self,
        user: &UserRef,
        relation: &str,
        object: &ObjectRef,
        children: &Vec<RelationExpr>,
        depth: usize,
    ) -> (r: Result<EvalOutcome, FgaError>)
        requires
            old(self).inv(),
        ensures
            final(self).inv(),
            final(self).same_world(&*old(self)),
            r matches Ok(o) ==> outcome_sound(
                o,
                val_any(final(self).world(), final(self).fuel@, user@, relation@, object@, views(children@)),
            ),
            r matches Err(e) ==> undefined_relation_error(old(self).world().model, e),
            world_closed(old(self).world()) && exprs_closed(old(self).world(), object@, views(children@)) ==> r is Ok,
            fits_exprs(old(self).world(), old(self).max_depth as int, next_depth(depth as int), user@, relation@, object@, views(children@), active_set(old(self).active@)) && cache_settled(old(self).decision_cache@) ==> (r matches Ok(o) && settled(o)) && final(self).active@ == old(self).active@ && cache_settled(final(self).decision_cache@),
            r matches Ok(o) ==> exists|outs: Seq<EvalOutcome>|
                #[trigger] union_outcome(outs) == o && answers_sound(
                    final(self).world(),
                    final(self).fuel@,
                    user@,
                    relation@,
                    object@,
                    views(children@),
                    outs,
                ) && (outs.len() < children@.len() ==> outs.len() > 0 && outs.last() == EvalOutcome::Allow),
        decreases budget(old(self).max_depth, depth), lsize(views(children@)), 2nat,
    {
        let ghost s0 = *self;
        let ghost w = self.world();
        let ghost cv = views(children@);
        let ghost prem = fits_exprs(w, s0.max_depth as int, next_depth(depth as int), user@, relation@, object@, cv, active_set(s0.active@)) && cache_settled(s0.decision_cache@);
        proof {
            lemma_views(children@);
            assert(cv.subrange(0, 0) =~= Seq::<RelExprV>::empty());
        }
        let child_depth = depth.saturating_add(1);
        let mut denied = DenyReason::NoMatch;
        let ghost mut outs: Seq<EvalOutcome> = Seq::empty();
        let mut i: usize = 0;
        while i < children.len()
            invariant
                s0 == *old(self),
                prem == (fits_exprs(w, s0.max_depth as int, next_depth(depth as int), user@, relation@, object@, cv, active_set(s0.active@)) && cache_settled(s0.decision_cache@)),
                prem ==> (self.active@ == s0.active@ && cache_settled(self.decision_cache@) && denied
                    == DenyReason::NoMatch),
                self.inv(),
                self.same_world(&s0),
                w == s0.world(),
                child_depth == depth.saturating_add(1),
                i <= children@.len(),
                cv == views(children@),
                cv.len() == children@.len(),
                outs.len() == i,
                !has_allow(outs),
                denied == fold_reason(outs),
                answers_sound(w, self.fuel@, user@, relation@, object@, cv, outs),
                forall|j: int| 0 <= j < children@.len() ==> #[trigger] cv[j] == children@[j]@,
                denied == DenyReason::NoMatch ==> val_any(w, self.fuel@, user@, relation@, object@, cv.subrange(0, i as int))
                    == Truth::No,
            decreases children.len() - i,
        {
            proof {
                lemma_lsize_elem(cv, i as int);
                if prem {
                    assert(self.world() == w);
                    assert(active_set(self.active@) == active_set(s0.active@));
                    lemma_fits_exprs_elem(w, s0.max_depth as int, next_depth(depth as int), user@, relation@, object@, cv, active_set(s0.active@), i as int);
                    assert(child_depth as int == next_depth(depth as int));
                }
            }
            let ghost f0 = self.fuel@;
            proof {
                if world_closed(w) && exprs_closed(w, object@, cv) {
                    lemma_exprs_closed_elem(w, object@, cv, i as int);
                }
            }
            let outcome = match self.eval_expr(user, relation, object, &children[i], child_depth) {
                Ok(o) => o,
                Err(e) => {
                    return Err(e);
                },
            };
            proof {
                lemma_answers_lift(w, f0, self.fuel@, user@, relation@, object@, cv, outs);
                let outs0 = outs;
                outs = outs.push(outcome);
                assert(outs.drop_last() =~= outs0);
                assert forall|j: int| 0 <= j < outs.len() implies outcome_sound(#[trigger] outs[j], val_expr(w, self.fuel@, user@, relation@, object@, cv[j])) by {
                    if j < outs0.len() {
                        assert(outs[j] == outs0[j]);
                    }
                }
                if outcome != EvalOutcome::Allow {
                    assert(!has_allow(outs)) by {
                        assert forall|j: int| 0 <= j < outs.len() implies outs[j] != EvalOutcome::Allow by {
                            if j < outs0.len() {
                                assert(outs[j] == outs0[j]);
                            }
                        }
                    }
                } else {
                    assert(outs[outs.len() - 1] == EvalOutcome::Allow);
                }
                lemma_mono_any(w, f0, self.fuel@, user@, relation@, object@, cv.subrange(0, i as int));
                let pre = cv.subrange(0, i as int + 1);
                assert(pre.drop_last() =~= cv.subrange(0, i as int));
                assert(pre.last() == cv[i as int]);
            }
            if outcome.is_allowed() {
                proof {
                    lemma_any_yes_extends(w, self.fuel@, user@, relation@, object@, cv, i as int + 1);
                    assert(union_outcome(outs) == EvalOutcome::Allow);
                }
                return Ok(EvalOutcome::Allow);
            }
            if let EvalOutcome::Deny(reason) = outcome {
                denied = denied.prefer(reason);
            }
            i = i + 1;
        }
        proof {
            assert(cv.subrange(0, cv.len() as int) =~= cv);
            assert(union_outcome(outs) == EvalOutcome::Deny(denied));
        }
        Ok(EvalOutcome::Deny(denied))
    }

    fn eval_intersection(
        &mut self,
        user: &UserRef,
        relation: &str,
        object: &ObjectRef,
        children: &Vec<RelationExpr>,
        depth: usize,
    ) -> (r: Result<EvalOutcome, FgaError>)
        requires
            old(self).inv(),
        ensures
            final(self).inv(),
            final(self).same_world(&*old(self)),
            r matches Ok(o) ==> outcome_sound(
                o,
                val_all(final(self).world(), final(self).fuel@, user@, relation@, object@, views(children@)),
            ),
            r matches Err(e) ==> undefined_relation_error(old(self).world().model, e),
            world_closed(old(self).world()) && exprs_closed(old(self).world(), object@, views(children@)) ==> r is Ok,
            fits_exprs(old(self).world(), old(self).max_depth as int, next_depth(depth as int), user@, relation@, object@, views(children@), active_set(old(self).active@)) && cache_settled(old(self).decision_cache@) ==> (r matches Ok(o) && settled(o)) && final(self).active@ == old(self).active@ && cache_settled(final(self).decision_cache@),
            r matches Ok(o) ==> exists|outs: Seq<EvalOutcome>|
                #[trigger] intersection_outcome(outs) == o && outs.len() == children@.len() && answers_sound(
                    final(self).world(),
                    final(self).fuel@,
                    user@,
                    relation@,
                    object@,
                    views(children@),
                    outs,
                ),
        decreases budget(old(self).max_depth, depth), lsize(views(children@)), 2nat,
    {
        let ghost s0 = *self;
        let ghost w = self.world();
        let ghost cv = views(children@);
        let ghost prem = fits_exprs(w, s0.max_depth as int, next_depth(depth as int), user@, relation@, object@, cv, active_set(s0.active@)) && cache_settled(s0.decision_cache@);
        proof {
            lemma_views(children@);
            assert(cv.subrange(0, 0) =~= Seq::<RelExprV>::empty());
        }
        let child_depth = depth.saturating_add(1);
        let mut denied = DenyReason::NoMatch;
        let mut all_allowed = true;
        let ghost mut outs: Seq<EvalOutcome> = Seq::empty();
        let mut i: usize = 0;
        while i < children.len()
            invariant
                s0 == *old(self),
                prem == (fits_exprs(w, s0.max_depth as int, next_depth(depth as int), user@, relation@, object@, cv, active_set(s0.active@)) && cache_settled(s0.decision_cache@)),
                prem ==> (self.active@ == s0.active@ && cache_settled(self.decision_cache@) && denied
                    == DenyReason::NoMatch),
                self.inv(),
                self.same_world(&s0),
                w == s0.world(),
                child_depth == depth.saturating_add(1),
                i <= children@.len(),
                cv == views(children@),
                cv.len() == children@.len(),
                outs.len() == i,
                all_allowed == (forall|j: int| 0 <= j < outs.len() ==> outs[j] == EvalOutcome::Allow),
                denied == fold_reason(outs),
                answers_sound(w, self.fuel@, user@, relation@, object@, cv, outs),
                forall|j: int| 0 <= j < children@.len() ==> #[trigger] cv[j] == children@[j]@,
                all_allowed ==> val_all(w, self.fuel@, user@, relation@, object@, cv.subrange(0, i as int))
                    == Truth::Yes,
                !all_allowed && denied == DenyReason::NoMatch ==> val_all(
                    w,
                    self.fuel@,
                    user@,
                    relation@,
                    object@,
                    cv.subrange(0, i as int),
                ) == Truth::No,
            decreases children.len() - i,
        {
            proof {
                lemma_lsize_elem(cv, i as int);
                if prem {
                    assert(self.world() == w);
                    assert(active_set(self.active@) == active_set(s0.active@));
                    lemma_fits_exprs_elem(w, s0.max_depth as int, next_depth(depth as int), user@, relation@, object@, cv, active_set(s0.active@), i as int);
                    assert(child_depth as int == next_depth(depth as int));
                }
            }
            let ghost f0 = self.fuel@;
            proof {
                if world_closed(w) && exprs_closed(w, object@, cv) {
                    lemma_exprs_closed_elem(w, object@, cv, i as int);
                }
            }
            let outcome = match self.eval_expr(user, relation, object, &children[i], child_depth) {
                Ok(o) => o,
                Err(e) => {
                    return Err(e);
                },
            };
            proof {
                lemma_answers_lift(w, f0, self.fuel@, user@, relation@, object@, cv, outs);
                let outs0 = outs;
                outs = outs.push(outcome);
                assert(outs.drop_last() =~= outs0);
                assert forall|j: int| 0 <= j < outs.len() implies outcome_sound(#[trigger] outs[j], val_expr(w, self.fuel@, user@, relation@, object@, cv[j])) by {
                    if j < outs0.len() {
                        assert(outs[j] == outs0[j]);
                    }
                }
                assert((forall|j: int| 0 <= j < outs.len() ==> outs[j] == EvalOutcome::Allow) == ((forall|j: int|
                    0 <= j < outs0.len() ==> outs0[j] == EvalOutcome::Allow) && outcome == EvalOutcome::Allow)) by {
                    if outcome == EvalOutcome::Allow {
                        assert forall|j: int| 0 <= j < outs0.len() implies outs0[j] == EvalOutcome::Allow <==> outs[j] == EvalOutcome::Allow by {
                            assert(outs[j] == outs0[j]);
                        }
                    } else {
                        assert(outs[outs.len() - 1] != EvalOutcome::Allow);
                    }
                    if forall|j: int| 0 <= j < outs.len() ==> outs[j] == EvalOutcome::Allow {
                        assert forall|j: int| 0 <= j < outs0.len() implies outs0[j] == EvalOutcome::Allow by {
                            assert(outs[j] == outs0[j]);
                        }
                    }
                }
                lemma_mono_all(w, f0, self.fuel@, user@, relation@, object@, cv.subrange(0, i as int));
                let pre = cv.subrange(0, i as int + 1);
                assert(pre.drop_last() =~= cv.subrange(0, i as int));
                assert(pre.last() == cv[i as int]);
            }
            if !outcome.is_allowed() {
                all_allowed = false;
                if let EvalOutcome::Deny(reason) = outcome {
                    denied = denied.prefer(reason);
                }
            }
            i = i + 1;
        }
        proof {
            assert(cv.subrange(0, cv.len() as int) =~= cv);
            if all_allowed {
                assert(intersection_outcome(outs) == EvalOutcome::Allow);
            } else {
                assert(intersection_outcome(outs) == EvalOutcome::Deny(denied));
            }
        }
        if all_allowed {
            Ok(EvalOutcome::Allow)
        } else {
            Ok(EvalOutcome::Deny(denied))
        }
    }
}


impl<'a> Evaluator<'a> {
    /// Keeps the first guardrail denial (cycle or depth) of the request.
    pub fn record_request_issue(&mut self, user: &UserRef, relation: &str, object: &ObjectRef, outcome: EvalOutcome)
        ensures
            final(self).model == old(self).model,
            final(self).stored == old(self).stored,
            final(self).contextual == old(self).contextual,
            final(self).max_depth == old(self).max_depth,
            final(self).fuel == old(self).fuel,
            final(self).decision_cache == old(self).decision_cache,
            final(self).active == old(self).active,
            match old(self).request_issue {
                Some(_) => final(self).request_issue == old(self).request_issue,
                None => match outcome {
                    EvalOutcome::Deny(r) => if r == DenyReason::NoMatch {
                        final(self).request_issue is None
                    } else {
                        final(self).request_issue matches Some(issue) && issue.reason == r && issue.user@
                            == spec_user_raw(user@) && issue.relation@ == relation@ && issue.object@
                            == spec_object_raw(object@)
                    },
                    EvalOutcome::Allow => final(self).request_issue is None,
                },
            },
    {
        let reason = match outcome.deny_reason() {
            Some(r) => r,
            None => {
                return;
            },
        };
        if reason == DenyReason::NoMatch || self.request_issue.is_some() {
            return;
        }
        self.request_issue = Some(
            EvalIssue { reason, user: user.as_raw(), relation: str_to_string(relation), object: object.as_raw() },
        );
    }
}

/// The world a request is read against: the model, the stored tuples and
/// the request's contextual tuples.
pub open spec fn request_world(model: crate::fga_model::ModelV, stored: Seq<ParsedTupleKey>, contextual: Seq<TupleV>) -> World {
    World { model, tuples: tuple_views(stored) + contextual }
}

/// `user` stands in `relation` to `object` in the world.
pub open spec fn holds(w: World, u: UserRefV, r: Seq<char>, o: crate::fga_refs::ObjectRefV) -> bool {
    exists|n: nat| val_rel(w, n, u, r, o) == Truth::Yes
}

/// The check of `u` in `o#r`, started at depth 0 with nothing under way,
/// meets neither the depth limit `max`, nor a cycle, nor an undefined
/// relation, on any branch.
pub open spec fn check_fits(w: World, max: int, u: UserRefV, r: Seq<char>, o: crate::fga_refs::ObjectRefV) -> bool {
    fits_node(w, max, 0, u, r, o, Set::empty())
}

/// The tuple parses and its check fits (see `check_fits`).
pub open spec fn key_fits(w: World, max: int, key: TupleKey) -> bool {
    match spec_parse_tuple(key.user@, key.relation@, key.object@) {
        Ok(t) => check_fits(w, max, t.user, t.relation, t.object),
        Err(_) => false,
    }
}

/// The tuple parses and holds in the world.
pub open spec fn key_holds(w: World, key: TupleKey) -> bool {
    match spec_parse_tuple(key.user@, key.relation@, key.object@) {
        Ok(t) => holds(w, t.user, t.relation, t.object),
        Err(_) => false,
    }
}

pub open spec fn context_text() -> Seq<char> {
    "request context is not supported by the embedded v1 server"@
}

pub open spec fn contextual_keys(c: Option<ContextualTuples>) -> Seq<TupleKey> {
    match c {
        Some(t) => t.tuple_keys@,
        None => Seq::empty(),
    }
}

pub fn parse_contextual(contextual: Option<ContextualTuples>) -> (r: Result<Vec<ParsedTupleKey>, FgaError>)
    ensures
        match r {
            Ok(p) => spec_parse_all(contextual_keys(contextual)) == Ok::<Seq<TupleV>, FgaErrorV>(parsed_views(p@)),
            Err(e) => spec_parse_all(contextual_keys(contextual)) == Err::<Seq<TupleV>, FgaErrorV>(e@),
        },
{
    match contextual {
        Some(c) => parse_all(c.tuple_keys),
        None => {
            let v: Vec<ParsedTupleKey> = Vec::new();
            assert(parsed_views(v@) =~= Seq::<TupleV>::empty());
            Ok(v)
        },
    }
}

pub proof fn lemma_parsed_views_are_tuple_views(s: Seq<ParsedTupleKey>)
    ensures
        parsed_views(s) == tuple_views(s),
{
    assert(parsed_views(s) =~= tuple_views(s));
}

/// Checks one tuple against a model, the stored tuples and the request's
/// contextual tuples. A request context is refused; the tuple and the
/// contextual tuples must parse. An `allowed` answer is true of the model
/// and tuples.
pub fn evaluate_check(model: &CompiledModel, stored: &Vec<ParsedTupleKey>, request: CheckRequest, max_depth: usize) -> (r:
    Result<CheckResponse, FgaError>)
    ensures
        request.context is Some ==> (r matches Err(e) && e.is_unsupported(context_text())),
        request.context is None ==> match spec_parse_tuple(
            request.tuple_key.user@,
            request.tuple_key.relation@,
            request.tuple_key.object@,
        ) {
            Err(pe) => r matches Err(e) && e@ == pe,
            Ok(t) => match spec_parse_all(contextual_keys(request.contextual_tuples)) {
                Err(ce) => r matches Err(e) && e@ == ce,
                Ok(ctx) => (r matches Ok(resp) ==> (resp.allowed ==> holds(
                    request_world(model@, stored@, ctx),
                    t.user,
                    t.relation,
                    t.object,
                ))) && (check_fits(request_world(model@, stored@, ctx), max_depth as int, t.user, t.relation, t.object)
                    ==> (r matches Ok(resp) && (resp.allowed <==> holds(
                    request_world(model@, stored@, ctx),
                    t.user,
                    t.relation,
                    t.object,
                )))),
            },
        },
{
    if request.context.is_some() {
        return Err(FgaError::Unsupported(str_to_string("request context is not supported by the embedded v1 server")));
    }
    let tuple = match ParsedTupleKey::parse(request.tuple_key) {
        Ok(t) => t,
        Err(e) => {
            return Err(e);
        },
    };
    let contextual = match parse_contextual(request.contextual_tuples) {
        Ok(c) => c,
        Err(e) => {
            return Err(e);
        },
    };
    let mut ev = Evaluator::new(model, stored, &contextual, max_depth);
    proof {
        assert(active_set(ev.active@) =~= Set::<(UserRefV, Seq<char>, crate::fga_refs::ObjectRefV)>::empty());
        lemma_parsed_views_are_tuple_views(contextual@);
    }
    let outcome = match ev.check(&tuple.user, tuple.relation.as_str(), &tuple.object, 0) {
        Ok(o) => o,
        Err(e) => {
            return Err(e);
        },
    };
    ev.record_request_issue(&tuple.user, tuple.relation.as_str(), &tuple.object, outcome);
    proof {
        lemma_parsed_views_are_tuple_views(contextual@);
        if outcome == EvalOutcome::Allow {
            assert(val_rel(ev.world(), ev.fuel@, tuple@.user, tuple@.relation, tuple@.object) == Truth::Yes);
        }
    }
    Ok(CheckResponse { allowed: outcome.is_allowed() })
}

/// Checks several tuples against one model and set of tuples, in order, with
/// one shared cache. Every `allowed` answer is true of the model and tuples;
/// correlation ids are passed through.
pub fn evaluate_batch_check(
    model: &CompiledModel,
    stored: &Vec<ParsedTupleKey>,
    request: BatchCheckRequest,
    max_depth: usize,
) -> (r: Result<BatchCheckResponse, FgaError>)
    ensures
        request.context is Some ==> (r matches Err(e) && e.is_unsupported(context_text())),
        request.context is None ==> match spec_parse_all(contextual_keys(request.contextual_tuples)) {
            Err(ce) => r matches Err(e) && e@ == ce,
            Ok(ctx) => (r matches Ok(resp) ==> resp.results@.len() == request.checks@.len() && forall|i: int|
                0 <= i < resp.results@.len() ==> (#[trigger] resp.results@[i]).correlation_id
                    == request.checks@[i].correlation_id && (resp.results@[i].allowed ==> key_holds(
                    request_world(model@, stored@, ctx),
                    request.checks@[i].tuple_key,
                )) && ((forall|j: int|
                    0 <= j <= i ==> key_fits(
                        request_world(model@, stored@, ctx),
                        max_depth as int,
                        #[trigger] request.checks@[j].tuple_key,
                    )) ==> (resp.results@[i].allowed <==> key_holds(
                    request_world(model@, stored@, ctx),
                    request.checks@[i].tuple_key,
                )))) && ((forall|j: int|
                0 <= j < request.checks@.len() ==> key_fits(
                    request_world(model@, stored@, ctx),
                    max_depth as int,
                    #[trigger] request.checks@[j].tuple_key,
                )) ==> r is Ok),
        },
{
    if request.context.is_some() {
        return Err(FgaError::Unsupported(str_to_string("request context is not supported by the embedded v1 server")));
    }
    let contextual = match parse_contextual(request.contextual_tuples) {
        Ok(c) => c,
        Err(e) => {
            return Err(e);
        },
    };
    let ghost ctx = parsed_views(contextual@);
    proof {
        lemma_parsed_views_are_tuple_views(contextual@);
    }
    let mut ev = Evaluator::new(model, stored, &contextual, max_depth);
    let ghost checks = request.checks@;
    let n = request.checks.len();
    let mut rest = request.checks;
    let mut results: Vec<BatchCheckResult> = Vec::new();
    let mut k: usize = 0;
    assert(checks.subrange(0, checks.len() as int) =~= checks);
    while rest.len() > 0
        invariant
            ev.inv(),
            ev.model == model,
            ev.stored == stored,
            ev.contextual == &contextual,
            ctx == tuple_views(contextual@),
            ctx == parsed_views(contextual@),
            request.context is None,
            spec_parse_all(contextual_keys(request.contextual_tuples)) == Ok::<Seq<TupleV>, FgaErrorV>(ctx),
            checks == request.checks@,
            checks.len() == n,
            k <= checks.len(),
            rest@ == checks.subrange(k as int, checks.len() as int),
            results@.len() == k,
            forall|i: int|
                0 <= i < k ==> (#[trigger] results@[i]).correlation_id == checks[i].correlation_id && (
                results@[i].allowed ==> key_holds(request_world(model@, stored@, ctx), checks[i].tuple_key)),
            ev.max_depth == max_depth,
            (forall|j: int| 0 <= j < k ==> key_fits(request_world(model@, stored@, ctx), max_depth as int, #[trigger] checks[j].tuple_key))
                ==> (cache_settled(ev.decision_cache@) && ev.active@.len() == 0),
            forall|i: int|
                0 <= i < k ==> ((forall|j: int|
                    0 <= j <= i ==> key_fits(request_world(model@, stored@, ctx), max_depth as int, #[trigger] checks[j].tuple_key))
                    ==> ((#[trigger] results@[i]).allowed <==> key_holds(request_world(model@, stored@, ctx), checks[i].tuple_key))),
        decreases rest.len(),
    {
        let item = rest.remove(0);
        proof {
            assert(item == checks[k as int]);
            assert(rest@ =~= checks.subrange(k as int + 1, checks.len() as int));
        }
        let tuple = match ParsedTupleKey::parse(item.tuple_key) {
            Ok(t) => t,
            Err(e) => {
                return Err(e);
            },
        };
        let ghost wr = request_world(model@, stored@, ctx);
        let ghost prefix = forall|j: int| 0 <= j <= k ==> key_fits(wr, max_depth as int, #[trigger] checks[j].tuple_key);
        proof {
            if prefix {
                assert(forall|j: int| 0 <= j < k ==> key_fits(wr, max_depth as int, #[trigger] checks[j].tuple_key)) by {
                    assert forall|j: int| 0 <= j < k implies key_fits(wr, max_depth as int, #[trigger] checks[j].tuple_key) by {
                        assert(0 <= j <= k);
                    }
                }
                assert(key_fits(wr, max_depth as int, checks[k as int].tuple_key));
                assert(active_set(ev.active@) =~= Set::<(UserRefV, Seq<char>, crate::fga_refs::ObjectRefV)>::empty());
                assert(ev.world() == wr);
            }
        }
        let ghost cache0 = ev.decision_cache@;
        let outcome = match ev.check(&tuple.user, tuple.relation.as_str(), &tuple.object, 0) {
            Ok(o) => o,
            Err(e) => {
                return Err(e);
            },
        };
        ev.record_request_issue(&tuple.user, tuple.relation.as_str(), &tuple.object, outcome);
        proof {
            if outcome == EvalOutcome::Allow {
                assert(val_rel(ev.world(), ev.fuel@, tuple@.user, tuple@.relation, tuple@.object) == Truth::Yes);
            }
        }
        let ghost old_results = results@;
        results.push(BatchCheckResult { correlation_id: item.correlation_id, allowed: outcome.is_allowed() });
        proof {
            assert forall|i: int|
                0 <= i < k + 1 implies ((forall|j: int|
                    0 <= j <= i ==> key_fits(wr, max_depth as int, #[trigger] checks[j].tuple_key))
                    ==> ((#[trigger] results@[i]).allowed <==> key_holds(wr, checks[i].tuple_key))) by {
                if i < k {
                    assert(results@[i] == old_results[i]);
                }
            }
            if forall|j: int| 0 <= j < k + 1 ==> key_fits(wr, max_depth as int, #[trigger] checks[j].tuple_key) {
                assert(prefix) by {
                    assert forall|j: int| 0 <= j <= k implies key_fits(wr, max_depth as int, #[trigger] checks[j].tuple_key) by {
                        assert(0 <= j < k + 1);
                    }
                }
            }
        }
        k = k + 1;
    }
    Ok(BatchCheckResponse { results })
}

} // verus!
