//! What a relation means: a three-valued reading of a model over a set of
//! tuples, unfolded a bounded number of times (`fuel`). `Unknown` stands for
//! "not settled within the fuel" (or an undefined relation); a settled answer
//! never changes when more fuel is given.

use vstd::prelude::*;

use crate::fga_expr::{RelExprV, esize, lsize};
use crate::fga_model::{ModelV, spec_relation_expr};
use crate::fga_refs::{ObjectRefV, TupleV, UserRefV, spec_user_matches};

verus! {

/// A truth value that may not be settled yet.
#[derive(Debug)]
pub enum Truth {
    Yes,
    No,
    Unknown,
}

pub open spec fn or3(a: Truth, b: Truth) -> Truth {
    if a == Truth::Yes || b == Truth::Yes {
        Truth::Yes
    } else if a == Truth::No && b == Truth::No {
        Truth::No
    } else {
        Truth::Unknown
    }
}

pub open spec fn and3(a: Truth, b: Truth) -> Truth {
    if a == Truth::No || b == Truth::No {
        Truth::No
    } else if a == Truth::Yes && b == Truth::Yes {
        Truth::Yes
    } else {
        Truth::Unknown
    }
}

pub open spec fn not3(a: Truth) -> Truth {
    match a {
        Truth::Yes => Truth::No,
        Truth::No => Truth::Yes,
        Truth::Unknown => Truth::Unknown,
    }
}

/// `a` is `b`, or not settled yet.
pub open spec fn refines(a: Truth, b: Truth) -> bool {
    a == Truth::Unknown || a == b
}

/// A model together with the tuples it is read over.
pub struct World {
    pub model: ModelV,
    pub tuples: Seq<TupleV>,
}

/// What one stored tuple says about `user` on `object#relation`.
pub open spec fn tuple_val(w: World, m: nat, u: UserRefV, r: Seq<char>, o: ObjectRefV, t: TupleV) -> Truth
    decreases m, 0nat, 1nat,
{
    if t.object == o && t.relation == r {
        match t.user {
            UserRefV::Userset(obj, rel) => val_rel(w, m, u, rel, obj),
            _ => if spec_user_matches(t.user, u) {
                Truth::Yes
            } else {
                Truth::No
            },
        }
    } else {
        Truth::No
    }
}

/// `user` is in `object#relation`.
pub open spec fn val_rel(w: World, n: nat, u: UserRefV, r: Seq<char>, o: ObjectRefV) -> Truth
    decreases n, 0nat, 0nat,
{
    if n == 0 {
        Truth::Unknown
    } else {
        match spec_relation_expr(w.model, o.object_type, r) {
            None => Truth::Unknown,
            Some(e) => val_expr(w, (n - 1) as nat, u, r, o, e),
        }
    }
}

/// The direct tuples among the first `k` tuples, joined by "or".
pub open spec fn val_direct(w: World, m: nat, u: UserRefV, r: Seq<char>, o: ObjectRefV, k: nat) -> Truth
    decreases m, 0nat, k + 2,
{
    if k == 0 || k > w.tuples.len() {
        Truth::No
    } else {
        or3(val_direct(w, m, u, r, o, (k - 1) as nat), tuple_val(w, m, u, r, o, w.tuples[k - 1]))
    }
}

/// What one tupleset tuple says for a tuple-to-userset rewrite.
pub open spec fn ttu_val(w: World, m: nat, u: UserRefV, o: ObjectRefV, ts: Seq<char>, cu: Seq<char>, t: TupleV) -> Truth
    decreases m, 0nat, 1nat,
{
    if t.object == o && t.relation == ts {
        match t.user {
            UserRefV::Object(target) => val_rel(w, m, u, cu, target),
            _ => Truth::No,
        }
    } else {
        Truth::No
    }
}

pub open spec fn val_ttu(w: World, m: nat, u: UserRefV, o: ObjectRefV, ts: Seq<char>, cu: Seq<char>, k: nat) -> Truth
    decreases m, 0nat, k + 2,
{
    if k == 0 || k > w.tuples.len() {
        Truth::No
    } else {
        or3(val_ttu(w, m, u, o, ts, cu, (k - 1) as nat), ttu_val(w, m, u, o, ts, cu, w.tuples[k - 1]))
    }
}

/// `user` satisfies rewrite `e` of `object#relation`.
pub open spec fn val_expr(w: World, m: nat, u: UserRefV, r: Seq<char>, o: ObjectRefV, e: RelExprV) -> Truth
    decreases m, esize(e), 0nat,
{
    match e {
        RelExprV::This => val_direct(w, m, u, r, o, w.tuples.len()),
        RelExprV::Computed(r2) => val_rel(w, m, u, r2, o),
        RelExprV::TupleToUserset(ts, cu) => val_ttu(w, m, u, o, ts, cu, w.tuples.len()),
        RelExprV::Union(c) => val_any(w, m, u, r, o, c),
        RelExprV::Intersection(c) => val_all(w, m, u, r, o, c),
        RelExprV::Difference(b, s) => {
            proof {
                assert(esize(*b) >= 1 && esize(*s) >= 1) by {
                    crate::fga_expr::lemma_esize_pos(*b);
                    crate::fga_expr::lemma_esize_pos(*s);
                }
            }
            and3(val_expr(w, m, u, r, o, *b), not3(val_expr(w, m, u, r, o, *s)))
        },
    }
}

pub open spec fn val_any(w: World, m: nat, u: UserRefV, r: Seq<char>, o: ObjectRefV, c: Seq<RelExprV>) -> Truth
    decreases m, lsize(c), 1nat,
{
    if c.len() == 0 {
        Truth::No
    } else {
        proof {
            crate::fga_expr::lemma_esize_pos(c.last());
        }
        or3(val_any(w, m, u, r, o, c.drop_last()), val_expr(w, m, u, r, o, c.last()))
    }
}

pub open spec fn val_all(w: World, m: nat, u: UserRefV, r: Seq<char>, o: ObjectRefV, c: Seq<RelExprV>) -> Truth
    decreases m, lsize(c), 1nat,
{
    if c.len() == 0 {
        Truth::Yes
    } else {
        proof {
            crate::fga_expr::lemma_esize_pos(c.last());
        }
        and3(val_all(w, m, u, r, o, c.drop_last()), val_expr(w, m, u, r, o, c.last()))
    }
}

/// A settled reading of a relation stays the same with more fuel.
pub proof fn lemma_mono_rel(w: World, n: nat, n2: nat, u: UserRefV, r: Seq<char>, o: ObjectRefV)
    requires
        n <= n2,
    ensures
        refines(val_rel(w, n, u, r, o), val_rel(w, n2, u, r, o)),
    decreases n, 0nat, 0nat,
{
    if n > 0 {
        if let Some(e) = spec_relation_expr(w.model, o.object_type, r) {
            lemma_mono_expr(w, (n - 1) as nat, (n2 - 1) as nat, u, r, o, e);
        }
    }
}

proof fn lemma_mono_tuple(w: World, m: nat, m2: nat, u: UserRefV, r: Seq<char>, o: ObjectRefV, t: TupleV)
    requires
        m <= m2,
    ensures
        refines(tuple_val(w, m, u, r, o, t), tuple_val(w, m2, u, r, o, t)),
    decreases m, 0nat, 1nat,
{
    if t.object == o && t.relation == r {
        if let UserRefV::Userset(obj, rel) = t.user {
            lemma_mono_rel(w, m, m2, u, rel, obj);
        }
    }
}

proof fn lemma_mono_ttu_tuple(
    w: World,
    m: nat,
    m2: nat,
    u: UserRefV,
    o: ObjectRefV,
    ts: Seq<char>,
    cu: Seq<char>,
    t: TupleV,
)
    requires
        m <= m2,
    ensures
        refines(ttu_val(w, m, u, o, ts, cu, t), ttu_val(w, m2, u, o, ts, cu, t)),
    decreases m, 0nat, 1nat,
{
    if t.object == o && t.relation == ts {
        if let UserRefV::Object(target) = t.user {
            lemma_mono_rel(w, m, m2, u, cu, target);
        }
    }
}

pub proof fn lemma_mono_direct(w: World, m: nat, m2: nat, u: UserRefV, r: Seq<char>, o: ObjectRefV, k: nat)
    requires
        m <= m2,
    ensures
        refines(val_direct(w, m, u, r, o, k), val_direct(w, m2, u, r, o, k)),
    decreases m, 0nat, k + 2,
{
    if k > 0 && k <= w.tuples.len() {
        lemma_mono_direct(w, m, m2, u, r, o, (k - 1) as nat);
        lemma_mono_tuple(w, m, m2, u, r, o, w.tuples[k - 1]);
    }
}

pub proof fn lemma_mono_ttu(
    w: World,
    m: nat,
    m2: nat,
    u: UserRefV,
    o: ObjectRefV,
    ts: Seq<char>,
    cu: Seq<char>,
    k: nat,
)
    requires
        m <= m2,
    ensures
        refines(val_ttu(w, m, u, o, ts, cu, k), val_ttu(w, m2, u, o, ts, cu, k)),
    decreases m, 0nat, k + 2,
{
    if k > 0 && k <= w.tuples.len() {
        lemma_mono_ttu(w, m, m2, u, o, ts, cu, (k - 1) as nat);
        lemma_mono_ttu_tuple(w, m, m2, u, o, ts, cu, w.tuples[k - 1]);
    }
}

pub proof fn lemma_mono_expr(w: World, m: nat, m2: nat, u: UserRefV, r: Seq<char>, o: ObjectRefV, e: RelExprV)
    requires
        m <= m2,
    ensures
        refines(val_expr(w, m, u, r, o, e), val_expr(w, m2, u, r, o, e)),
    decreases m, esize(e), 0nat,
{
    match e {
        RelExprV::This => lemma_mono_direct(w, m, m2, u, r, o, w.tuples.len()),
        RelExprV::Computed(r2) => lemma_mono_rel(w, m, m2, u, r2, o),
        RelExprV::TupleToUserset(ts, cu) => lemma_mono_ttu(w, m, m2, u, o, ts, cu, w.tuples.len()),
        RelExprV::Union(c) => lemma_mono_any(w, m, m2, u, r, o, c),
        RelExprV::Intersection(c) => lemma_mono_all(w, m, m2, u, r, o, c),
        RelExprV::Difference(b, s) => {
            crate::fga_expr::lemma_esize_pos(*b);
            crate::fga_expr::lemma_esize_pos(*s);
            lemma_mono_expr(w, m, m2, u, r, o, *b);
            lemma_mono_expr(w, m, m2, u, r, o, *s);
        },
    }
}

pub proof fn lemma_mono_any(w: World, m: nat, m2: nat, u: UserRefV, r: Seq<char>, o: ObjectRefV, c: Seq<RelExprV>)
    requires
        m <= m2,
    ensures
        refines(val_any(w, m, u, r, o, c), val_any(w, m2, u, r, o, c)),
    decreases m, lsize(c), 1nat,
{
    if c.len() > 0 {
        crate::fga_expr::lemma_esize_pos(c.last());
        lemma_mono_any(w, m, m2, u, r, o, c.drop_last());
        lemma_mono_expr(w, m, m2, u, r, o, c.last());
    }
}

pub proof fn lemma_mono_all(w: World, m: nat, m2: nat, u: UserRefV, r: Seq<char>, o: ObjectRefV, c: Seq<RelExprV>)
    requires
        m <= m2,
    ensures
        refines(val_all(w, m, u, r, o, c), val_all(w, m2, u, r, o, c)),
    decreases m, lsize(c), 1nat,
{
    if c.len() > 0 {
        crate::fga_expr::lemma_esize_pos(c.last());
        lemma_mono_all(w, m, m2, u, r, o, c.drop_last());
        lemma_mono_expr(w, m, m2, u, r, o, c.last());
    }
}

pub proof fn lemma_direct_yes_extends(w: World, m: nat, u: UserRefV, r: Seq<char>, o: ObjectRefV, k: nat, k2: nat)
    requires
        k <= k2 <= w.tuples.len(),
        val_direct(w, m, u, r, o, k) == Truth::Yes,
    ensures
        val_direct(w, m, u, r, o, k2) == Truth::Yes,
    decreases k2 - k,
{
    if k < k2 {
        lemma_direct_yes_extends(w, m, u, r, o, k, (k2 - 1) as nat);
    }
}

pub proof fn lemma_ttu_yes_extends(
    w: World,
    m: nat,
    u: UserRefV,
    o: ObjectRefV,
    ts: Seq<char>,
    cu: Seq<char>,
    k: nat,
    k2: nat,
)
    requires
        k <= k2 <= w.tuples.len(),
        val_ttu(w, m, u, o, ts, cu, k) == Truth::Yes,
    ensures
        val_ttu(w, m, u, o, ts, cu, k2) == Truth::Yes,
    decreases k2 - k,
{
    if k < k2 {
        lemma_ttu_yes_extends(w, m, u, o, ts, cu, k, (k2 - 1) as nat);
    }
}

pub proof fn lemma_any_yes_extends(w: World, m: nat, u: UserRefV, r: Seq<char>, o: ObjectRefV, c: Seq<RelExprV>, k: int)
    requires
        0 <= k <= c.len(),
        val_any(w, m, u, r, o, c.subrange(0, k)) == Truth::Yes,
    ensures
        val_any(w, m, u, r, o, c) == Truth::Yes,
    decreases c.len() - k,
{
    if k < c.len() {
        let pre = c.subrange(0, k + 1);
        assert(pre.drop_last() =~= c.subrange(0, k));
        lemma_any_yes_extends(w, m, u, r, o, c, k + 1);
    } else {
        assert(c.subrange(0, k) =~= c);
    }
}

pub proof fn lemma_all_no_extends(w: World, m: nat, u: UserRefV, r: Seq<char>, o: ObjectRefV, c: Seq<RelExprV>, k: int)
    requires
        0 <= k <= c.len(),
        val_all(w, m, u, r, o, c.subrange(0, k)) == Truth::No,
    ensures
        val_all(w, m, u, r, o, c) == Truth::No,
    decreases c.len() - k,
{
    if k < c.len() {
        let pre = c.subrange(0, k + 1);
        assert(pre.drop_last() =~= c.subrange(0, k));
        lemma_all_no_extends(w, m, u, r, o, c, k + 1);
    } else {
        assert(c.subrange(0, k) =~= c);
    }
}

/// A wildcard tuple `type:*` says nothing for a user of another type: it
/// reads as not holding for that user.
pub proof fn lemma_wildcard_tuple_other_type(
    w: World,
    m: nat,
    u: UserRefV,
    r: Seq<char>,
    o: ObjectRefV,
    t: TupleV,
    ty: Seq<char>,
)
    requires
        t.user == UserRefV::Wildcard(ty),
        crate::fga_refs::spec_user_type(u) != ty,
    ensures
        tuple_val(w, m, u, r, o, t) == Truth::No,
{
}

} // verus!
