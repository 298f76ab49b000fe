//! Expansion: the tree of who stands in a relation to an object, unfolded
//! through the model's rewrites down to the depth limit.

use vstd::prelude::*;

use crate::fga_dto::{ExpandNode, ExpandRequest, ExpandResponse};
use crate::fga_eval::{budget, contextual_keys, lemma_parsed_views_are_tuple_views, parse_contextual, tuple_views};
use crate::fga_expr::{RelExprV, RelationExpr, esize, lemma_lsize_elem, lemma_views, lsize, views};
use crate::fga_model::{CompiledModel, spec_relation_expr, undefined_relation_text};
use crate::fga_refs::{
    FgaError, FgaErrorV, ObjectRef, ObjectRefV, ParsedTupleKey, UserRef, UserRefV, object_error_text, object_ref_eq,
    spec_object_raw, spec_parse_object, spec_user_raw,
};
use crate::fga_semantics::World;
use crate::fga_store::{spec_parse_all};
use crate::sorted_strings::texts;
use crate::text::{concat3, str_eq, str_to_string};

verus! {

/// An expansion tree: a node's name, its subtrees and the users it lists.
pub struct ExpTreeV {
    pub name: Seq<char>,
    pub children: Seq<ExpTreeV>,
    pub users: Seq<Seq<char>>,
}

pub open spec fn tree_view(n: ExpandNode) -> ExpTreeV
    decreases n,
{
    ExpTreeV { name: n.name@, children: tree_views(n.children@), users: texts(n.users@) }
}

pub open spec fn tree_views(s: Seq<ExpandNode>) -> Seq<ExpTreeV>
    decreases s,
{
    if s.len() == 0 {
        Seq::empty()
    } else {
        tree_views(s.drop_last()).push(tree_view(s.last()))
    }
}

proof fn lemma_tree_views_push(s: Seq<ExpandNode>, n: ExpandNode)
    ensures
        tree_views(s.push(n)) == tree_views(s).push(tree_view(n)),
{
    assert(s.push(n).drop_last() =~= s);
}

/// The name of the node of `object#relation`.
pub open spec fn node_name(o: ObjectRefV, r: Seq<char>) -> Seq<char> {
    spec_object_raw(o) + "#"@ + r
}

/// The node that stands for everything past the depth limit.
pub open spec fn limit_tree(o: ObjectRefV, r: Seq<char>) -> ExpTreeV {
    ExpTreeV { name: node_name(o, r), children: Seq::empty(), users: seq!["depth_limit"@] }
}

/// A node with subtrees and no users.
pub open spec fn inner_tree(o: ObjectRefV, r: Seq<char>, children: Seq<ExpTreeV>) -> ExpTreeV {
    ExpTreeV { name: node_name(o, r), children, users: Seq::empty() }
}

/// The depth one level down; it stays at the largest `usize`.
pub open spec fn next_depth(d: usize) -> usize {
    if d < usize::MAX {
        (d + 1) as usize
    } else {
        d
    }
}

/// The expansion of `object#relation` at depth `d`: past the depth limit
/// the limit node; otherwise the expansion of the relation's rewrite, an
/// undefined relation being an error.
pub open spec fn exp_rel(w: World, md: usize, d: usize, o: ObjectRefV, r: Seq<char>) -> Result<ExpTreeV, FgaErrorV>
    decreases budget(md, d) + 1, 0nat, 0nat,
{
    if d > md {
        Ok(limit_tree(o, r))
    } else {
        match spec_relation_expr(w.model, o.object_type, r) {
            None => Err(FgaErrorV::BadRequest(undefined_relation_text(o.object_type, r))),
            Some(e) => exp_expr(w, md, d, o, r, e),
        }
    }
}

/// The expansion of `object#relation` one level below `d`.
pub open spec fn exp_child(w: World, md: usize, d: usize, o: ObjectRefV, r: Seq<char>) -> Result<ExpTreeV, FgaErrorV>
    decreases budget(md, d), 0nat, 1nat,
{
    if d >= md {
        Ok(limit_tree(o, r))
    } else {
        exp_rel(w, md, (d + 1) as usize, o, r)
    }
}

/// The direct part among the first `k` tuples: a subtree for each userset
/// tuple of `object#relation`, the raw user of each other one.
pub open spec fn exp_this(w: World, md: usize, d: usize, o: ObjectRefV, r: Seq<char>, k: nat) -> Result<
    (Seq<ExpTreeV>, Seq<Seq<char>>),
    FgaErrorV,
>
    decreases budget(md, d), 0nat, k + 2,
{
    if k == 0 || k > w.tuples.len() {
        Ok((Seq::empty(), Seq::empty()))
    } else {
        match exp_this(w, md, d, o, r, (k - 1) as nat) {
            Err(e) => Err(e),
            Ok((cs, us)) => {
                let t = w.tuples[k - 1];
                if t.object == o && t.relation == r {
                    match t.user {
                        UserRefV::Userset(uo, ur) => match exp_child(w, md, d, uo, ur) {
                            Err(e) => Err(e),
                            Ok(c) => Ok((cs.push(c), us)),
                        },
                        _ => Ok((cs, us.push(spec_user_raw(t.user)))),
                    }
                } else {
                    Ok((cs, us))
                }
            },
        }
    }
}

/// The tuple-to-userset part among the first `k` tuples: for each tuple of
/// `object#tupleset` naming an object, the expansion of `computed` there.
pub open spec fn exp_ttu(w: World, md: usize, d: usize, o: ObjectRefV, ts: Seq<char>, cu: Seq<char>, k: nat) -> Result<
    Seq<ExpTreeV>,
    FgaErrorV,
>
    decreases budget(md, d), 0nat, k + 2,
{
    if k == 0 || k > w.tuples.len() {
        Ok(Seq::empty())
    } else {
        match exp_ttu(w, md, d, o, ts, cu, (k - 1) as nat) {
            Err(e) => Err(e),
            Ok(cs) => {
                let t = w.tuples[k - 1];
                if t.object == o && t.relation == ts {
                    match t.user {
                        UserRefV::Object(target) => match exp_child(w, md, d, target, cu) {
                            Err(e) => Err(e),
                            Ok(c) => Ok(cs.push(c)),
                        },
                        _ => Ok(cs),
                    }
                } else {
                    Ok(cs)
                }
            },
        }
    }
}

/// The expansions of the rewrites `c`, in order, at depth `d`.
pub open spec fn exp_list(w: World, md: usize, d: usize, o: ObjectRefV, r: Seq<char>, c: Seq<RelExprV>) -> Result<
    Seq<ExpTreeV>,
    FgaErrorV,
>
    decreases budget(md, d), lsize(c), 2nat,
{
    if c.len() == 0 {
        Ok(Seq::empty())
    } else {
        proof {
            lemma_lsize_elem(c, c.len() - 1);
        }
        match exp_list(w, md, d, o, r, c.drop_last()) {
            Err(e) => Err(e),
            Ok(cs) => match exp_expr(w, md, d, o, r, c.last()) {
                Err(e) => Err(e),
                Ok(t) => Ok(cs.push(t)),
            },
        }
    }
}

/// The expansion of a rewrite of `object#relation` at depth `d`: `this`
/// lists the direct users and expands usersets; a computed userset, a
/// tuple to userset, a union, an intersection and a difference each give a
/// node whose subtrees expand their parts one level down.
pub open spec fn exp_expr(w: World, md: usize, d: usize, o: ObjectRefV, r: Seq<char>, e: RelExprV) -> Result<
    ExpTreeV,
    FgaErrorV,
>
    decreases budget(md, d), esize(e), 1nat,
{
    match e {
        RelExprV::This => match exp_this(w, md, d, o, r, w.tuples.len()) {
            Err(x) => Err(x),
            Ok((cs, us)) => Ok(ExpTreeV { name: node_name(o, r), children: cs, users: us }),
        },
        RelExprV::Computed(target) => match exp_child(w, md, d, o, target) {
            Err(x) => Err(x),
            Ok(c) => Ok(inner_tree(o, r, seq![c])),
        },
        RelExprV::TupleToUserset(ts, cu) => match exp_ttu(w, md, d, o, ts, cu, w.tuples.len()) {
            Err(x) => Err(x),
            Ok(cs) => Ok(inner_tree(o, r, cs)),
        },
        RelExprV::Union(c) => match exp_list(w, md, next_depth(d), o, r, c) {
            Err(x) => Err(x),
            Ok(cs) => Ok(inner_tree(o, r, cs)),
        },
        RelExprV::Intersection(c) => match exp_list(w, md, next_depth(d), o, r, c) {
            Err(x) => Err(x),
            Ok(cs) => Ok(inner_tree(o, r, cs)),
        },
        RelExprV::Difference(b, s) => {
            proof {
                crate::fga_expr::lemma_esize_pos(*b);
                crate::fga_expr::lemma_esize_pos(*s);
            }
            match exp_expr(w, md, next_depth(d), o, r, *b) {
                Err(x) => Err(x),
                Ok(bt) => match exp_expr(w, md, next_depth(d), o, r, *s) {
                    Err(x) => Err(x),
                    Ok(st) => Ok(inner_tree(o, r, seq![bt, st])),
                },
            }
        },
    }
}

/// Whether an exec result is the spec result.
pub open spec fn result_is(r: Result<ExpandNode, FgaError>, s: Result<ExpTreeV, FgaErrorV>) -> bool {
    match r {
        Ok(n) => s == Ok::<ExpTreeV, FgaErrorV>(tree_view(n)),
        Err(e) => s == Err::<ExpTreeV, FgaErrorV>(e@),
    }
}

/// Expands relations against a compiled model and a set of tuples (the
/// stored ones, then the contextual ones of the request).
pub struct Expander<'a> {
    pub model: &'a CompiledModel,
    pub stored: &'a Vec<ParsedTupleKey>,
    pub contextual: &'a Vec<ParsedTupleKey>,
    pub max_depth: usize,
}

impl<'a> Expander<'a> {
    /// The model and tuples the expander reads.
    pub open spec fn world(&self) -> World {
        World { model: self.model@, tuples: tuple_views(self.stored@) + tuple_views(self.contextual@) }
    }

    fn name(object: &ObjectRef, relation: &str) -> (r: String)
        ensures
            r@ == node_name(object@, relation@),
    {
        let raw = object.as_raw();
        concat3(raw.as_str(), "#", relation)
    }

    fn limit(object: &ObjectRef, relation: &str) -> (r: ExpandNode)
        ensures
            tree_view(r) == limit_tree(object@, relation@),
    {
        let mut users: Vec<String> = Vec::new();
        users.push(str_to_string("depth_limit"));
        let children: Vec<ExpandNode> = Vec::new();
        let r = ExpandNode { name: Self::name(object, relation), children, users };
        assert(tree_views(r.children@) =~= Seq::<ExpTreeV>::empty());
        assert(texts(r.users@) =~= seq!["depth_limit"@]);
        r
    }

    fn inner(object: &ObjectRef, relation: &str, children: Vec<ExpandNode>) -> (r: ExpandNode)
        ensures
            tree_view(r) == inner_tree(object@, relation@, tree_views(children@)),
    {
        let users: Vec<String> = Vec::new();
        let r = ExpandNode { name: Self::name(object, relation), children, users };
        assert(texts(r.users@) =~= Seq::<Seq<char>>::empty());
        r
    }

    /// The expansion of `object#relation` at `depth`.
    pub fn expand(&self, object: &ObjectRef, relation: &str, depth: usize) -> (r: Result<ExpandNode, FgaError>)
        requires
            self.max_depth < usize::MAX,
        ensures
            result_is(r, exp_rel(self.world(), self.max_depth, depth, object@, relation@)),
        decreases budget(self.max_depth, depth) + 1, 0nat, 0nat,
    {
        if depth > self.max_depth {
            return Ok(Self::limit(object, relation));
        }
        let expr = match self.model.relation_expr(object.object_type.as_str(), relation) {
            Ok(e) => e,
            Err(e) => {
                return Err(e);
            },
        };
        self.expand_expr(object, relation, expr, depth)
    }

    fn expand_child(&self, object: &ObjectRef, relation: &str, depth: usize) -> (r: Result<ExpandNode, FgaError>)
        requires
            self.max_depth < usize::MAX,
        ensures
            result_is(r, exp_child(self.world(), self.max_depth, depth, object@, relation@)),
        decreases budget(self.max_depth, depth), 0nat, 1nat,
    {
        if depth >= self.max_depth {
            Ok(Self::limit(object, relation))
        } else {
            self.expand(object, relation, depth + 1)
        }
    }

    fn expand_this(&self, object: &ObjectRef, relation: &str, depth: usize) -> (r: Result<
        (Vec<ExpandNode>, Vec<String>),
        FgaError,
    >)
        requires
            self.max_depth < usize::MAX,
        ensures
            match r {
                Ok((cs, us)) => exp_this(self.world(), self.max_depth, depth, object@, relation@, self.world().tuples.len())
                    == Ok::<(Seq<ExpTreeV>, Seq<Seq<char>>), FgaErrorV>((tree_views(cs@), texts(us@))),
                Err(e) => exp_this(self.world(), self.max_depth, depth, object@, relation@, self.world().tuples.len())
                    == Err::<(Seq<ExpTreeV>, Seq<Seq<char>>), FgaErrorV>(e@),
            },
        decreases budget(self.max_depth, depth), 0nat, 2nat,
    {
        let ghost w = self.world();
        let ghost n1 = self.stored@.len();
        let mut children: Vec<ExpandNode> = Vec::new();
        let mut users: Vec<String> = Vec::new();
        proof {
            assert(tree_views(children@) =~= Seq::<ExpTreeV>::empty());
            assert(texts(users@) =~= Seq::<Seq<char>>::empty());
        }
        let mut part: usize = 0;
        while part < 2
            invariant
                w == self.world(),
                n1 == self.stored@.len(),
                self.max_depth < usize::MAX,
                part <= 2,
                exp_this(
                    w,
                    self.max_depth,
                    depth,
                    object@,
                    relation@,
                    if part == 0 {
                        0nat
                    } else if part == 1 {
                        n1
                    } else {
                        w.tuples.len()
                    },
                ) == Ok::<(Seq<ExpTreeV>, Seq<Seq<char>>), FgaErrorV>((tree_views(children@), texts(users@))),
            decreases 2 - part,
        {
            let src: &Vec<ParsedTupleKey> = if part == 0 {
                self.stored
            } else {
                self.contextual
            };
            let ghost base: nat = if part == 0 {
                0nat
            } else {
                n1
            };
            proof {
                assert(forall|j: int| 0 <= j < src@.len() ==> #[trigger] w.tuples[base + j] == src@[j]@);
                assert(base + src@.len() == if part == 0 {
                    n1
                } else {
                    w.tuples.len()
                });
            }
            let mut k: usize = 0;
            while k < src.len()
                invariant
                    w == self.world(),
                    self.max_depth < usize::MAX,
                    k <= src@.len(),
                    base + src@.len() <= w.tuples.len(),
                    forall|j: int| 0 <= j < src@.len() ==> #[trigger] w.tuples[base + j] == src@[j]@,
                    exp_this(w, self.max_depth, depth, object@, relation@, (base + k) as nat) == Ok::<
                        (Seq<ExpTreeV>, Seq<Seq<char>>),
                        FgaErrorV,
                    >((tree_views(children@), texts(users@))),
                decreases src.len() - k,
            {
                let t = &src[k];
                proof {
                    assert(w.tuples[base + k] == t@);
                }
                if object_ref_eq(&t.object, object) && str_eq(t.relation.as_str(), relation) {
                    match &t.user {
                        UserRef::Userset { object: uo, relation: ur } => {
                            match self.expand_child(uo, ur.as_str(), depth) {
                                Err(e) => {
                                    proof {
                                        lemma_this_err(
                                            w,
                                            self.max_depth,
                                            depth,
                                            object@,
                                            relation@,
                                            (base + k + 1) as nat,
                                            w.tuples.len(),
                                        );
                                    }
                                    return Err(e);
                                },
                                Ok(c) => {
                                    proof {
                                        lemma_tree_views_push(children@, c);
                                    }
                                    children.push(c);
                                },
                            }
                        },
                        _ => {
                            let raw = t.user.as_raw();
                            proof {
                                assert(texts(users@.push(raw)) =~= texts(users@).push(raw@));
                            }
                            users.push(raw);
                        },
                    }
                }
                k = k + 1;
            }
            part = part + 1;
        }
        Ok((children, users))
    }

    fn expand_ttu(&self, object: &ObjectRef, tupleset: &str, computed: &str, depth: usize) -> (r: Result<
        Vec<ExpandNode>,
        FgaError,
    >)
        requires
            self.max_depth < usize::MAX,
        ensures
            match r {
                Ok(cs) => exp_ttu(
                    self.world(),
                    self.max_depth,
                    depth,
                    object@,
                    tupleset@,
                    computed@,
                    self.world().tuples.len(),
                ) == Ok::<Seq<ExpTreeV>, FgaErrorV>(tree_views(cs@)),
                Err(e) => exp_ttu(
                    self.world(),
                    self.max_depth,
                    depth,
                    object@,
                    tupleset@,
                    computed@,
                    self.world().tuples.len(),
                ) == Err::<Seq<ExpTreeV>, FgaErrorV>(e@),
            },
        decreases budget(self.max_depth, depth), 0nat, 2nat,
    {
        let ghost w = self.world();
        let ghost n1 = self.stored@.len();
        let mut children: Vec<ExpandNode> = Vec::new();
        proof {
            assert(tree_views(children@) =~= Seq::<ExpTreeV>::empty());
        }
        let mut part: usize = 0;
        while part < 2
            invariant
                w == self.world(),
                n1 == self.stored@.len(),
                self.max_depth < usize::MAX,
                part <= 2,
                exp_ttu(
                    w,
                    self.max_depth,
                    depth,
                    object@,
                    tupleset@,
                    computed@,
                    if part == 0 {
                        0nat
                    } else if part == 1 {
                        n1
                    } else {
                        w.tuples.len()
                    },
                ) == Ok::<Seq<ExpTreeV>, FgaErrorV>(tree_views(children@)),
            decreases 2 - part,
        {
            let src: &Vec<ParsedTupleKey> = if part == 0 {
                self.stored
            } else {
                self.contextual
            };
            let ghost base: nat = if part == 0 {
                0nat
            } else {
                n1
            };
            proof {
                assert(forall|j: int| 0 <= j < src@.len() ==> #[trigger] w.tuples[base + j] == src@[j]@);
            }
            let mut k: usize = 0;
            while k < src.len()
                invariant
                    w == self.world(),
                    self.max_depth < usize::MAX,
                    k <= src@.len(),
                    base + src@.len() <= w.tuples.len(),
                    forall|j: int| 0 <= j < src@.len() ==> #[trigger] w.tuples[base + j] == src@[j]@,
                    exp_ttu(w, self.max_depth, depth, object@, tupleset@, computed@, (base + k) as nat) == Ok::<
                        Seq<ExpTreeV>,
                        FgaErrorV,
                    >(tree_views(children@)),
                decreases src.len() - k,
            {
                let t = &src[k];
                proof {
                    assert(w.tuples[base + k] == t@);
                }
                if object_ref_eq(&t.object, object) && str_eq(t.relation.as_str(), tupleset) {
                    match &t.user {
                        UserRef::Object(target) => {
                            match self.expand_child(target, computed, depth) {
                                Err(e) => {
                                    proof {
                                        lemma_ttu_err(
                                            w,
                                            self.max_depth,
                                            depth,
                                            object@,
                                            tupleset@,
                                            computed@,
                                            (base + k + 1) as nat,
                                            w.tuples.len(),
                                        );
                                    }
                                    return Err(e);
                                },
                                Ok(c) => {
                                    proof {
                                        lemma_tree_views_push(children@, c);
                                    }
                                    children.push(c);
                                },
                            }
                        },
                        _ => {},
                    }
                }
                k = k + 1;
            }
            part = part + 1;
        }
        Ok(children)
    }

    fn expand_list(&self, object: &ObjectRef, relation: &str, exprs: &Vec<RelationExpr>, depth: usize) -> (r: Result<
        Vec<ExpandNode>,
        FgaError,
    >)
        requires
            self.max_depth < usize::MAX,
        ensures
            match r {
                Ok(cs) => exp_list(self.world(), self.max_depth, depth, object@, relation@, views(exprs@)) == Ok::<
                    Seq<ExpTreeV>,
                    FgaErrorV,
                >(tree_views(cs@)),
                Err(e) => exp_list(self.world(), self.max_depth, depth, object@, relation@, views(exprs@)) == Err::<
                    Seq<ExpTreeV>,
                    FgaErrorV,
                >(e@),
            },
        decreases budget(self.max_depth, depth), lsize(views(exprs@)), 4nat,
    {
        let ghost w = self.world();
        let ghost c = views(exprs@);
        proof {
            lemma_views(exprs@);
        }
        let mut out: Vec<ExpandNode> = Vec::new();
        let mut i: usize = 0;
        proof {
            assert(c.subrange(0, 0) =~= Seq::<RelExprV>::empty());
            assert(tree_views(out@) =~= Seq::<ExpTreeV>::empty());
        }
        while i < exprs.len()
            invariant
                w == self.world(),
                c == views(exprs@),
                c.len() == exprs@.len(),
                forall|j: int| 0 <= j < exprs@.len() ==> #[trigger] c[j] == exprs@[j]@,
                self.max_depth < usize::MAX,
                i <= exprs@.len(),
                exp_list(w, self.max_depth, depth, object@, relation@, c.subrange(0, i as int)) == Ok::<
                    Seq<ExpTreeV>,
                    FgaErrorV,
                >(tree_views(out@)),
            decreases exprs.len() - i,
        {
            let ghost pre = c.subrange(0, i as int + 1);
            proof {
                assert(pre.drop_last() =~= c.subrange(0, i as int));
                assert(pre.last() == exprs@[i as int]@);
                lemma_lsize_elem(c, i as int);
            }
            match self.expand_expr(object, relation, &exprs[i], depth) {
                Err(e) => {
                    proof {
                        lemma_list_err(w, self.max_depth, depth, object@, relation@, c, (i + 1) as int);
                    }
                    return Err(e);
                },
                Ok(t) => {
                    proof {
                        lemma_tree_views_push(out@, t);
                    }
                    out.push(t);
                },
            }
            i = i + 1;
        }
        proof {
            assert(c.subrange(0, exprs@.len() as int) =~= c);
        }
        Ok(out)
    }

    /// The expansion of the rewrite `expr` of `object#relation` at `depth`.
    pub fn expand_expr(&self, object: &ObjectRef, relation: &str, expr: &RelationExpr, depth: usize) -> (r: Result<
        ExpandNode,
        FgaError,
    >)
        requires
            self.max_depth < usize::MAX,
        ensures
            result_is(r, exp_expr(self.world(), self.max_depth, depth, object@, relation@, expr@)),
        decreases budget(self.max_depth, depth), esize(expr@), 3nat,
    {
        let next = if depth < usize::MAX {
            depth + 1
        } else {
            depth
        };
        match expr {
            RelationExpr::This => match self.expand_this(object, relation, depth) {
                Err(e) => Err(e),
                Ok((cs, us)) => {
                    let r = ExpandNode { name: Self::name(object, relation), children: cs, users: us };
                    Ok(r)
                },
            },
            RelationExpr::ComputedUserset { relation: target } => match self.expand_child(
                object,
                target.as_str(),
                depth,
            ) {
                Err(e) => Err(e),
                Ok(c) => {
                    let mut cs: Vec<ExpandNode> = Vec::new();
                    proof {
                        lemma_tree_views_push(cs@, c);
                        assert(tree_views(cs@) =~= Seq::<ExpTreeV>::empty());
                    }
                    cs.push(c);
                    Ok(Self::inner(object, relation, cs))
                },
            },
            RelationExpr::TupleToUserset { tupleset, computed_userset } => match self.expand_ttu(
                object,
                tupleset.as_str(),
                computed_userset.as_str(),
                depth,
            ) {
                Err(e) => Err(e),
                Ok(cs) => Ok(Self::inner(object, relation, cs)),
            },
            RelationExpr::Union { children } => match self.expand_list(object, relation, children, next) {
                Err(e) => Err(e),
                Ok(cs) => Ok(Self::inner(object, relation, cs)),
            },
            RelationExpr::Intersection { children } => match self.expand_list(object, relation, children, next) {
                Err(e) => Err(e),
                Ok(cs) => Ok(Self::inner(object, relation, cs)),
            },
            RelationExpr::Difference { base, subtract } => {
                let b = match self.expand_expr(object, relation, base, next) {
                    Err(e) => {
                        return Err(e);
                    },
                    Ok(b) => b,
                };
                let s = match self.expand_expr(object, relation, subtract, next) {
                    Err(e) => {
                        return Err(e);
                    },
                    Ok(s) => s,
                };
                let mut cs: Vec<ExpandNode> = Vec::new();
                proof {
                    assert(tree_views(cs@) =~= Seq::<ExpTreeV>::empty());
                    lemma_tree_views_push(cs@, b);
                }
                cs.push(b);
                proof {
                    lemma_tree_views_push(cs@, s);
                }
                cs.push(s);
                proof {
                    assert(tree_views(cs@) =~= seq![tree_view(b), tree_view(s)]);
                }
                Ok(Self::inner(object, relation, cs))
            },
        }
    }
}

/// Expands `object#relation` of a request against a model and the stored
/// tuples: the object must parse, then the contextual tuples; the tree is
/// the expansion at depth zero over the stored and the contextual tuples.
pub fn evaluate_expand(model: &CompiledModel, stored: &Vec<ParsedTupleKey>, request: ExpandRequest, max_depth: usize) -> (r:
    Result<ExpandResponse, FgaError>)
    requires
        max_depth < usize::MAX,
    ensures
        match spec_parse_object(request.object@) {
            None => r matches Err(e) && e.is_bad_request(object_error_text(request.object@)),
            Some(o) => match spec_parse_all(contextual_keys(request.contextual_tuples)) {
                Err(ce) => r matches Err(e) && e@ == ce,
                Ok(ctx) => match r {
                    Ok(resp) => exp_rel(
                        World { model: model@, tuples: tuple_views(stored@) + ctx },
                        max_depth,
                        0,
                        o,
                        request.relation@,
                    ) == Ok::<ExpTreeV, FgaErrorV>(tree_view(resp.tree)),
                    Err(e) => exp_rel(
                        World { model: model@, tuples: tuple_views(stored@) + ctx },
                        max_depth,
                        0,
                        o,
                        request.relation@,
                    ) == Err::<ExpTreeV, FgaErrorV>(e@),
                },
            },
        },
{
    let object = match ObjectRef::parse(request.object.as_str()) {
        Ok(o) => o,
        Err(e) => {
            return Err(e);
        },
    };
    let contextual = match parse_contextual(request.contextual_tuples) {
        Ok(c) => c,
        Err(e) => {
            return Err(e);
        },
    };
    proof {
        lemma_parsed_views_are_tuple_views(contextual@);
    }
    let ex = Expander { model, stored, contextual: &contextual, max_depth };
    match ex.expand(&object, request.relation.as_str(), 0) {
        Ok(tree) => Ok(ExpandResponse { tree }),
        Err(e) => Err(e),
    }
}

proof fn lemma_this_err(w: World, md: usize, d: usize, o: ObjectRefV, r: Seq<char>, k: nat, n: nat)
    requires
        1 <= k <= n <= w.tuples.len(),
        exp_this(w, md, d, o, r, k) is Err,
    ensures
        exp_this(w, md, d, o, r, n) == exp_this(w, md, d, o, r, k),
    decreases n - k,
{
    if n > k {
        lemma_this_err(w, md, d, o, r, k, (n - 1) as nat);
    }
}

proof fn lemma_ttu_err(w: World, md: usize, d: usize, o: ObjectRefV, ts: Seq<char>, cu: Seq<char>, k: nat, n: nat)
    requires
        1 <= k <= n <= w.tuples.len(),
        exp_ttu(w, md, d, o, ts, cu, k) is Err,
    ensures
        exp_ttu(w, md, d, o, ts, cu, n) == exp_ttu(w, md, d, o, ts, cu, k),
    decreases n - k,
{
    if n > k {
        lemma_ttu_err(w, md, d, o, ts, cu, k, (n - 1) as nat);
    }
}

proof fn lemma_list_err(w: World, md: usize, d: usize, o: ObjectRefV, r: Seq<char>, c: Seq<RelExprV>, k: int)
    requires
        1 <= k <= c.len(),
        exp_list(w, md, d, o, r, c.subrange(0, k)) is Err,
    ensures
        exp_list(w, md, d, o, r, c) == exp_list(w, md, d, o, r, c.subrange(0, k)),
    decreases c.len() - k,
{
    if k < c.len() {
        let next = c.subrange(0, k + 1);
        assert(next.drop_last() =~= c.subrange(0, k));
        lemma_list_err(w, md, d, o, r, c, k + 1);
    } else {
        assert(c.subrange(0, k) =~= c);
    }
}

/// `x` is the raw user of a non-userset tuple of `o#r` among the first `k`.
pub open spec fn direct_user_text(w: World, o: ObjectRefV, r: Seq<char>, k: int, x: Seq<char>) -> bool {
    exists|i: int|
        0 <= i < k && i < w.tuples.len() && (#[trigger] w.tuples[i]).object == o && w.tuples[i].relation == r
            && !(w.tuples[i].user is Userset) && x == spec_user_raw(w.tuples[i].user)
}

proof fn lemma_direct_users(w: World, md: usize, d: usize, o: ObjectRefV, r: Seq<char>, k: nat)
    requires
        k <= w.tuples.len(),
    ensures
        exp_this(w, md, d, o, r, k) matches Ok((cs, us)) ==> {
            &&& forall|i: int|
                0 <= i < k && i < w.tuples.len() && (#[trigger] w.tuples[i]).object == o && w.tuples[i].relation == r
                    && !(w.tuples[i].user is Userset) ==> us.contains(spec_user_raw(w.tuples[i].user))
            &&& forall|j: int| 0 <= j < us.len() ==> direct_user_text(w, o, r, k as int, #[trigger] us[j])
        },
    decreases k,
{
    if k > 0 {
        lemma_direct_users(w, md, d, o, r, (k - 1) as nat);
        if let Ok((cs0, us0)) = exp_this(w, md, d, o, r, (k - 1) as nat) {
            let t = w.tuples[k - 1];
            if let Ok((cs, us)) = exp_this(w, md, d, o, r, k) {
                if t.object == o && t.relation == r && !(t.user is Userset) {
                    assert(us == us0.push(spec_user_raw(t.user)));
                } else {
                    assert(us == us0);
                }
                assert forall|i: int|
                    0 <= i < k && i < w.tuples.len() && (#[trigger] w.tuples[i]).object == o && w.tuples[i].relation == r
                        && !(w.tuples[i].user is Userset) implies us.contains(spec_user_raw(w.tuples[i].user)) by {
                    if i < k - 1 {
                        let x = spec_user_raw(w.tuples[i].user);
                        let j = choose|j: int| 0 <= j < us0.len() && us0[j] == x;
                        assert(us[j] == us0[j]);
                    } else {
                        assert(us[us.len() - 1] == spec_user_raw(t.user));
                    }
                }
                assert forall|j: int| 0 <= j < us.len() implies direct_user_text(w, o, r, k as int, #[trigger] us[j]) by {
                    if j < us0.len() {
                        assert(us[j] == us0[j]);
                        assert(direct_user_text(w, o, r, k - 1, us0[j]));
                        let i = choose|i: int|
                            0 <= i < k - 1 && i < w.tuples.len() && (#[trigger] w.tuples[i]).object == o && w.tuples[i].relation
                                == r && !(w.tuples[i].user is Userset) && us0[j] == spec_user_raw(w.tuples[i].user);
                        assert(w.tuples[i] == w.tuples[i]);
                    } else {
                        assert(w.tuples[k - 1] == t);
                    }
                }
            }
        }
    }
}

/// The direct node of an expansion lists exactly the users of the tuples of
/// `object#relation` that are not usersets: each such user, as its raw text,
/// and no other.
pub proof fn lemma_direct_node_users(w: World, md: usize, d: usize, o: ObjectRefV, r: Seq<char>)
    ensures
        exp_expr(w, md, d, o, r, RelExprV::This) matches Ok(tree) ==> {
            &&& forall|i: int|
                0 <= i < w.tuples.len() && (#[trigger] w.tuples[i]).object == o && w.tuples[i].relation == r
                    && !(w.tuples[i].user is Userset) ==> tree.users.contains(spec_user_raw(w.tuples[i].user))
            &&& forall|j: int|
                0 <= j < tree.users.len() ==> direct_user_text(w, o, r, w.tuples.len() as int, #[trigger] tree.users[j])
        },
{
    lemma_direct_users(w, md, d, o, r, w.tuples.len());
}

} // verus!
