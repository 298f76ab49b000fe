//! Relation rewrite expressions of an authorization model and their parser.

use vstd::prelude::*;

use crate::fga_refs::FgaError;
use crate::json::{
    JsonValue, get, get_object, get_str, lemma_get_decreases, spec_get, spec_get_object, spec_get_str,
    spec_has,
};
use crate::text::{copy_string, str_to_string};

verus! {

/// How a relation is computed: stored tuples (`this`), another relation of the
/// same object, a relation of the objects a tupleset points to, or a
/// combination of rewrites.
#[derive(Debug)]
pub enum RelationExpr {
    This,
    ComputedUserset { relation: String },
    TupleToUserset { tupleset: String, computed_userset: String },
    Union { children: Vec<RelationExpr> },
    Intersection { children: Vec<RelationExpr> },
    Difference { base: Box<RelationExpr>, subtract: Box<RelationExpr> },
}

/// The mathematical value of a rewrite expression.
pub enum RelExprV {
    This,
    Computed(Seq<char>),
    TupleToUserset(Seq<char>, Seq<char>),
    Union(Seq<RelExprV>),
    Intersection(Seq<RelExprV>),
    Difference(Box<RelExprV>, Box<RelExprV>),
}

pub open spec fn expr_view(e: RelationExpr) -> RelExprV
    decreases e,
{
    match e {
        RelationExpr::This => RelExprV::This,
        RelationExpr::ComputedUserset { relation } => RelExprV::Computed(relation@),
        RelationExpr::TupleToUserset { tupleset, computed_userset } => RelExprV::TupleToUserset(
            tupleset@,
            computed_userset@,
        ),
        RelationExpr::Union { children } => RelExprV::Union(views(children@)),
        RelationExpr::Intersection { children } => RelExprV::Intersection(views(children@)),
        RelationExpr::Difference { base, subtract } => RelExprV::Difference(
            Box::new(expr_view(*base)),
            Box::new(expr_view(*subtract)),
        ),
    }
}

pub open spec fn views(s: Seq<RelationExpr>) -> Seq<RelExprV>
    decreases s,
{
    if s.len() == 0 {
        Seq::empty()
    } else {
        views(s.drop_last()).push(expr_view(s.last()))
    }
}

impl View for RelationExpr {
    type V = RelExprV;

    open spec fn view(&self) -> RelExprV {
        expr_view(*self)
    }
}

pub proof fn lemma_views(s: Seq<RelationExpr>)
    ensures
        views(s).len() == s.len(),
        forall|i: int| 0 <= i < s.len() ==> #[trigger] views(s)[i] == expr_view(s[i]),
    decreases s.len(),
{
    if s.len() > 0 {
        lemma_views(s.drop_last());
    }
}

/// The size of an expression, for termination arguments.
pub open spec fn esize(e: RelExprV) -> nat
    decreases e,
{
    match e {
        RelExprV::Union(c) => 1 + lsize(c),
        RelExprV::Intersection(c) => 1 + lsize(c),
        RelExprV::Difference(b, s) => 1 + esize(*b) + esize(*s),
        _ => 1,
    }
}

pub open spec fn lsize(c: Seq<RelExprV>) -> nat
    decreases c,
{
    if c.len() == 0 {
        0
    } else {
        lsize(c.drop_last()) + esize(c.last())
    }
}

pub proof fn lemma_lsize_elem(c: Seq<RelExprV>, i: int)
    requires
        0 <= i < c.len(),
    ensures
        esize(c[i]) <= lsize(c),
        esize(c[i]) >= 1,
    decreases c.len(),
{
    if i < c.len() - 1 {
        lemma_lsize_elem(c.drop_last(), i);
    }
    match c[i] {
        RelExprV::Union(_) => {},
        RelExprV::Intersection(_) => {},
        RelExprV::Difference(_, _) => {},
        _ => {},
    }
}

pub proof fn lemma_esize_pos(e: RelExprV)
    ensures
        esize(e) >= 1,
{
}

/// Whether a `this` leaf occurs anywhere in the expression.
pub open spec fn spec_contains_this(e: RelExprV) -> bool
    decreases e,
{
    match e {
        RelExprV::This => true,
        RelExprV::Union(c) => any_contains_this(c),
        RelExprV::Intersection(c) => any_contains_this(c),
        RelExprV::Difference(b, s) => spec_contains_this(*b) || spec_contains_this(*s),
        _ => false,
    }
}

pub open spec fn any_contains_this(c: Seq<RelExprV>) -> bool
    decreases c,
{
    if c.len() == 0 {
        false
    } else {
        any_contains_this(c.drop_last()) || spec_contains_this(c.last())
    }
}

fn children_contain_this(children: &Vec<RelationExpr>) -> (r: bool)
    ensures
        r == any_contains_this(views(children@)),
    decreases children@,
{
    let mut i: usize = 0;
    let mut found = false;
    proof {
        lemma_views(children@);
        assert(views(children@).subrange(0, 0) =~= Seq::<RelExprV>::empty());
    }
    while i < children.len()
        invariant
            i <= children@.len(),
            views(children@).len() == children@.len(),
            forall|j: int| 0 <= j < children@.len() ==> #[trigger] views(children@)[j] == expr_view(children@[j]),
            found == any_contains_this(views(children@).subrange(0, i as int)),
        decreases children.len() - i,
    {
        let c = children[i].contains_this_leaf();
        proof {
            let pre = views(children@).subrange(0, i as int + 1);
            assert(pre.drop_last() =~= views(children@).subrange(0, i as int));
            assert(pre.last() == expr_view(children@[i as int]));
        }
        found = found || c;
        i = i + 1;
    }
    proof {
        assert(views(children@).subrange(0, children@.len() as int) =~= views(children@));
    }
    found
}

impl RelationExpr {
    /// Whether a `this` leaf occurs anywhere in the expression, so that the
    /// relation can hold stored tuples.
    pub fn contains_this_leaf(&self) -> (r: bool)
        ensures
            r == spec_contains_this(self@),
        decreases self,
    {
        match self {
            RelationExpr::This => true,
            RelationExpr::ComputedUserset { .. } => false,
            RelationExpr::TupleToUserset { .. } => false,
            RelationExpr::Union { children } => children_contain_this(children),
            RelationExpr::Intersection { children } => children_contain_this(children),
            RelationExpr::Difference { base, subtract } => {
                let b = base.contains_this_leaf();
                let s = subtract.contains_this_leaf();
                b || s
            },
        }
    }
}

/// The relation of `value[key]`, where `value[key]` is an object whose
/// `relation` member is a string.
pub open spec fn nested_relation(value: JsonValue, key: Seq<char>) -> Option<Seq<char>> {
    match spec_get_object(value, key) {
        Some(o) => spec_get_str(o, "relation"@),
        None => None,
    }
}

/// The expression a JSON relation definition stands for, or the text of the
/// error it is rejected with.
pub open spec fn spec_parse_expr(v: JsonValue) -> Result<RelExprV, Seq<char>>
    decreases v,
{
    if !(v is Object) {
        Err("relation definition must be an object"@)
    } else if spec_has(v, "this"@) {
        Ok(RelExprV::This)
    } else if spec_has(v, "computedUserset"@) {
        match spec_get_str(spec_get(v, "computedUserset"@).unwrap(), "relation"@) {
            Some(r) => Ok(RelExprV::Computed(r)),
            None => Err("computedUserset.relation is required"@),
        }
    } else if spec_has(v, "tupleToUserset"@) {
        let t = spec_get(v, "tupleToUserset"@).unwrap();
        match nested_relation(t, "tupleset"@) {
            None => Err("tupleToUserset.tupleset.relation is required"@),
            Some(a) => match nested_relation(t, "computedUserset"@) {
                None => Err("tupleToUserset.computedUserset.relation is required"@),
                Some(b) => Ok(RelExprV::TupleToUserset(a, b)),
            },
        }
    } else if spec_has(v, "union"@) {
        let u = spec_get(v, "union"@).unwrap();
        proof {
            lemma_get_decreases(v, "union"@);
            lemma_get_decreases(u, "child"@);
        }
        match spec_get(u, "child"@) {
            Some(JsonValue::Array(items)) => match spec_parse_list(items@) {
                Ok(c) => Ok(RelExprV::Union(c)),
                Err(m) => Err(m),
            },
            _ => Err("union.child must be an array"@),
        }
    } else if spec_has(v, "intersection"@) {
        let u = spec_get(v, "intersection"@).unwrap();
        proof {
            lemma_get_decreases(v, "intersection"@);
            lemma_get_decreases(u, "child"@);
        }
        match spec_get(u, "child"@) {
            Some(JsonValue::Array(items)) => match spec_parse_list(items@) {
                Ok(c) => Ok(RelExprV::Intersection(c)),
                Err(m) => Err(m),
            },
            _ => Err("intersection.child must be an array"@),
        }
    } else if spec_has(v, "difference"@) {
        let d = spec_get(v, "difference"@).unwrap();
        proof {
            lemma_get_decreases(v, "difference"@);
            lemma_get_decreases(d, "base"@);
            lemma_get_decreases(d, "subtract"@);
        }
        match spec_get(d, "base"@) {
            None => Err("difference.base is required"@),
            Some(b) => match spec_get(d, "subtract"@) {
                None => Err("difference.subtract is required"@),
                Some(s) => match spec_parse_expr(b) {
                    Err(m) => Err(m),
                    Ok(bv) => match spec_parse_expr(s) {
                        Err(m) => Err(m),
                        Ok(sv) => Ok(RelExprV::Difference(Box::new(bv), Box::new(sv))),
                    },
                },
            },
        }
    } else {
        Err("unsupported userset rewrite in relation definition"@)
    }
}

/// The expressions of a list of definitions, or the first error in order.
pub open spec fn spec_parse_list(items: Seq<JsonValue>) -> Result<Seq<RelExprV>, Seq<char>>
    decreases items,
{
    if items.len() == 0 {
        Ok(Seq::empty())
    } else {
        match spec_parse_list(items.drop_last()) {
            Err(m) => Err(m),
            Ok(p) => match spec_parse_expr(items.last()) {
                Err(m) => Err(m),
                Ok(e) => Ok(p.push(e)),
            },
        }
    }
}

fn bad_request(msg: &str) -> (e: FgaError)
    ensures
        e.is_bad_request(msg@),
{
    FgaError::BadRequest(str_to_string(msg))
}

fn nested_relation_of<'a>(value: &'a JsonValue, key: &str) -> (r: Option<&'a String>)
    ensures
        match r {
            Some(s) => nested_relation(*value, key@) == Some(s@),
            None => nested_relation(*value, key@) is None,
        },
{
    match get_object(value, key) {
        Some(o) => get_str(o, "relation"),
        None => None,
    }
}

fn parse_children(items: &Vec<JsonValue>) -> (r: Result<Vec<RelationExpr>, FgaError>)
    ensures
        match r {
            Ok(c) => spec_parse_list(items@) == Ok::<Seq<RelExprV>, Seq<char>>(views(c@)),
            Err(e) => spec_parse_list(items@) matches Err(m) && e.is_bad_request(m),
        },
    decreases items@,
{
    let mut out: Vec<RelationExpr> = Vec::new();
    let mut i: usize = 0;
    assert(items@.subrange(0, 0) =~= Seq::<JsonValue>::empty());
    while i < items.len()
        invariant
            i <= items@.len(),
            spec_parse_list(items@.subrange(0, i as int)) == Ok::<Seq<RelExprV>, Seq<char>>(views(out@)),
        decreases items.len() - i,
    {
        let parsed = parse_relation_expr(&items[i]);
        proof {
            let pre = items@.subrange(0, i as int + 1);
            assert(pre.drop_last() =~= items@.subrange(0, i as int));
            assert(pre.last() == items@[i as int]);
        }
        match parsed {
            Ok(e) => {
                let ghost old_out = out@;
                out.push(e);
                proof {
                    assert(out@.drop_last() =~= old_out);
                }
            },
            Err(err) => {
                proof {
                    lemma_parse_list_error_extends(items@, i as int + 1);
                }
                return Err(err);
            },
        }
        i = i + 1;
    }
    assert(items@.subrange(0, items@.len() as int) =~= items@);
    Ok(out)
}

proof fn lemma_parse_list_error_extends(items: Seq<JsonValue>, k: int)
    requires
        0 <= k <= items.len(),
        spec_parse_list(items.subrange(0, k)) is Err,
    ensures
        spec_parse_list(items) == spec_parse_list(items.subrange(0, k)),
    decreases items.len() - k,
{
    if k < items.len() {
        let pre = items.subrange(0, k + 1);
        assert(pre.drop_last() =~= items.subrange(0, k));
        lemma_parse_list_error_extends(items, k + 1);
    } else {
        assert(items.subrange(0, k) =~= items);
    }
}

/// Parses a JSON relation definition into a rewrite expression.
pub fn parse_relation_expr(value: &JsonValue) -> (r: Result<RelationExpr, FgaError>)
    ensures
        match r {
            Ok(e) => spec_parse_expr(*value) == Ok::<RelExprV, Seq<char>>(e@),
            Err(err) => spec_parse_expr(*value) matches Err(m) && err.is_bad_request(m),
        },
    decreases value,
{
    let is_object = match value {
        JsonValue::Object(_) => true,
        _ => false,
    };
    if !is_object {
        return Err(bad_request("relation definition must be an object"));
    }
    if get(value, "this").is_some() {
        return Ok(RelationExpr::This);
    }
    if let Some(computed) = get(value, "computedUserset") {
        return match get_str(computed, "relation") {
            Some(relation) => Ok(RelationExpr::ComputedUserset { relation: copy_string(relation) }),
            None => Err(bad_request("computedUserset.relation is required")),
        };
    }
    if let Some(ttu) = get(value, "tupleToUserset") {
        let tupleset = match nested_relation_of(ttu, "tupleset") {
            Some(t) => t,
            None => {
                return Err(bad_request("tupleToUserset.tupleset.relation is required"));
            },
        };
        let computed = match nested_relation_of(ttu, "computedUserset") {
            Some(c) => c,
            None => {
                return Err(bad_request("tupleToUserset.computedUserset.relation is required"));
            },
        };
        return Ok(
            RelationExpr::TupleToUserset {
                tupleset: copy_string(tupleset),
                computed_userset: copy_string(computed),
            },
        );
    }
    if let Some(union) = get(value, "union") {
        proof {
            lemma_get_decreases(*value, "union"@);
            lemma_get_decreases(*union, "child"@);
        }
        return match get(union, "child") {
            Some(JsonValue::Array(items)) => match parse_children(items) {
                Ok(children) => Ok(RelationExpr::Union { children }),
                Err(e) => Err(e),
            },
            _ => Err(bad_request("union.child must be an array")),
        };
    }
    if let Some(inter) = get(value, "intersection") {
        proof {
            lemma_get_decreases(*value, "intersection"@);
            lemma_get_decreases(*inter, "child"@);
        }
        return match get(inter, "child") {
            Some(JsonValue::Array(items)) => match parse_children(items) {
                Ok(children) => Ok(RelationExpr::Intersection { children }),
                Err(e) => Err(e),
            },
            _ => Err(bad_request("intersection.child must be an array")),
        };
    }
    if let Some(diff) = get(value, "difference") {
        proof {
            lemma_get_decreases(*value, "difference"@);
            lemma_get_decreases(*diff, "base"@);
            lemma_get_decreases(*diff, "subtract"@);
        }
        let base = match get(diff, "base") {
            Some(b) => b,
            None => {
                return Err(bad_request("difference.base is required"));
            },
        };
        let subtract = match get(diff, "subtract") {
            Some(s) => s,
            None => {
                return Err(bad_request("difference.subtract is required"));
            },
        };
        let b = match parse_relation_expr(base) {
            Ok(b) => b,
            Err(e) => {
                return Err(e);
            },
        };
        let s = match parse_relation_expr(subtract) {
            Ok(s) => s,
            Err(e) => {
                return Err(e);
            },
        };
        return Ok(RelationExpr::Difference { base: Box::new(b), subtract: Box::new(s) });
    }
    Err(bad_request("unsupported userset rewrite in relation definition"))
}

} // verus!
