//! Authorization models: the relation metadata of type definitions, the
//! compiled model and the rules a stored tuple must obey.

use vstd::prelude::*;

use crate::fga_expr::{RelExprV, RelationExpr, expr_view, parse_relation_expr, spec_contains_this, spec_parse_expr};
use crate::fga_refs::{
    FgaError, FgaErrorV, ObjectRefV, ParsedTupleKey, TupleV, UserRef, UserRefV, spec_object_raw, spec_user_raw, spec_user_type,
};
use crate::json::{JsonMember, JsonValue, get, get_object, get_str, spec_get, spec_get_object, spec_get_str};
use crate::text::{concat2, concat3, concat4, concat5, copy_string, str_eq, str_to_string};

verus! {

/// A user type that may be written directly into a relation: a plain object
/// of `user_type`, a userset `user_type#relation`, or the wildcard `user_type:*`.
#[derive(Debug)]
pub struct AllowedDirectUser {
    pub user_type: String,
    pub relation: Option<String>,
    pub wildcard: bool,
}

pub struct AllowedV {
    pub user_type: Seq<char>,
    pub relation: Option<Seq<char>>,
    pub wildcard: bool,
}

pub open spec fn opt_view(o: Option<String>) -> Option<Seq<char>> {
    match o {
        Some(s) => Some(s@),
        None => None,
    }
}

impl View for AllowedDirectUser {
    type V = AllowedV;

    open spec fn view(&self) -> AllowedV {
        AllowedV { user_type: self.user_type@, relation: opt_view(self.relation), wildcard: self.wildcard }
    }
}

pub open spec fn allowed_views(s: Seq<AllowedDirectUser>) -> Seq<AllowedV> {
    s.map_values(|a: AllowedDirectUser| a@)
}

/// Whether a user of the given kind may be written directly.
pub open spec fn spec_allowed_matches(a: AllowedV, u: UserRefV) -> bool {
    a.user_type == spec_user_type(u) && match u {
        UserRefV::Object(_) => a.relation is None && !a.wildcard,
        UserRefV::Userset(_, r) => a.relation == Some(r),
        UserRefV::Wildcard(_) => a.wildcard,
    }
}

impl AllowedDirectUser {
    /// Whether `user` is of this allowed kind.
    pub fn matches(&self, user: &UserRef) -> (r: bool)
        ensures
            r == spec_allowed_matches(self@, user@),
    {
        if !str_eq(self.user_type.as_str(), user.user_type()) {
            return false;
        }
        match user {
            UserRef::Object(_) => self.relation.is_none() && !self.wildcard,
            UserRef::Userset { relation, .. } => match &self.relation {
                Some(r) => str_eq(r.as_str(), relation.as_str()),
                None => false,
            },
            UserRef::Wildcard { .. } => self.wildcard,
        }
    }

    /// Whether this kind is a userset.
    pub fn is_userset(&self) -> (r: bool)
        ensures
            r == (self@.relation is Some),
    {
        self.relation.is_some()
    }
}

/// The allowed direct users declared for one relation.
#[derive(Debug)]
pub struct RelationMetadata {
    pub relation: String,
    pub allowed: Vec<AllowedDirectUser>,
}

pub struct RelationMetadataV {
    pub relation: Seq<char>,
    pub allowed: Seq<AllowedV>,
}

impl View for RelationMetadata {
    type V = RelationMetadataV;

    open spec fn view(&self) -> RelationMetadataV {
        RelationMetadataV { relation: self.relation@, allowed: allowed_views(self.allowed@) }
    }
}

pub open spec fn metadata_views(s: Seq<RelationMetadata>) -> Seq<RelationMetadataV> {
    s.map_values(|m: RelationMetadata| m@)
}

/// One entry of `directly_related_user_types`: `None` for an entry that is not
/// an object (it is skipped).
pub open spec fn spec_parse_allowed(v: JsonValue) -> Result<Option<AllowedV>, FgaErrorV> {
    if !(v is Object) {
        Ok(None)
    } else {
        match spec_get_str(v, "type"@) {
            None => Err(FgaErrorV::BadRequest("metadata type must be a string"@)),
            Some(t) => if spec_get(v, "condition"@) is Some {
                Err(FgaErrorV::Unsupported("conditional relation metadata is not supported"@))
            } else {
                Ok(
                    Some(
                        AllowedV {
                            user_type: t,
                            relation: spec_get_str(v, "relation"@),
                            wildcard: spec_get(v, "wildcard"@) is Some,
                        },
                    ),
                )
            },
        }
    }
}

pub open spec fn spec_parse_allowed_list(items: Seq<JsonValue>) -> Result<Seq<AllowedV>, FgaErrorV>
    decreases items.len(),
{
    if items.len() == 0 {
        Ok(Seq::empty())
    } else {
        match spec_parse_allowed_list(items.drop_last()) {
            Err(e) => Err(e),
            Ok(p) => match spec_parse_allowed(items.last()) {
                Err(e) => Err(e),
                Ok(None) => Ok(p),
                Ok(Some(a)) => Ok(p.push(a)),
            },
        }
    }
}

/// The allowed users of one relation's metadata object.
pub open spec fn spec_relation_allowed(md: JsonValue) -> Result<Seq<AllowedV>, FgaErrorV> {
    match spec_get(md, "directly_related_user_types"@) {
        Some(JsonValue::Array(items)) => spec_parse_allowed_list(items@),
        _ => Ok(Seq::empty()),
    }
}

pub open spec fn spec_parse_metadata_members(fields: Seq<JsonMember>) -> Result<Seq<RelationMetadataV>, FgaErrorV>
    decreases fields.len(),
{
    if fields.len() == 0 {
        Ok(Seq::empty())
    } else {
        match spec_parse_metadata_members(fields.drop_last()) {
            Err(e) => Err(e),
            Ok(p) => match spec_relation_allowed(fields.last().value) {
                Err(e) => Err(e),
                Ok(a) => Ok(p.push(RelationMetadataV { relation: fields.last().key@, allowed: a })),
            },
        }
    }
}

/// The relation metadata of a type definition, in member order.
pub open spec fn spec_parse_metadata(metadata: Option<JsonValue>) -> Result<Seq<RelationMetadataV>, FgaErrorV> {
    match metadata {
        None => Ok(Seq::empty()),
        Some(m) => match spec_get_object(m, "relations"@) {
            Some(JsonValue::Object(fields)) => spec_parse_metadata_members(fields@),
            _ => Ok(Seq::empty()),
        },
    }
}

fn clone_opt_string(o: &Option<String>) -> (r: Option<String>)
    ensures
        opt_view(r) == opt_view(*o),
{
    match o {
        Some(s) => Some(copy_string(s)),
        None => None,
    }
}

pub fn clone_allowed(a: &AllowedDirectUser) -> (r: AllowedDirectUser)
    ensures
        r@ == a@,
{
    AllowedDirectUser {
        user_type: copy_string(&a.user_type),
        relation: clone_opt_string(&a.relation),
        wildcard: a.wildcard,
    }
}

pub fn clone_allowed_list(v: &Vec<AllowedDirectUser>) -> (r: Vec<AllowedDirectUser>)
    ensures
        allowed_views(r@) == allowed_views(v@),
{
    let mut out: Vec<AllowedDirectUser> = Vec::new();
    let mut i: usize = 0;
    while i < v.len()
        invariant
            i <= v@.len(),
            out@.len() == i,
            forall|j: int| 0 <= j < i ==> (#[trigger] out@[j])@ == v@[j]@,
        decreases v.len() - i,
    {
        out.push(clone_allowed(&v[i]));
        i = i + 1;
    }
    assert(allowed_views(out@) =~= allowed_views(v@));
    out
}

fn parse_allowed(v: &JsonValue) -> (r: Result<Option<AllowedDirectUser>, FgaError>)
    ensures
        match r {
            Ok(Some(a)) => spec_parse_allowed(*v) == Ok::<Option<AllowedV>, FgaErrorV>(Some(a@)),
            Ok(None) => spec_parse_allowed(*v) == Ok::<Option<AllowedV>, FgaErrorV>(None),
            Err(e) => spec_parse_allowed(*v) == Err::<Option<AllowedV>, FgaErrorV>(e@),
        },
{
    let is_object = match v {
        JsonValue::Object(_) => true,
        _ => false,
    };
    if !is_object {
        return Ok(None);
    }
    let user_type = match get_str(v, "type") {
        Some(t) => copy_string(t),
        None => {
            return Err(FgaError::BadRequest(str_to_string("metadata type must be a string")));
        },
    };
    if get(v, "condition").is_some() {
        return Err(FgaError::Unsupported(str_to_string("conditional relation metadata is not supported")));
    }
    let relation = match get_str(v, "relation") {
        Some(r) => Some(copy_string(r)),
        None => None,
    };
    let wildcard = get(v, "wildcard").is_some();
    Ok(Some(AllowedDirectUser { user_type, relation, wildcard }))
}

fn parse_allowed_list(items: &Vec<JsonValue>) -> (r: Result<Vec<AllowedDirectUser>, FgaError>)
    ensures
        match r {
            Ok(a) => spec_parse_allowed_list(items@) == Ok::<Seq<AllowedV>, FgaErrorV>(allowed_views(a@)),
            Err(e) => spec_parse_allowed_list(items@) == Err::<Seq<AllowedV>, FgaErrorV>(e@),
        },
{
    let mut out: Vec<AllowedDirectUser> = Vec::new();
    let mut i: usize = 0;
    assert(items@.subrange(0, 0) =~= Seq::<JsonValue>::empty());
    assert(allowed_views(out@) =~= Seq::<AllowedV>::empty());
    while i < items.len()
        invariant
            i <= items@.len(),
            spec_parse_allowed_list(items@.subrange(0, i as int)) == Ok::<Seq<AllowedV>, FgaErrorV>(
                allowed_views(out@),
            ),
        decreases items.len() - i,
    {
        let parsed = parse_allowed(&items[i]);
        proof {
            let pre = items@.subrange(0, i as int + 1);
            assert(pre.drop_last() =~= items@.subrange(0, i as int));
            assert(pre.last() == items@[i as int]);
        }
        match parsed {
            Ok(Some(a)) => {
                let ghost old_out = out@;
                out.push(a);
                proof {
                    assert(allowed_views(out@) =~= allowed_views(old_out).push(out@.last()@));
                }
            },
            Ok(None) => {},
            Err(e) => {
                proof {
                    lemma_allowed_list_error_extends(items@, i as int + 1);
                }
                return Err(e);
            },
        }
        i = i + 1;
    }
    assert(items@.subrange(0, items@.len() as int) =~= items@);
    Ok(out)
}

proof fn lemma_allowed_list_error_extends(items: Seq<JsonValue>, k: int)
    requires
        0 <= k <= items.len(),
        spec_parse_allowed_list(items.subrange(0, k)) is Err,
    ensures
        spec_parse_allowed_list(items) == spec_parse_allowed_list(items.subrange(0, k)),
    decreases items.len() - k,
{
    if k < items.len() {
        let pre = items.subrange(0, k + 1);
        assert(pre.drop_last() =~= items.subrange(0, k));
        lemma_allowed_list_error_extends(items, k + 1);
    } else {
        assert(items.subrange(0, k) =~= items);
    }
}

fn relation_allowed(md: &JsonValue) -> (r: Result<Vec<AllowedDirectUser>, FgaError>)
    ensures
        match r {
            Ok(a) => spec_relation_allowed(*md) == Ok::<Seq<AllowedV>, FgaErrorV>(allowed_views(a@)),
            Err(e) => spec_relation_allowed(*md) == Err::<Seq<AllowedV>, FgaErrorV>(e@),
        },
{
    match get(md, "directly_related_user_types") {
        Some(JsonValue::Array(items)) => parse_allowed_list(items),
        _ => {
            let out: Vec<AllowedDirectUser> = Vec::new();
            assert(allowed_views(out@) =~= Seq::<AllowedV>::empty());
            Ok(out)
        },
    }
}

proof fn lemma_metadata_error_extends(fields: Seq<JsonMember>, k: int)
    requires
        0 <= k <= fields.len(),
        spec_parse_metadata_members(fields.subrange(0, k)) is Err,
    ensures
        spec_parse_metadata_members(fields) == spec_parse_metadata_members(fields.subrange(0, k)),
    decreases fields.len() - k,
{
    if k < fields.len() {
        let pre = fields.subrange(0, k + 1);
        assert(pre.drop_last() =~= fields.subrange(0, k));
        lemma_metadata_error_extends(fields, k + 1);
    } else {
        assert(fields.subrange(0, k) =~= fields);
    }
}

pub open spec fn deref_json(o: Option<&JsonValue>) -> Option<JsonValue> {
    match o {
        Some(v) => Some(*v),
        None => None,
    }
}

/// Reads `metadata.relations.<relation>.directly_related_user_types` of a type
/// definition.
pub fn parse_relation_metadata(metadata: Option<&JsonValue>) -> (r: Result<Vec<RelationMetadata>, FgaError>)
    ensures
        match r {
            Ok(m) => spec_parse_metadata(deref_json(metadata)) == Ok::<Seq<RelationMetadataV>, FgaErrorV>(
                metadata_views(m@),
            ),
            Err(e) => spec_parse_metadata(deref_json(metadata)) == Err::<Seq<RelationMetadataV>, FgaErrorV>(
                e@,
            ),
        },
{
    let mut out: Vec<RelationMetadata> = Vec::new();
    assert(metadata_views(out@) =~= Seq::<RelationMetadataV>::empty());
    let m = match metadata {
        None => {
            return Ok(out);
        },
        Some(m) => m,
    };
    let relations = match get_object(m, "relations") {
        Some(r) => r,
        None => {
            return Ok(out);
        },
    };
    let fields = match relations {
        JsonValue::Object(f) => f,
        _ => {
            return Ok(out);
        },
    };
    let mut i: usize = 0;
    assert(fields@.subrange(0, 0) =~= Seq::<JsonMember>::empty());
    while i < fields.len()
        invariant
            i <= fields@.len(),
            spec_parse_metadata(deref_json(metadata)) == spec_parse_metadata_members(fields@),
            spec_parse_metadata_members(fields@.subrange(0, i as int)) == Ok::<
                Seq<RelationMetadataV>,
                FgaErrorV,
            >(metadata_views(out@)),
        decreases fields.len() - i,
    {
        let allowed = relation_allowed(&fields[i].value);
        proof {
            let pre = fields@.subrange(0, i as int + 1);
            assert(pre.drop_last() =~= fields@.subrange(0, i as int));
            assert(pre.last() == fields@[i as int]);
        }
        match allowed {
            Ok(a) => {
                let ghost old_out = out@;
                out.push(RelationMetadata { relation: copy_string(&fields[i].key), allowed: a });
                proof {
                    assert(metadata_views(out@) =~= metadata_views(old_out).push(out@.last()@));
                }
            },
            Err(e) => {
                proof {
                    lemma_metadata_error_extends(fields@, i as int + 1);
                }
                return Err(e);
            },
        }
        i = i + 1;
    }
    assert(fields@.subrange(0, fields@.len() as int) =~= fields@);
    Ok(out)
}

/// A type definition of a model write request; relations and metadata are
/// kept as the JSON they were written in.
#[derive(Debug)]
pub struct TypeDefinition {
    pub object_type: String,
    pub relations: Vec<JsonMember>,
    pub metadata: Option<JsonValue>,
}

/// A request to write an authorization model.
#[derive(Debug)]
pub struct AuthorizationModelWriteRequest {
    pub schema_version: String,
    pub type_definitions: Vec<TypeDefinition>,
    pub conditions: Vec<JsonMember>,
}

/// A relation of a compiled type.
#[derive(Debug)]
pub struct CompiledRelation {
    pub name: String,
    pub expr: RelationExpr,
    pub allows_direct_tuples: bool,
    pub allowed_direct_users: Vec<AllowedDirectUser>,
}

/// A compiled type definition.
#[derive(Debug)]
pub struct CompiledType {
    pub name: String,
    pub relations: Vec<CompiledRelation>,
}

/// A compiled authorization model.
#[derive(Debug)]
pub struct CompiledModel {
    pub schema_version: String,
    pub types: Vec<CompiledType>,
}

pub struct CompiledRelationV {
    pub name: Seq<char>,
    pub expr: RelExprV,
    pub allows_direct_tuples: bool,
    pub allowed_direct_users: Seq<AllowedV>,
}

pub struct CompiledTypeV {
    pub name: Seq<char>,
    pub relations: Seq<CompiledRelationV>,
}

pub struct ModelV {
    pub schema_version: Seq<char>,
    pub types: Seq<CompiledTypeV>,
}

impl View for CompiledRelation {
    type V = CompiledRelationV;

    open spec fn view(&self) -> CompiledRelationV {
        CompiledRelationV {
            name: self.name@,
            expr: expr_view(self.expr),
            allows_direct_tuples: self.allows_direct_tuples,
            allowed_direct_users: allowed_views(self.allowed_direct_users@),
        }
    }
}

pub open spec fn relation_views(s: Seq<CompiledRelation>) -> Seq<CompiledRelationV> {
    s.map_values(|r: CompiledRelation| r@)
}

impl View for CompiledType {
    type V = CompiledTypeV;

    open spec fn view(&self) -> CompiledTypeV {
        CompiledTypeV { name: self.name@, relations: relation_views(self.relations@) }
    }
}

pub open spec fn type_views(s: Seq<CompiledType>) -> Seq<CompiledTypeV> {
    s.map_values(|t: CompiledType| t@)
}

impl View for CompiledModel {
    type V = ModelV;

    open spec fn view(&self) -> ModelV {
        ModelV { schema_version: self.schema_version@, types: type_views(self.types@) }
    }
}

/// The allowed users declared for `relation`, first declaration first.
pub open spec fn metadata_lookup(meta: Seq<RelationMetadataV>, relation: Seq<char>) -> Option<Seq<AllowedV>>
    decreases meta.len(),
{
    if meta.len() == 0 {
        None
    } else if meta[0].relation == relation {
        Some(meta[0].allowed)
    } else {
        metadata_lookup(meta.drop_first(), relation)
    }
}

pub open spec fn computed_only_metadata_text(object_type: Seq<char>, relation: Seq<char>) -> Seq<char> {
    "relation "@ + object_type + "#"@ + relation
        + " cannot declare directly_related_user_types without a direct this branch"@
}

/// The compiled relation of one JSON relation definition.
pub open spec fn spec_compile_relation(
    object_type: Seq<char>,
    member: JsonMember,
    meta: Seq<RelationMetadataV>,
) -> Result<CompiledRelationV, FgaErrorV> {
    match spec_parse_expr(member.value) {
        Err(m) => Err(FgaErrorV::BadRequest(m)),
        Ok(e) => {
            let allows = spec_contains_this(e);
            let md = metadata_lookup(meta, member.key@);
            if md is Some && !allows {
                Err(FgaErrorV::BadRequest(computed_only_metadata_text(object_type, member.key@)))
            } else {
                Ok(
                    CompiledRelationV {
                        name: member.key@,
                        expr: e,
                        allows_direct_tuples: allows,
                        allowed_direct_users: match md {
                            Some(a) => a,
                            None => Seq::empty(),
                        },
                    },
                )
            }
        },
    }
}

pub open spec fn spec_compile_relations(
    object_type: Seq<char>,
    fields: Seq<JsonMember>,
    meta: Seq<RelationMetadataV>,
) -> Result<Seq<CompiledRelationV>, FgaErrorV>
    decreases fields.len(),
{
    if fields.len() == 0 {
        Ok(Seq::empty())
    } else {
        match spec_compile_relations(object_type, fields.drop_last(), meta) {
            Err(e) => Err(e),
            Ok(p) => match spec_compile_relation(object_type, fields.last(), meta) {
                Err(e) => Err(e),
                Ok(r) => Ok(p.push(r)),
            },
        }
    }
}

pub open spec fn has_object_typed(types: Seq<CompiledTypeV>, name: Seq<char>) -> bool {
    exists|j: int| 0 <= j < types.len() && (#[trigger] types[j]).name == name
}

pub open spec fn spec_compile_types(tds: Seq<TypeDefinition>) -> Result<Seq<CompiledTypeV>, FgaErrorV>
    decreases tds.len(),
{
    if tds.len() == 0 {
        Ok(Seq::empty())
    } else {
        match spec_compile_types(tds.drop_last()) {
            Err(e) => Err(e),
            Ok(p) => {
                let td = tds.last();
                if has_object_typed(p, td.object_type@) {
                    Err(FgaErrorV::BadRequest("duplicate type definition "@ + td.object_type@))
                } else {
                    match spec_parse_metadata(td.metadata) {
                        Err(e) => Err(e),
                        Ok(meta) => match spec_compile_relations(td.object_type@, td.relations@, meta) {
                            Err(e) => Err(e),
                            Ok(rels) => Ok(p.push(CompiledTypeV { name: td.object_type@, relations: rels })),
                        },
                    }
                }
            },
        }
    }
}

/// The compiled model of a write request, or the error it is rejected with.
pub open spec fn spec_compile(req: AuthorizationModelWriteRequest) -> Result<ModelV, FgaErrorV> {
    if req.schema_version@ != "1.1"@ {
        Err(FgaErrorV::BadRequest("schema_version "@ + req.schema_version@ + " is not supported"@))
    } else if req.conditions@.len() > 0 {
        Err(FgaErrorV::Unsupported("conditions are not supported by the embedded v1 server"@))
    } else {
        match spec_compile_types(req.type_definitions@) {
            Err(e) => Err(e),
            Ok(ts) => Ok(ModelV { schema_version: req.schema_version@, types: ts }),
        }
    }
}

fn metadata_for(meta: &Vec<RelationMetadata>, relation: &str) -> (r: Option<Vec<AllowedDirectUser>>)
    ensures
        match r {
            Some(a) => metadata_lookup(metadata_views(meta@), relation@) == Some(allowed_views(a@)),
            None => metadata_lookup(metadata_views(meta@), relation@) is None,
        },
{
    let mut i: usize = 0;
    let ghost mv = metadata_views(meta@);
    assert(mv.subrange(0, mv.len() as int) =~= mv);
    while i < meta.len()
        invariant
            i <= meta@.len(),
            mv == metadata_views(meta@),
            metadata_lookup(mv, relation@) == metadata_lookup(mv.subrange(i as int, mv.len() as int), relation@),
        decreases meta.len() - i,
    {
        let ghost rest = mv.subrange(i as int, mv.len() as int);
        assert(rest[0] == meta@[i as int]@);
        if str_eq(meta[i].relation.as_str(), relation) {
            return Some(clone_allowed_list(&meta[i].allowed));
        }
        assert(rest.drop_first() =~= mv.subrange(i + 1, mv.len() as int));
        i = i + 1;
    }
    None
}

fn compile_relation(object_type: &String, member: &JsonMember, meta: &Vec<RelationMetadata>) -> (r: Result<
    CompiledRelation,
    FgaError,
>)
    ensures
        match r {
            Ok(c) => spec_compile_relation(object_type@, *member, metadata_views(meta@)) == Ok::<
                CompiledRelationV,
                FgaErrorV,
            >(c@),
            Err(e) => spec_compile_relation(object_type@, *member, metadata_views(meta@)) == Err::<
                CompiledRelationV,
                FgaErrorV,
            >(e@),
        },
{
    let expr = match parse_relation_expr(&member.value) {
        Ok(e) => e,
        Err(e) => {
            return Err(e);
        },
    };
    let allows = expr.contains_this_leaf();
    let md = metadata_for(meta, member.key.as_str());
    match md {
        Some(allowed) => {
            if !allows {
                let msg = concat5(
                    "relation ",
                    object_type.as_str(),
                    "#",
                    member.key.as_str(),
                    " cannot declare directly_related_user_types without a direct this branch",
                );
                return Err(FgaError::BadRequest(msg));
            }
            Ok(
                CompiledRelation {
                    name: copy_string(&member.key),
                    expr,
                    allows_direct_tuples: allows,
                    allowed_direct_users: allowed,
                },
            )
        },
        None => {
            let allowed: Vec<AllowedDirectUser> = Vec::new();
            assert(allowed_views(allowed@) =~= Seq::<AllowedV>::empty());
            Ok(
                CompiledRelation {
                    name: copy_string(&member.key),
                    expr,
                    allows_direct_tuples: allows,
                    allowed_direct_users: allowed,
                },
            )
        },
    }
}

proof fn lemma_relations_error_extends(
    object_type: Seq<char>,
    fields: Seq<JsonMember>,
    meta: Seq<RelationMetadataV>,
    k: int,
)
    requires
        0 <= k <= fields.len(),
        spec_compile_relations(object_type, fields.subrange(0, k), meta) is Err,
    ensures
        spec_compile_relations(object_type, fields, meta) == spec_compile_relations(
            object_type,
            fields.subrange(0, k),
            meta,
        ),
    decreases fields.len() - k,
{
    if k < fields.len() {
        let pre = fields.subrange(0, k + 1);
        assert(pre.drop_last() =~= fields.subrange(0, k));
        lemma_relations_error_extends(object_type, fields, meta, k + 1);
    } else {
        assert(fields.subrange(0, k) =~= fields);
    }
}

fn compile_relations(object_type: &String, fields: &Vec<JsonMember>, meta: &Vec<RelationMetadata>) -> (r: Result<
    Vec<CompiledRelation>,
    FgaError,
>)
    ensures
        match r {
            Ok(c) => spec_compile_relations(object_type@, fields@, metadata_views(meta@)) == Ok::<
                Seq<CompiledRelationV>,
                FgaErrorV,
            >(relation_views(c@)),
            Err(e) => spec_compile_relations(object_type@, fields@, metadata_views(meta@)) == Err::<
                Seq<CompiledRelationV>,
                FgaErrorV,
            >(e@),
        },
{
    let mut out: Vec<CompiledRelation> = Vec::new();
    let mut i: usize = 0;
    assert(fields@.subrange(0, 0) =~= Seq::<JsonMember>::empty());
    assert(relation_views(out@) =~= Seq::<CompiledRelationV>::empty());
    while i < fields.len()
        invariant
            i <= fields@.len(),
            spec_compile_relations(object_type@, fields@.subrange(0, i as int), metadata_views(meta@))
                == Ok::<Seq<CompiledRelationV>, FgaErrorV>(relation_views(out@)),
        decreases fields.len() - i,
    {
        let c = compile_relation(object_type, &fields[i], meta);
        proof {
            let pre = fields@.subrange(0, i as int + 1);
            assert(pre.drop_last() =~= fields@.subrange(0, i as int));
            assert(pre.last() == fields@[i as int]);
        }
        match c {
            Ok(rel) => {
                let ghost old_out = out@;
                out.push(rel);
                proof {
                    assert(relation_views(out@) =~= relation_views(old_out).push(out@.last()@));
                }
            },
            Err(e) => {
                proof {
                    lemma_relations_error_extends(object_type@, fields@, metadata_views(meta@), i as int + 1);
                }
                return Err(e);
            },
        }
        i = i + 1;
    }
    assert(fields@.subrange(0, fields@.len() as int) =~= fields@);
    Ok(out)
}

proof fn lemma_types_error_extends(tds: Seq<TypeDefinition>, k: int)
    requires
        0 <= k <= tds.len(),
        spec_compile_types(tds.subrange(0, k)) is Err,
    ensures
        spec_compile_types(tds) == spec_compile_types(tds.subrange(0, k)),
    decreases tds.len() - k,
{
    if k < tds.len() {
        let pre = tds.subrange(0, k + 1);
        assert(pre.drop_last() =~= tds.subrange(0, k));
        lemma_types_error_extends(tds, k + 1);
    } else {
        assert(tds.subrange(0, k) =~= tds);
    }
}

fn has_type(types: &Vec<CompiledType>, name: &String) -> (r: bool)
    ensures
        r == has_object_typed(type_views(types@), name@),
{
    let mut i: usize = 0;
    while i < types.len()
        invariant
            i <= types@.len(),
            forall|j: int| 0 <= j < i ==> types@[j].name@ != name@,
        decreases types.len() - i,
    {
        if str_eq(types[i].name.as_str(), name.as_str()) {
            assert(type_views(types@)[i as int].name == name@);
            return true;
        }
        i = i + 1;
    }
    false
}

impl CompiledModel {
    /// Compiles a model write request: schema `1.1`, no conditions, no type
    /// defined twice, every relation definition parsed, and metadata only on
    /// relations with a direct `this` branch.
    pub fn from_request(request: &AuthorizationModelWriteRequest) -> (r: Result<CompiledModel, FgaError>)
        ensures
            match r {
                Ok(m) => spec_compile(*request) == Ok::<ModelV, FgaErrorV>(m@),
                Err(e) => spec_compile(*request) == Err::<ModelV, FgaErrorV>(e@),
            },
    {
        if !str_eq(request.schema_version.as_str(), "1.1") {
            return Err(
                FgaError::BadRequest(
                    concat3("schema_version ", request.schema_version.as_str(), " is not supported"),
                ),
            );
        }
        if request.conditions.len() > 0 {
            return Err(
                FgaError::Unsupported(str_to_string("conditions are not supported by the embedded v1 server")),
            );
        }
        let tds = &request.type_definitions;
        let mut types: Vec<CompiledType> = Vec::new();
        let mut i: usize = 0;
        assert(tds@.subrange(0, 0) =~= Seq::<TypeDefinition>::empty());
        assert(type_views(types@) =~= Seq::<CompiledTypeV>::empty());
        while i < tds.len()
            invariant
                i <= tds@.len(),
                tds@ == request.type_definitions@,
                request.schema_version@ == "1.1"@,
                request.conditions@.len() == 0,
                spec_compile_types(tds@.subrange(0, i as int)) == Ok::<Seq<CompiledTypeV>, FgaErrorV>(
                    type_views(types@),
                ),
            decreases tds.len() - i,
        {
            let td = &tds[i];
            proof {
                let pre = tds@.subrange(0, i as int + 1);
                assert(pre.drop_last() =~= tds@.subrange(0, i as int));
                assert(pre.last() == tds@[i as int]);
            }
            if has_type(&types, &td.object_type) {
                proof {
                    lemma_types_error_extends(tds@, i as int + 1);
                }
                return Err(FgaError::BadRequest(concat2("duplicate type definition ", td.object_type.as_str())));
            }
            let md = td.metadata.as_ref();
            assert(deref_json(md) == td.metadata);
            let meta = match parse_relation_metadata(md) {
                Ok(m) => m,
                Err(e) => {
                    proof {
                        lemma_types_error_extends(tds@, i as int + 1);
                    }
                    return Err(e);
                },
            };
            let rels = match compile_relations(&td.object_type, &td.relations, &meta) {
                Ok(r) => r,
                Err(e) => {
                    proof {
                        lemma_types_error_extends(tds@, i as int + 1);
                    }
                    return Err(e);
                },
            };
            let ghost old_types = types@;
            types.push(CompiledType { name: copy_string(&td.object_type), relations: rels });
            proof {
                assert(type_views(types@) =~= type_views(old_types).push(types@.last()@));
            }
            i = i + 1;
        }
        assert(tds@.subrange(0, tds@.len() as int) =~= tds@);
        Ok(CompiledModel { schema_version: copy_string(&request.schema_version), types })
    }
}

/// The first type named `name`.
pub open spec fn find_type(types: Seq<CompiledTypeV>, name: Seq<char>) -> Option<CompiledTypeV>
    decreases types.len(),
{
    if types.len() == 0 {
        None
    } else if types[0].name == name {
        Some(types[0])
    } else {
        find_type(types.drop_first(), name)
    }
}

/// The first relation named `name`.
pub open spec fn find_relation(rels: Seq<CompiledRelationV>, name: Seq<char>) -> Option<CompiledRelationV>
    decreases rels.len(),
{
    if rels.len() == 0 {
        None
    } else if rels[0].name == name {
        Some(rels[0])
    } else {
        find_relation(rels.drop_first(), name)
    }
}

/// Relation `relation` of type `object_type` in the model.
pub open spec fn spec_lookup(m: ModelV, object_type: Seq<char>, relation: Seq<char>) -> Option<CompiledRelationV> {
    match find_type(m.types, object_type) {
        Some(t) => find_relation(t.relations, relation),
        None => None,
    }
}

/// The rewrite of relation `relation` on type `object_type`.
pub open spec fn spec_relation_expr(m: ModelV, object_type: Seq<char>, relation: Seq<char>) -> Option<RelExprV> {
    match spec_lookup(m, object_type, relation) {
        Some(c) => Some(c.expr),
        None => None,
    }
}

pub open spec fn undefined_relation_text(object_type: Seq<char>, relation: Seq<char>) -> Seq<char> {
    "relation "@ + relation + " is not defined on type "@ + object_type
}

pub open spec fn computed_only_tuple_text(object_type: Seq<char>, relation: Seq<char>) -> Seq<char> {
    "relation "@ + object_type + "#"@ + relation + " is computed-only and cannot accept direct tuples"@
}

pub open spec fn user_not_allowed_text(t: TupleV) -> Seq<char> {
    "user "@ + spec_user_raw(t.user) + " cannot be directly related to "@ + spec_object_raw(t.object) + "#"@
        + t.relation
}

pub open spec fn any_allowed_matches(allowed: Seq<AllowedV>, u: UserRefV) -> bool {
    exists|i: int| 0 <= i < allowed.len() && spec_allowed_matches(#[trigger] allowed[i], u)
}

/// Whether a tuple may be stored under the model: its relation is defined,
/// has a direct `this` branch, and, where the relation lists allowed direct
/// users, the user is of one of those kinds.
pub open spec fn spec_validate_tuple(m: ModelV, t: TupleV) -> Result<(), FgaErrorV> {
    match spec_lookup(m, t.object.object_type, t.relation) {
        None => Err(FgaErrorV::BadRequest(undefined_relation_text(t.object.object_type, t.relation))),
        Some(c) => if !c.allows_direct_tuples {
            Err(FgaErrorV::BadRequest(computed_only_tuple_text(t.object.object_type, t.relation)))
        } else if c.allowed_direct_users.len() > 0 && !any_allowed_matches(c.allowed_direct_users, t.user) {
            Err(FgaErrorV::BadRequest(user_not_allowed_text(t)))
        } else {
            Ok(())
        },
    }
}

fn find_type_index(types: &Vec<CompiledType>, name: &str) -> (r: Option<usize>)
    ensures
        match r {
            Some(i) => i < types@.len() && find_type(type_views(types@), name@) == Some(types@[i as int]@),
            None => find_type(type_views(types@), name@) is None,
        },
{
    let ghost tv = type_views(types@);
    let mut i: usize = 0;
    assert(tv.subrange(0, tv.len() as int) =~= tv);
    while i < types.len()
        invariant
            i <= types@.len(),
            tv == type_views(types@),
            find_type(tv, name@) == find_type(tv.subrange(i as int, tv.len() as int), name@),
        decreases types.len() - i,
    {
        let ghost rest = tv.subrange(i as int, tv.len() as int);
        assert(rest[0] == types@[i as int]@);
        if str_eq(types[i].name.as_str(), name) {
            return Some(i);
        }
        assert(rest.drop_first() =~= tv.subrange(i + 1, tv.len() as int));
        i = i + 1;
    }
    None
}

fn find_relation_index(rels: &Vec<CompiledRelation>, name: &str) -> (r: Option<usize>)
    ensures
        match r {
            Some(i) => i < rels@.len() && find_relation(relation_views(rels@), name@) == Some(rels@[i as int]@),
            None => find_relation(relation_views(rels@), name@) is None,
        },
{
    let ghost rv = relation_views(rels@);
    let mut i: usize = 0;
    assert(rv.subrange(0, rv.len() as int) =~= rv);
    while i < rels.len()
        invariant
            i <= rels@.len(),
            rv == relation_views(rels@),
            find_relation(rv, name@) == find_relation(rv.subrange(i as int, rv.len() as int), name@),
        decreases rels.len() - i,
    {
        let ghost rest = rv.subrange(i as int, rv.len() as int);
        assert(rest[0] == rels@[i as int]@);
        if str_eq(rels[i].name.as_str(), name) {
            return Some(i);
        }
        assert(rest.drop_first() =~= rv.subrange(i + 1, rv.len() as int));
        i = i + 1;
    }
    None
}

/// One source of candidates for listing objects or users of a relation.
#[derive(Debug)]
pub enum CandidateSource {
    Direct,
    ComputedUserset { relation: String },
    TupleToUserset { tupleset: String, computed_userset: String },
}

pub enum SourceV {
    Direct,
    Computed(Seq<char>),
    TupleToUserset(Seq<char>, Seq<char>),
}

impl View for CandidateSource {
    type V = SourceV;

    open spec fn view(&self) -> SourceV {
        match self {
            CandidateSource::Direct => SourceV::Direct,
            CandidateSource::ComputedUserset { relation } => SourceV::Computed(relation@),
            CandidateSource::TupleToUserset { tupleset, computed_userset } => SourceV::TupleToUserset(
                tupleset@,
                computed_userset@,
            ),
        }
    }
}

pub open spec fn source_views(s: Seq<CandidateSource>) -> Seq<SourceV> {
    s.map_values(|c: CandidateSource| c@)
}

/// How candidates are found: from planned sources, or by a bounded scan.
#[derive(Debug)]
pub enum ListPlan {
    Planned { sources: Vec<CandidateSource> },
    ScanFallback,
}

pub open spec fn plan_view(p: ListPlan) -> Option<Seq<SourceV>> {
    match p {
        ListPlan::Planned { sources } => Some(source_views(sources@)),
        ListPlan::ScanFallback => None,
    }
}

/// The candidate sources of an expression; `None` where only a scan will do.
/// A union needs every branch planned, an intersection takes its first
/// planned branch, a difference plans its base.
pub open spec fn spec_plan(e: RelExprV) -> Option<Seq<SourceV>>
    decreases e,
{
    match e {
        RelExprV::This => Some(seq![SourceV::Direct]),
        RelExprV::Computed(r) => Some(seq![SourceV::Computed(r)]),
        RelExprV::TupleToUserset(t, c) => Some(seq![SourceV::TupleToUserset(t, c)]),
        RelExprV::Union(c) => plan_all(c),
        RelExprV::Intersection(c) => plan_first(c),
        RelExprV::Difference(b, _) => spec_plan(*b),
    }
}

pub open spec fn plan_all(c: Seq<RelExprV>) -> Option<Seq<SourceV>>
    decreases c,
{
    if c.len() == 0 {
        Some(Seq::empty())
    } else {
        match plan_all(c.drop_last()) {
            None => None,
            Some(p) => match spec_plan(c.last()) {
                None => None,
                Some(q) => Some(p + q),
            },
        }
    }
}

pub open spec fn plan_first(c: Seq<RelExprV>) -> Option<Seq<SourceV>>
    decreases c,
{
    if c.len() == 0 {
        None
    } else {
        match plan_first(c.drop_last()) {
            Some(p) => Some(p),
            None => spec_plan(c.last()),
        }
    }
}

fn copy_sources(v: &Vec<CandidateSource>, out: &mut Vec<CandidateSource>)
    ensures
        source_views(final(out)@) == source_views(old(out)@) + source_views(v@),
{
    let ghost start = out@;
    let mut i: usize = 0;
    while i < v.len()
        invariant
            i <= v@.len(),
            out@.len() == start.len() + i,
            forall|j: int| 0 <= j < start.len() ==> #[trigger] out@[j] == start[j],
            forall|j: int| 0 <= j < i ==> (#[trigger] out@[start.len() + j])@ == v@[j]@,
        decreases v.len() - i,
    {
        let c = match &v[i] {
            CandidateSource::Direct => CandidateSource::Direct,
            CandidateSource::ComputedUserset { relation } => CandidateSource::ComputedUserset {
                relation: copy_string(relation),
            },
            CandidateSource::TupleToUserset { tupleset, computed_userset } => CandidateSource::TupleToUserset {
                tupleset: copy_string(tupleset),
                computed_userset: copy_string(computed_userset),
            },
        };
        out.push(c);
        i = i + 1;
    }
    assert forall|j: int| 0 <= j < out@.len() implies source_views(out@)[j] == (source_views(start) + source_views(
        v@,
    ))[j] by {
        if j >= start.len() {
            assert(out@[start.len() + (j - start.len())] == out@[j]);
        }
    }
    assert(source_views(out@) =~= source_views(start) + source_views(v@));
}

fn plan_union(children: &Vec<RelationExpr>) -> (r: ListPlan)
    ensures
        plan_view(r) == plan_all(crate::fga_expr::views(children@)),
    decreases children@,
{
    let ghost cv = crate::fga_expr::views(children@);
    proof {
        crate::fga_expr::lemma_views(children@);
        assert(cv.subrange(0, 0) =~= Seq::<RelExprV>::empty());
    }
    let mut sources: Vec<CandidateSource> = Vec::new();
    assert(source_views(sources@) =~= Seq::<SourceV>::empty());
    let mut i: usize = 0;
    while i < children.len()
        invariant
            i <= children@.len(),
            cv == crate::fga_expr::views(children@),
            cv.len() == children@.len(),
            forall|j: int| 0 <= j < children@.len() ==> #[trigger] cv[j] == crate::fga_expr::expr_view(children@[j]),
            plan_all(cv.subrange(0, i as int)) == Some(source_views(sources@)),
        decreases children.len() - i,
    {
        let p = plan_from_expr(&children[i]);
        proof {
            let pre = cv.subrange(0, i as int + 1);
            assert(pre.drop_last() =~= cv.subrange(0, i as int));
            assert(pre.last() == cv[i as int]);
        }
        match p {
            ListPlan::Planned { sources: child } => {
                copy_sources(&child, &mut sources);
            },
            ListPlan::ScanFallback => {
                proof {
                    lemma_plan_all_none_extends(cv, i as int + 1);
                }
                return ListPlan::ScanFallback;
            },
        }
        i = i + 1;
    }
    assert(cv.subrange(0, cv.len() as int) =~= cv);
    ListPlan::Planned { sources }
}

proof fn lemma_plan_all_none_extends(c: Seq<RelExprV>, k: int)
    requires
        0 <= k <= c.len(),
        plan_all(c.subrange(0, k)) is None,
    ensures
        plan_all(c) is None,
    decreases c.len() - k,
{
    if k < c.len() {
        let pre = c.subrange(0, k + 1);
        assert(pre.drop_last() =~= c.subrange(0, k));
        lemma_plan_all_none_extends(c, k + 1);
    } else {
        assert(c.subrange(0, k) =~= c);
    }
}

proof fn lemma_plan_first_some_extends(c: Seq<RelExprV>, k: int)
    requires
        0 <= k <= c.len(),
        plan_first(c.subrange(0, k)) is Some,
    ensures
        plan_first(c) == plan_first(c.subrange(0, k)),
    decreases c.len() - k,
{
    if k < c.len() {
        let pre = c.subrange(0, k + 1);
        assert(pre.drop_last() =~= c.subrange(0, k));
        lemma_plan_first_some_extends(c, k + 1);
    } else {
        assert(c.subrange(0, k) =~= c);
    }
}

fn plan_intersection(children: &Vec<RelationExpr>) -> (r: ListPlan)
    ensures
        plan_view(r) == plan_first(crate::fga_expr::views(children@)),
    decreases children@,
{
    let ghost cv = crate::fga_expr::views(children@);
    proof {
        crate::fga_expr::lemma_views(children@);
        assert(cv.subrange(0, 0) =~= Seq::<RelExprV>::empty());
    }
    let mut i: usize = 0;
    while i < children.len()
        invariant
            i <= children@.len(),
            cv == crate::fga_expr::views(children@),
            cv.len() == children@.len(),
            forall|j: int| 0 <= j < children@.len() ==> #[trigger] cv[j] == crate::fga_expr::expr_view(children@[j]),
            plan_first(cv.subrange(0, i as int)) is None,
        decreases children.len() - i,
    {
        let p = plan_from_expr(&children[i]);
        proof {
            let pre = cv.subrange(0, i as int + 1);
            assert(pre.drop_last() =~= cv.subrange(0, i as int));
            assert(pre.last() == cv[i as int]);
        }
        match p {
            ListPlan::Planned { sources } => {
                proof {
                    lemma_plan_first_some_extends(cv, i as int + 1);
                }
                return ListPlan::Planned { sources };
            },
            ListPlan::ScanFallback => {},
        }
        i = i + 1;
    }
    assert(cv.subrange(0, cv.len() as int) =~= cv);
    ListPlan::ScanFallback
}

/// The candidate sources of an expression.
pub fn plan_from_expr(expr: &RelationExpr) -> (r: ListPlan)
    ensures
        plan_view(r) == spec_plan(expr@),
    decreases expr,
{
    match expr {
        RelationExpr::This => {
            let v = vec![CandidateSource::Direct];
            assert(source_views(v@) =~= seq![SourceV::Direct]);
            ListPlan::Planned { sources: v }
        },
        RelationExpr::ComputedUserset { relation } => {
            let v = vec![CandidateSource::ComputedUserset { relation: copy_string(relation) }];
            assert(source_views(v@) =~= seq![SourceV::Computed(relation@)]);
            ListPlan::Planned { sources: v }
        },
        RelationExpr::TupleToUserset { tupleset, computed_userset } => {
            let v = vec![
                CandidateSource::TupleToUserset {
                    tupleset: copy_string(tupleset),
                    computed_userset: copy_string(computed_userset),
                },
            ];
            assert(source_views(v@) =~= seq![SourceV::TupleToUserset(tupleset@, computed_userset@)]);
            ListPlan::Planned { sources: v }
        },
        RelationExpr::Union { children } => plan_union(children),
        RelationExpr::Intersection { children } => plan_intersection(children),
        RelationExpr::Difference { base, .. } => plan_from_expr(base),
    }
}

impl CompiledModel {
    /// Relation `relation` of type `object_type`.
    pub fn relation(&self, object_type: &str, relation: &str) -> (r: Result<&CompiledRelation, FgaError>)
        ensures
            match r {
                Ok(c) => spec_lookup(self@, object_type@, relation@) == Some(c@),
                Err(e) => spec_lookup(self@, object_type@, relation@) is None && e.is_bad_request(
                    undefined_relation_text(object_type@, relation@),
                ),
            },
    {
        if let Some(ti) = find_type_index(&self.types, object_type) {
            let t = &self.types[ti];
            if let Some(ri) = find_relation_index(&t.relations, relation) {
                return Ok(&t.relations[ri]);
            }
        }
        Err(FgaError::BadRequest(concat4("relation ", relation, " is not defined on type ", object_type)))
    }

    /// The rewrite of relation `relation` of type `object_type`.
    pub fn relation_expr(&self, object_type: &str, relation: &str) -> (r: Result<&RelationExpr, FgaError>)
        ensures
            match r {
                Ok(e) => spec_relation_expr(self@, object_type@, relation@) == Some(e@),
                Err(e) => spec_relation_expr(self@, object_type@, relation@) is None && e.is_bad_request(
                    undefined_relation_text(object_type@, relation@),
                ),
            },
    {
        match self.relation(object_type, relation) {
            Ok(c) => Ok(&c.expr),
            Err(e) => Err(e),
        }
    }

    /// How to find candidates for listing relation `relation` of type `object_type`.
    pub fn list_plan(&self, object_type: &str, relation: &str) -> (r: Result<ListPlan, FgaError>)
        ensures
            match r {
                Ok(p) => spec_relation_expr(self@, object_type@, relation@) matches Some(e) && plan_view(p)
                    == spec_plan(e),
                Err(e) => spec_relation_expr(self@, object_type@, relation@) is None && e.is_bad_request(
                    undefined_relation_text(object_type@, relation@),
                ),
            },
    {
        match self.relation_expr(object_type, relation) {
            Ok(e) => Ok(plan_from_expr(e)),
            Err(e) => Err(e),
        }
    }

    /// Checks that a tuple may be stored under this model.
    pub fn validate_tuple(&self, tuple: &ParsedTupleKey) -> (r: Result<(), FgaError>)
        ensures
            match r {
                Ok(()) => spec_validate_tuple(self@, tuple@) == Ok::<(), FgaErrorV>(()),
                Err(e) => spec_validate_tuple(self@, tuple@) == Err::<(), FgaErrorV>(e@),
            },
    {
        let c = match self.relation(tuple.object.object_type.as_str(), tuple.relation.as_str()) {
            Ok(c) => c,
            Err(e) => {
                return Err(e);
            },
        };
        if !c.allows_direct_tuples {
            return Err(
                FgaError::BadRequest(
                    concat5(
                        "relation ",
                        tuple.object.object_type.as_str(),
                        "#",
                        tuple.relation.as_str(),
                        " is computed-only and cannot accept direct tuples",
                    ),
                ),
            );
        }
        let allowed = &c.allowed_direct_users;
        if allowed.len() > 0 {
            let mut i: usize = 0;
            let mut found = false;
            while i < allowed.len()
                invariant
                    i <= allowed@.len(),
                    found ==> any_allowed_matches(allowed_views(allowed@), tuple.user@),
                    !found ==> forall|j: int| 0 <= j < i ==> !spec_allowed_matches(#[trigger] allowed@[j]@, tuple.user@),
                decreases allowed.len() - i,
            {
                if allowed[i].matches(&tuple.user) {
                    assert(allowed_views(allowed@)[i as int] == allowed@[i as int]@);
                    found = true;
                }
                i = i + 1;
            }
            if !found {
                proof {
                    assert forall|j: int| 0 <= j < allowed_views(allowed@).len() implies !spec_allowed_matches(
                        #[trigger] allowed_views(allowed@)[j],
                        tuple.user@,
                    ) by {
                        assert(allowed_views(allowed@)[j] == allowed@[j]@);
                    }
                }
                let user_raw = tuple.user.as_raw();
                let object_raw = tuple.object.as_raw();
                let head = concat3("user ", user_raw.as_str(), " cannot be directly related to ");
                return Err(FgaError::BadRequest(concat4(head.as_str(), object_raw.as_str(), "#", tuple.relation.as_str())));
            }
        }
        Ok(())
    }
}

/// A userset user is of an allowed kind only where the kind names its type
/// and exactly its relation.
pub proof fn lemma_allowed_userset_names_relation(a: AllowedV, o: ObjectRefV, r: Seq<char>)
    requires
        spec_allowed_matches(a, UserRefV::Userset(o, r)),
    ensures
        a.relation == Some(r),
        a.user_type == o.object_type,
{
}

/// A tuple whose user is a userset passes validation against a relation that
/// lists allowed users only where one of them is that userset's type with
/// exactly its relation.
pub proof fn lemma_validated_userset_is_listed(m: ModelV, t: TupleV, o: ObjectRefV, r: Seq<char>)
    requires
        spec_validate_tuple(m, t) is Ok,
        t.user == UserRefV::Userset(o, r),
        spec_lookup(m, t.object.object_type, t.relation) matches Some(c) && c.allowed_direct_users.len() > 0,
    ensures
        exists|i: int|
            0 <= i < spec_lookup(m, t.object.object_type, t.relation).unwrap().allowed_direct_users.len() && (
            #[trigger] spec_lookup(m, t.object.object_type, t.relation).unwrap().allowed_direct_users[i]).user_type
                == o.object_type && spec_lookup(m, t.object.object_type, t.relation).unwrap().allowed_direct_users[i].relation
                == Some(r),
{
    let c = spec_lookup(m, t.object.object_type, t.relation).unwrap();
    let i = choose|i: int| 0 <= i < c.allowed_direct_users.len() && spec_allowed_matches(#[trigger] c.allowed_direct_users[i], t.user);
    assert(c.allowed_direct_users[i].relation == Some(r));
}

} // verus!
