//! The sealed core of every authorization model: the types the platform
//! itself relies on, with their relations and the users they admit.

use vstd::prelude::*;

use crate::fga_model::{AuthorizationModelWriteRequest, CompiledModel, TypeDefinition, spec_compile};
use crate::fga_refs::{FgaError, FgaErrorV};
use crate::json::{
    JsonMember, JsonValue, json_equal, json_equiv, lemma_json_equiv_refl, lemma_member_present, lemma_members_equiv_refl,
    objects_equal, objects_equiv,
};
use crate::text::{concat3, concat4, str_eq, str_to_string};

verus! {

/// A relation definition of the core: plain `this`, or, where a relation is
/// named, `this` united with everyone of that relation.
pub open spec fn rewrite_json_is(v: JsonValue, computed: Option<Seq<char>>) -> bool {
    match computed {
        None => is_this_json(v),
        Some(rel) => is_union_json(v, rel),
    }
}

/// `{}`
pub open spec fn is_empty_object(v: JsonValue) -> bool {
    v matches JsonValue::Object(f) && f@.len() == 0
}

/// `{"this": {}}`
pub open spec fn is_this_json(v: JsonValue) -> bool {
    match v {
        JsonValue::Object(f) => f@.len() == 1 && f@[0].key@ == "this"@ && is_empty_object(f@[0].value),
        _ => false,
    }
}

/// `{"computedUserset": {"relation": rel}}`
pub open spec fn is_computed_json(v: JsonValue, rel: Seq<char>) -> bool {
    match v {
        JsonValue::Object(f) => f@.len() == 1 && f@[0].key@ == "computedUserset"@ && match f@[0].value {
            JsonValue::Object(g) => g@.len() == 1 && g@[0].key@ == "relation"@ && match g@[0].value {
                JsonValue::Str(s) => s@ == rel,
                _ => false,
            },
            _ => false,
        },
        _ => false,
    }
}

/// `{"union": {"child": [{"this": {}}, {"computedUserset": {"relation": rel}}]}}`
pub open spec fn is_union_json(v: JsonValue, rel: Seq<char>) -> bool {
    match v {
        JsonValue::Object(f) => f@.len() == 1 && f@[0].key@ == "union"@ && match f@[0].value {
            JsonValue::Object(g) => g@.len() == 1 && g@[0].key@ == "child"@ && match g@[0].value {
                JsonValue::Array(a) => a@.len() == 2 && is_this_json(a@[0]) && is_computed_json(a@[1], rel),
                _ => false,
            },
            _ => false,
        },
        _ => false,
    }
}

/// The relation members of a type definition, one per entry of `rels`, in
/// order.
pub open spec fn relations_are(ms: Seq<JsonMember>, rels: Seq<(Seq<char>, Option<Seq<char>>)>) -> bool {
    &&& ms.len() == rels.len()
    &&& forall|i: int|
        0 <= i < ms.len() ==> (#[trigger] ms[i]).key@ == rels[i].0 && rewrite_json_is(ms[i].value, rels[i].1)
}

/// `{"type": t}`, or `{"type": t, "relation": r}` for a userset.
pub open spec fn user_type_json_is(v: JsonValue, t: (Seq<char>, Option<Seq<char>>)) -> bool {
    match v {
        JsonValue::Object(f) => f@.len() >= 1 && f@[0].key@ == "type"@ && (match f@[0].value {
            JsonValue::Str(s) => s@ == t.0,
            _ => false,
        }) && match t.1 {
            None => f@.len() == 1,
            Some(r) => f@.len() == 2 && f@[1].key@ == "relation"@ && match f@[1].value {
                JsonValue::Str(s) => s@ == r,
                _ => false,
            },
        },
        _ => false,
    }
}

/// `{"directly_related_user_types": [...]}` listing `types` in order.
pub open spec fn directly_related_is(v: JsonValue, types: Seq<(Seq<char>, Option<Seq<char>>)>) -> bool {
    match v {
        JsonValue::Object(f) => f@.len() == 1 && f@[0].key@ == "directly_related_user_types"@ && match f@[0].value {
            JsonValue::Array(a) => a@.len() == types.len() && forall|j: int|
                0 <= j < a@.len() ==> user_type_json_is(#[trigger] a@[j], types[j]),
            _ => false,
        },
        _ => false,
    }
}

/// The metadata members, one per relation of `rels`, in order.
pub open spec fn metadata_entries_are(
    g: Seq<JsonMember>,
    rels: Seq<(Seq<char>, Seq<(Seq<char>, Option<Seq<char>>)>)>,
) -> bool {
    &&& g.len() == rels.len()
    &&& forall|i: int|
        0 <= i < g.len() ==> (#[trigger] g[i]).key@ == rels[i].0 && directly_related_is(g[i].value, rels[i].1)
}

/// `{"relations": {...}}` with the metadata members of `rels`.
pub open spec fn metadata_is(md: Option<JsonValue>, rels: Seq<(Seq<char>, Seq<(Seq<char>, Option<Seq<char>>)>)>) -> bool {
    match md {
        Some(JsonValue::Object(f)) => f@.len() == 1 && f@[0].key@ == "relations"@ && match f@[0].value {
            JsonValue::Object(g) => metadata_entries_are(g@, rels),
            _ => false,
        },
        _ => false,
    }
}

/// A type of the core: its name, its relations, and for each relation with
/// metadata the user types it admits directly.
pub struct CoreTypeSpec {
    pub name: Seq<char>,
    pub relations: Seq<(Seq<char>, Option<Seq<char>>)>,
    pub metadata: Seq<(Seq<char>, Seq<(Seq<char>, Option<Seq<char>>)>)>,
}

pub open spec fn type_def_is(td: TypeDefinition, s: CoreTypeSpec) -> bool {
    &&& td.object_type@ == s.name
    &&& relations_are(td.relations@, s.relations)
    &&& metadata_is(td.metadata, s.metadata)
}

/// Users and principals.
pub open spec fn user_principal() -> Seq<(Seq<char>, Option<Seq<char>>)> {
    seq![("user"@, None), ("principal"@, None)]
}

pub open spec fn plain_relations(names: Seq<&str>) -> Seq<(Seq<char>, Option<Seq<char>>)> {
    names.map_values(|n: &str| (n@, None::<Seq<char>>))
}

pub open spec fn plain_metadata(names: Seq<&str>) -> Seq<(Seq<char>, Seq<(Seq<char>, Option<Seq<char>>)>)> {
    names.map_values(|n: &str| (n@, user_principal()))
}

/// A type whose relations are all direct and admit users and principals.
pub open spec fn plain_type(name: Seq<char>, names: Seq<&str>) -> CoreTypeSpec {
    CoreTypeSpec { name, relations: plain_relations(names), metadata: plain_metadata(names) }
}

/// The direct catalog relations of an instance.
pub open spec fn instance_catalog() -> Seq<&'static str> {
    seq![
        "system_owner",
        "system_owner_viewer",
        "iam_owner",
        "iam_owner_viewer",
        "iam_org_manager",
        "iam_user_manager",
        "iam_admin_impersonator",
        "iam_end_user_impersonator",
        "iam_login_client",
        "self_management_global",
        "support_read",
        "support_write",
        "support_config",
        "support_admin",
    ]
}

/// The direct catalog relations of an org.
pub open spec fn org_catalog() -> Seq<&'static str> {
    seq![
        "org_owner",
        "org_owner_viewer",
        "org_user_manager",
        "org_settings_manager",
        "org_user_permission_editor",
        "org_project_permission_editor",
        "org_project_creator",
        "org_admin_impersonator",
        "org_end_user_impersonator",
        "org_user_self_manager",
    ]
}

/// Users, principals and the usersets `org#rel`.
pub open spec fn with_org(rel: Seq<char>) -> Seq<(Seq<char>, Option<Seq<char>>)> {
    user_principal().push(("org"@, Some(rel)))
}

/// An instance: owners, admins (and owners), viewers (and admins), its parent
/// instance, and its catalog relations.
pub open spec fn instance_type() -> CoreTypeSpec {
    CoreTypeSpec {
        name: "instance"@,
        relations: seq![("owner"@, None), ("admin"@, Some("owner"@)), ("viewer"@, Some("admin"@)), ("parent"@, None)]
            + plain_relations(instance_catalog()),
        metadata: seq![
            ("owner"@, with_org("owner"@)),
            ("admin"@, with_org("admin"@)),
            ("viewer"@, with_org("viewer"@)),
            ("parent"@, seq![("instance"@, None::<Seq<char>>)]),
        ] + plain_metadata(instance_catalog()),
    }
}

/// An org: owners, admins (and owners), members (and admins), viewers (and
/// members), and its catalog relations.
pub open spec fn org_type() -> CoreTypeSpec {
    CoreTypeSpec {
        name: "org"@,
        relations: seq![
            ("owner"@, None),
            ("admin"@, Some("owner"@)),
            ("member"@, Some("admin"@)),
            ("viewer"@, Some("member"@)),
        ] + plain_relations(org_catalog()),
        metadata: plain_metadata(seq!["owner", "admin", "member", "viewer"] + org_catalog()),
    }
}

/// The types of the core model, in order.
pub open spec fn core_types() -> Seq<CoreTypeSpec> {
    seq![
        plain_type("user"@, seq![]),
        plain_type("principal"@, seq![]),
        instance_type(),
        org_type(),
        plain_type("group"@, seq!["member", "admin"]),
        plain_type(
            "project"@,
            seq![
                "owner",
                "admin",
                "member",
                "project_owner",
                "project_owner_viewer",
                "project_owner_global",
                "project_owner_viewer_global",
            ],
        ),
        plain_type("project_grant"@, seq!["project_grant_owner", "project_grant_owner_viewer"]),
        plain_type("app"@, seq!["admin", "viewer"]),
        plain_type("settings"@, seq!["admin", "viewer"]),
        plain_type("session"@, seq!["owner"]),
    ]
}

proof fn lemma_relations_concat(
    a: Seq<JsonMember>,
    b: Seq<JsonMember>,
    ta: Seq<(Seq<char>, Option<Seq<char>>)>,
    tb: Seq<(Seq<char>, Option<Seq<char>>)>,
)
    requires
        relations_are(a, ta),
        relations_are(b, tb),
    ensures
        relations_are(a + b, ta + tb),
{
    assert forall|i: int| 0 <= i < (a + b).len() implies (#[trigger] (a + b)[i]).key@ == (ta + tb)[i].0
        && rewrite_json_is((a + b)[i].value, (ta + tb)[i].1) by {
        if i >= a.len() {
            assert(b[i - a.len()] == (a + b)[i]);
        }
    }
}

proof fn lemma_metadata_concat(
    a: Seq<JsonMember>,
    b: Seq<JsonMember>,
    ta: Seq<(Seq<char>, Seq<(Seq<char>, Option<Seq<char>>)>)>,
    tb: Seq<(Seq<char>, Seq<(Seq<char>, Option<Seq<char>>)>)>,
)
    requires
        metadata_entries_are(a, ta),
        metadata_entries_are(b, tb),
    ensures
        metadata_entries_are(a + b, ta + tb),
{
    assert forall|i: int| 0 <= i < (a + b).len() implies (#[trigger] (a + b)[i]).key@ == (ta + tb)[i].0
        && directly_related_is((a + b)[i].value, (ta + tb)[i].1) by {
        if i >= a.len() {
            assert(b[i - a.len()] == (a + b)[i]);
        }
    }
}

fn member(key: &str, value: JsonValue) -> (r: JsonMember)
    ensures
        r.key@ == key@,
        r.value == value,
{
    JsonMember { key: str_to_string(key), value }
}

fn empty_object() -> (r: JsonValue)
    ensures
        is_empty_object(r),
{
    JsonValue::Object(Vec::new())
}

fn this_json() -> (r: JsonValue)
    ensures
        is_this_json(r),
{
    let mut f: Vec<JsonMember> = Vec::new();
    f.push(member("this", empty_object()));
    JsonValue::Object(f)
}

fn union_json(rel: &str) -> (r: JsonValue)
    ensures
        is_union_json(r, rel@),
{
    let mut g: Vec<JsonMember> = Vec::new();
    g.push(member("relation", JsonValue::Str(str_to_string(rel))));
    let mut c: Vec<JsonMember> = Vec::new();
    c.push(member("computedUserset", JsonValue::Object(g)));
    let mut children: Vec<JsonValue> = Vec::new();
    children.push(this_json());
    children.push(JsonValue::Object(c));
    let mut u: Vec<JsonMember> = Vec::new();
    u.push(member("child", JsonValue::Array(children)));
    let mut f: Vec<JsonMember> = Vec::new();
    f.push(member("union", JsonValue::Object(u)));
    JsonValue::Object(f)
}

/// The member `name: {"this": {}}`, or `name: union(this, computed)`.
fn push_relation(ms: &mut Vec<JsonMember>, name: &str, computed: Option<&str>)
    ensures
        final(ms)@.len() == old(ms)@.len() + 1,
        final(ms)@.subrange(0, old(ms)@.len() as int) == old(ms)@,
        final(ms)@.last().key@ == name@,
        rewrite_json_is(
            final(ms)@.last().value,
            match computed {
                Some(c) => Some(c@),
                None => None,
            },
        ),
{
    let value = match computed {
        Some(c) => union_json(c),
        None => this_json(),
    };
    ms.push(member(name, value));
    assert(ms@.subrange(0, old(ms)@.len() as int) =~= old(ms)@);
}

/// A direct relation for each name.
fn this_relations(names: &[&str]) -> (r: Vec<JsonMember>)
    ensures
        relations_are(r@, plain_relations(names@)),
{
    let mut out: Vec<JsonMember> = Vec::new();
    let mut i: usize = 0;
    while i < names.len()
        invariant
            i <= names@.len(),
            relations_are(out@, plain_relations(names@.subrange(0, i as int))),
        decreases names.len() - i,
    {
        let ghost before = out@;
        out.push(member(names[i], this_json()));
        proof {
            assert(plain_relations(names@.subrange(0, i as int + 1)) =~= plain_relations(
                names@.subrange(0, i as int),
            ).push((names@[i as int]@, None)));
            assert(out@[i as int] == out@.last());
            assert forall|k: int| 0 <= k < i implies out@[k] == before[k] by {}
        }
        i = i + 1;
    }
    assert(names@.subrange(0, names@.len() as int) =~= names@);
    out
}

fn user_type_json(t: &str, rel: Option<&str>) -> (r: JsonValue)
    ensures
        user_type_json_is(
            r,
            (
                t@,
                match rel {
                    Some(x) => Some(x@),
                    None => None,
                },
            ),
        ),
{
    let mut f: Vec<JsonMember> = Vec::new();
    f.push(member("type", JsonValue::Str(str_to_string(t))));
    if let Some(x) = rel {
        f.push(member("relation", JsonValue::Str(str_to_string(x))));
    }
    JsonValue::Object(f)
}

fn directly_related(a: Vec<JsonValue>, Ghost(types): Ghost<Seq<(Seq<char>, Option<Seq<char>>)>>) -> (r: JsonValue)
    requires
        a@.len() == types.len(),
        forall|j: int| 0 <= j < a@.len() ==> user_type_json_is(#[trigger] a@[j], types[j]),
    ensures
        directly_related_is(r, types),
{
    let mut f: Vec<JsonMember> = Vec::new();
    f.push(member("directly_related_user_types", JsonValue::Array(a)));
    JsonValue::Object(f)
}

/// `{"directly_related_user_types": [{"type": "user"}, {"type": "principal"}]}`,
/// with `{"type": "org", "relation": org_rel}` after them where given.
fn user_principal_json(org_rel: Option<&str>) -> (r: JsonValue)
    ensures
        directly_related_is(
            r,
            match org_rel {
                Some(x) => with_org(x@),
                None => user_principal(),
            },
        ),
{
    let mut a: Vec<JsonValue> = Vec::new();
    a.push(user_type_json("user", None));
    a.push(user_type_json("principal", None));
    if let Some(x) = org_rel {
        a.push(user_type_json("org", Some(x)));
    }
    directly_related(
        a,
        Ghost(
            match org_rel {
                Some(x) => with_org(x@),
                None => user_principal(),
            },
        ),
    )
}

/// Metadata admitting users and principals for each name.
fn plain_metadata_entries(names: &[&str]) -> (r: Vec<JsonMember>)
    ensures
        metadata_entries_are(r@, plain_metadata(names@)),
{
    let mut out: Vec<JsonMember> = Vec::new();
    let mut i: usize = 0;
    while i < names.len()
        invariant
            i <= names@.len(),
            metadata_entries_are(out@, plain_metadata(names@.subrange(0, i as int))),
        decreases names.len() - i,
    {
        let ghost before = out@;
        out.push(member(names[i], user_principal_json(None)));
        proof {
            assert(plain_metadata(names@.subrange(0, i as int + 1)) =~= plain_metadata(
                names@.subrange(0, i as int),
            ).push((names@[i as int]@, user_principal())));
            assert forall|k: int| 0 <= k < i implies out@[k] == before[k] by {}
        }
        i = i + 1;
    }
    assert(names@.subrange(0, names@.len() as int) =~= names@);
    out
}

fn metadata_json(entries: Vec<JsonMember>, Ghost(rels): Ghost<Seq<(Seq<char>, Seq<(Seq<char>, Option<Seq<char>>)>)>>) -> (r:
    JsonValue)
    requires
        metadata_entries_are(entries@, rels),
    ensures
        metadata_is(Some(r), rels),
{
    let mut f: Vec<JsonMember> = Vec::new();
    f.push(member("relations", JsonValue::Object(entries)));
    JsonValue::Object(f)
}

/// A type whose relations are all direct, each admitting users and
/// principals.
pub fn simple_direct_type(object_type: &str, relations: &[&str]) -> (r: TypeDefinition)
    ensures
        type_def_is(r, plain_type(object_type@, relations@)),
{
    let rels = this_relations(relations);
    let md = metadata_json(plain_metadata_entries(relations), Ghost(plain_metadata(relations@)));
    TypeDefinition { object_type: str_to_string(object_type), relations: rels, metadata: Some(md) }
}

fn instance_type_definition() -> (r: TypeDefinition)
    ensures
        type_def_is(r, instance_type()),
{
    let catalog: [&str; 14] = [
        "system_owner",
        "system_owner_viewer",
        "iam_owner",
        "iam_owner_viewer",
        "iam_org_manager",
        "iam_user_manager",
        "iam_admin_impersonator",
        "iam_end_user_impersonator",
        "iam_login_client",
        "self_management_global",
        "support_read",
        "support_write",
        "support_config",
        "support_admin",
    ];
    assert(catalog@ =~= instance_catalog());
    let mut head: Vec<JsonMember> = Vec::new();
    push_relation(&mut head, "owner", None);
    push_relation(&mut head, "admin", Some("owner"));
    push_relation(&mut head, "viewer", Some("admin"));
    push_relation(&mut head, "parent", None);
    let ghost head_spec: Seq<(Seq<char>, Option<Seq<char>>)> = seq![
        ("owner"@, None),
        ("admin"@, Some("owner"@)),
        ("viewer"@, Some("admin"@)),
        ("parent"@, None),
    ];
    proof {
        assert(head@[0] == head@.subrange(0, 1)[0]);
        assert(head@[1] == head@.subrange(0, 2)[1]);
        assert(head@[2] == head@.subrange(0, 3)[2]);
        assert(relations_are(head@, head_spec));
    }
    let mut rels = head;
    let mut rest = this_relations(&catalog);
    proof {
        lemma_relations_concat(rels@, rest@, head_spec, plain_relations(instance_catalog()));
    }
    rels.append(&mut rest);

    let mut md_head: Vec<JsonMember> = Vec::new();
    md_head.push(member("owner", user_principal_json(Some("owner"))));
    md_head.push(member("admin", user_principal_json(Some("admin"))));
    md_head.push(member("viewer", user_principal_json(Some("viewer"))));
    let mut parent_types: Vec<JsonValue> = Vec::new();
    parent_types.push(user_type_json("instance", None));
    let ghost parent_spec: Seq<(Seq<char>, Option<Seq<char>>)> = seq![("instance"@, None)];
    let parent_json = directly_related(parent_types, Ghost(parent_spec));
    md_head.push(member("parent", parent_json));
    let ghost md_head_spec: Seq<(Seq<char>, Seq<(Seq<char>, Option<Seq<char>>)>)> = seq![
        ("owner"@, with_org("owner"@)),
        ("admin"@, with_org("admin"@)),
        ("viewer"@, with_org("viewer"@)),
        ("parent"@, seq![("instance"@, None::<Seq<char>>)]),
    ];
    assert(metadata_entries_are(md_head@, md_head_spec));
    let mut md_rest = plain_metadata_entries(&catalog);
    proof {
        lemma_metadata_concat(md_head@, md_rest@, md_head_spec, plain_metadata(instance_catalog()));
    }
    md_head.append(&mut md_rest);
    let md = metadata_json(md_head, Ghost(instance_type().metadata));
    TypeDefinition { object_type: str_to_string("instance"), relations: rels, metadata: Some(md) }
}

fn org_type_definition() -> (r: TypeDefinition)
    ensures
        type_def_is(r, org_type()),
{
    let catalog: [&str; 10] = [
        "org_owner",
        "org_owner_viewer",
        "org_user_manager",
        "org_settings_manager",
        "org_user_permission_editor",
        "org_project_permission_editor",
        "org_project_creator",
        "org_admin_impersonator",
        "org_end_user_impersonator",
        "org_user_self_manager",
    ];
    assert(catalog@ =~= org_catalog());
    let mut head: Vec<JsonMember> = Vec::new();
    push_relation(&mut head, "owner", None);
    push_relation(&mut head, "admin", Some("owner"));
    push_relation(&mut head, "member", Some("admin"));
    push_relation(&mut head, "viewer", Some("member"));
    let ghost head_spec: Seq<(Seq<char>, Option<Seq<char>>)> = seq![
        ("owner"@, None),
        ("admin"@, Some("owner"@)),
        ("member"@, Some("admin"@)),
        ("viewer"@, Some("member"@)),
    ];
    proof {
        assert(head@[0] == head@.subrange(0, 1)[0]);
        assert(head@[1] == head@.subrange(0, 2)[1]);
        assert(head@[2] == head@.subrange(0, 3)[2]);
        assert(relations_are(head@, head_spec));
    }
    let mut rels = head;
    let mut rest = this_relations(&catalog);
    proof {
        lemma_relations_concat(rels@, rest@, head_spec, plain_relations(org_catalog()));
    }
    rels.append(&mut rest);
    let all: [&str; 14] = [
        "owner",
        "admin",
        "member",
        "viewer",
        "org_owner",
        "org_owner_viewer",
        "org_user_manager",
        "org_settings_manager",
        "org_user_permission_editor",
        "org_project_permission_editor",
        "org_project_creator",
        "org_admin_impersonator",
        "org_end_user_impersonator",
        "org_user_self_manager",
    ];
    assert(all@ =~= seq!["owner", "admin", "member", "viewer"] + org_catalog());
    let md = metadata_json(plain_metadata_entries(&all), Ghost(org_type().metadata));
    TypeDefinition { object_type: str_to_string("org"), relations: rels, metadata: Some(md) }
}

/// The core authorization model: schema `1.1`, no conditions, and the core
/// types in order.
pub fn core_authorization_model() -> (r: AuthorizationModelWriteRequest)
    ensures
        r.schema_version@ == "1.1"@,
        r.conditions@.len() == 0,
        r.type_definitions@.len() == core_types().len(),
        forall|i: int| 0 <= i < core_types().len() ==> type_def_is(#[trigger] r.type_definitions@[i], core_types()[i]),
{
    let mut types: Vec<TypeDefinition> = Vec::new();
    let none: [&str; 0] = [];
    types.push(simple_direct_type("user", &none));
    types.push(simple_direct_type("principal", &none));
    types.push(instance_type_definition());
    types.push(org_type_definition());
    types.push(simple_direct_type("group", &["member", "admin"]));
    types.push(
        simple_direct_type(
            "project",
            &[
                "owner",
                "admin",
                "member",
                "project_owner",
                "project_owner_viewer",
                "project_owner_global",
                "project_owner_viewer_global",
            ],
        ),
    );
    types.push(simple_direct_type("project_grant", &["project_grant_owner", "project_grant_owner_viewer"]));
    types.push(simple_direct_type("app", &["admin", "viewer"]));
    types.push(simple_direct_type("settings", &["admin", "viewer"]));
    types.push(simple_direct_type("session", &["owner"]));
    let r = AuthorizationModelWriteRequest {
        schema_version: str_to_string("1.1"),
        type_definitions: types,
        conditions: Vec::new(),
    };
    r
}

/// The metadata of a type definition as a document; none is `null`.
pub open spec fn metadata_value(m: Option<JsonValue>) -> JsonValue {
    match m {
        Some(v) => v,
        None => JsonValue::Null,
    }
}

/// Two type definitions are the same document: the same type name, the same
/// relations and the same metadata.
pub open spec fn type_def_equiv(a: TypeDefinition, b: TypeDefinition) -> bool {
    &&& a.object_type@ == b.object_type@
    &&& objects_equiv(a.relations@, b.relations@)
    &&& json_equiv(metadata_value(a.metadata), metadata_value(b.metadata))
}

/// The first type definition of `tds` named `name`.
pub open spec fn find_type(tds: Seq<TypeDefinition>, name: Seq<char>) -> Option<TypeDefinition>
    decreases tds.len(),
{
    if tds.len() == 0 {
        None
    } else if tds[0].object_type@ == name {
        Some(tds[0])
    } else {
        find_type(tds.drop_first(), name)
    }
}

pub open spec fn sealed_missing_text(name: Seq<char>) -> Seq<char> {
    "sealed type "@ + name + " is missing"@
}

pub open spec fn sealed_modified_text(name: Seq<char>) -> Seq<char> {
    "sealed type "@ + name + " cannot be modified"@
}

/// The type a change to a sealed type is reported against. A subject type
/// (one with no relations, such as `user` or `principal`) is reported against
/// the first sealed type after it that has relations, the type whose
/// relations admit it; a type with relations, or one with no such type after
/// it, is reported under its own name. `rest` holds the sealed types after it.
pub open spec fn reported_name(c: TypeDefinition, rest: Seq<TypeDefinition>) -> Seq<char>
    decreases rest.len(),
{
    if c.relations@.len() > 0 || rest.len() == 0 {
        c.object_type@
    } else if rest[0].relations@.len() > 0 {
        rest[0].object_type@
    } else {
        reported_name(c, rest.drop_first())
    }
}

/// The first of the sealed types `sealed`, in their order, that `tds` lacks
/// or changes, as the error that reports it.
pub open spec fn sealed_error(tds: Seq<TypeDefinition>, sealed: Seq<TypeDefinition>) -> Option<FgaErrorV>
    decreases sealed.len(),
{
    if sealed.len() == 0 {
        None
    } else {
        let c = sealed[0];
        match find_type(tds, c.object_type@) {
            None => Some(FgaErrorV::BadRequest(sealed_missing_text(c.object_type@))),
            Some(t) => if type_def_equiv(t, c) {
                sealed_error(tds, sealed.drop_first())
            } else {
                Some(FgaErrorV::BadRequest(sealed_modified_text(reported_name(c, sealed.drop_first()))))
            },
        }
    }
}

fn find_type_exec<'a>(tds: &'a Vec<TypeDefinition>, name: &str) -> (r: Option<&'a TypeDefinition>)
    ensures
        match r {
            Some(t) => find_type(tds@, name@) == Some(*t),
            None => find_type(tds@, name@) is None,
        },
{
    let mut i: usize = 0;
    proof {
        assert(tds@.subrange(0, tds@.len() as int) =~= tds@);
    }
    while i < tds.len()
        invariant
            i <= tds@.len(),
            find_type(tds@, name@) == find_type(tds@.subrange(i as int, tds@.len() as int), name@),
        decreases tds.len() - i,
    {
        let ghost rest = tds@.subrange(i as int, tds@.len() as int);
        assert(rest[0] == tds@[i as int]);
        if str_eq(tds[i].object_type.as_str(), name) {
            return Some(&tds[i]);
        }
        assert(rest.drop_first() =~= tds@.subrange(i + 1, tds@.len() as int));
        i = i + 1;
    }
    None
}

fn type_def_equal(a: &TypeDefinition, b: &TypeDefinition) -> (r: bool)
    ensures
        r == type_def_equiv(*a, *b),
{
    if !str_eq(a.object_type.as_str(), b.object_type.as_str()) {
        return false;
    }
    if !objects_equal(&a.relations, &b.relations) {
        return false;
    }
    match (&a.metadata, &b.metadata) {
        (Some(x), Some(y)) => json_equal(x, y),
        (Some(x), None) => json_equal(x, &JsonValue::Null),
        (None, Some(y)) => json_equal(&JsonValue::Null, y),
        (None, None) => true,
    }
}

fn reported_name_exec(core: &Vec<TypeDefinition>, i: usize) -> (r: &str)
    requires
        i < core@.len(),
    ensures
        r@ == reported_name(core@[i as int], core@.subrange(i + 1, core@.len() as int)),
{
    let c = &core[i];
    if c.relations.len() > 0 {
        return c.object_type.as_str();
    }
    let n = core.len();
    let mut j: usize = i + 1;
    while j < n
        invariant
            i < j <= core@.len(),
            n == core@.len(),
            *c == core@[i as int],
            c.relations@.len() == 0,
            reported_name(*c, core@.subrange(i + 1, core@.len() as int)) == reported_name(
                *c,
                core@.subrange(j as int, core@.len() as int),
            ),
        decreases n - j,
    {
        let ghost rest = core@.subrange(j as int, core@.len() as int);
        assert(rest[0] == core@[j as int]);
        if core[j].relations.len() > 0 {
            return core[j].object_type.as_str();
        }
        assert(rest.drop_first() =~= core@.subrange(j + 1, core@.len() as int));
        j = j + 1;
    }
    c.object_type.as_str()
}

/// Checks that every sealed type of `sealed` stands unchanged in `model`:
/// the first sealed type, in order, that `model` lacks or changes is
/// reported.
pub fn validate_sealed_core(model: &AuthorizationModelWriteRequest, sealed: &AuthorizationModelWriteRequest) -> (r:
    Result<(), FgaError>)
    ensures
        match r {
            Ok(()) => sealed_error(model.type_definitions@, sealed.type_definitions@) is None,
            Err(e) => sealed_error(model.type_definitions@, sealed.type_definitions@) == Some(e@),
        },
{
    let tds = &model.type_definitions;
    let core = &sealed.type_definitions;
    let mut i: usize = 0;
    proof {
        assert(core@.subrange(0, core@.len() as int) =~= core@);
    }
    while i < core.len()
        invariant
            i <= core@.len(),
            tds@ == model.type_definitions@,
            core@ == sealed.type_definitions@,
            sealed_error(tds@, core@) == sealed_error(tds@, core@.subrange(i as int, core@.len() as int)),
        decreases core.len() - i,
    {
        let ghost rest = core@.subrange(i as int, core@.len() as int);
        assert(rest[0] == core@[i as int]);
        let c = &core[i];
        match find_type_exec(tds, c.object_type.as_str()) {
            None => {
                return Err(FgaError::BadRequest(concat3("sealed type ", c.object_type.as_str(), " is missing")));
            },
            Some(t) => {
                if !type_def_equal(t, c) {
                    assert(rest.drop_first() =~= core@.subrange(i + 1, core@.len() as int));
                    let name = reported_name_exec(core, i);
                    return Err(FgaError::BadRequest(concat3("sealed type ", name, " cannot be modified")));
                }
            },
        }
        assert(rest.drop_first() =~= core@.subrange(i + 1, core@.len() as int));
        i = i + 1;
    }
    Ok(())
}

/// Whether a type definition of `tds` is named `name`.
pub open spec fn names_type(tds: Seq<TypeDefinition>, name: Seq<char>) -> bool {
    exists|j: int| 0 <= j < tds.len() && (#[trigger] tds[j]).object_type@ == name
}

fn names_type_exec(tds: &Vec<TypeDefinition>, name: &str) -> (r: bool)
    ensures
        r == names_type(tds@, name@),
{
    let mut i: usize = 0;
    while i < tds.len()
        invariant
            i <= tds@.len(),
            forall|j: int| 0 <= j < i ==> (#[trigger] tds@[j]).object_type@ != name@,
        decreases tds.len() - i,
    {
        if str_eq(tds[i].object_type.as_str(), name) {
            return true;
        }
        i = i + 1;
    }
    false
}

/// The positions, ascending, of the type definitions of `request` that no
/// sealed type names: the custom part of the model.
pub open spec fn is_custom_positions(
    positions: Seq<usize>,
    tds: Seq<TypeDefinition>,
    sealed: Seq<TypeDefinition>,
) -> bool {
    &&& forall|k: int| 0 <= k < positions.len() ==> positions[k] < tds.len()
    &&& forall|k: int, l: int| 0 <= k < l < positions.len() ==> positions[k] < positions[l]
    &&& forall|i: int|
        0 <= i < tds.len() ==> (!names_type(sealed, (#[trigger] tds[i]).object_type@) <==> positions.contains(
            i as usize,
        ))
}

/// The positions of the type definitions of `request` that are not sealed
/// types.
pub fn custom_type_positions(request: &AuthorizationModelWriteRequest, sealed: &AuthorizationModelWriteRequest) -> (r: Vec<
    usize,
>)
    ensures
        is_custom_positions(r@, request.type_definitions@, sealed.type_definitions@),
{
    let tds = &request.type_definitions;
    let core = &sealed.type_definitions;
    let mut out: Vec<usize> = Vec::new();
    let mut i: usize = 0;
    while i < tds.len()
        invariant
            i <= tds@.len(),
            tds@ == request.type_definitions@,
            core@ == sealed.type_definitions@,
            forall|k: int| 0 <= k < out@.len() ==> out@[k] < i,
            forall|k: int, l: int| 0 <= k < l < out@.len() ==> out@[k] < out@[l],
            forall|j: int|
                0 <= j < i ==> (!names_type(core@, (#[trigger] tds@[j]).object_type@) <==> out@.contains(j as usize)),
        decreases tds.len() - i,
    {
        let ghost before = out@;
        if !names_type_exec(core, tds[i].object_type.as_str()) {
            out.push(i);
            proof {
                assert forall|j: int| 0 <= j < i implies (!names_type(core@, (#[trigger] tds@[j]).object_type@)
                    <==> out@.contains(j as usize)) by {
                    if before.contains(j as usize) {
                        let k = choose|k: int| 0 <= k < before.len() && before[k] == j as usize;
                        assert(out@[k] == before[k]);
                    }
                    if out@.contains(j as usize) {
                        let k = choose|k: int| 0 <= k < out@.len() && out@[k] == j as usize;
                        assert(k < before.len());
                        assert(before[k] == out@[k]);
                    }
                }
                assert(out@[before.len() as int] == i);
            }
        } else {
            proof {
                assert(!out@.contains(i));
            }
        }
        i = i + 1;
    }
    out
}

pub open spec fn platform_sealed_text() -> Seq<char> {
    "platform authorization model is sealed and cannot be customized"@
}

/// The checks a model write passes before it is stored: no conditions, a
/// model that compiles, the sealed types of `sealed` unchanged, and, on the
/// platform store, no custom types. Gives the compiled model and the
/// positions of the custom types.
pub fn plan_model_write(
    request: &AuthorizationModelWriteRequest,
    sealed: &AuthorizationModelWriteRequest,
    platform_store: bool,
) -> (r: Result<(CompiledModel, Vec<usize>), FgaError>)
    ensures
        request.conditions@.len() > 0 ==> (r matches Err(e) && e.is_unsupported(conditions_text())),
        request.conditions@.len() == 0 ==> match spec_compile(*request) {
            Err(ce) => r matches Err(e) && e@ == ce,
            Ok(m) => match sealed_error(request.type_definitions@, sealed.type_definitions@) {
                Some(se) => r matches Err(e) && e@ == se,
                None => match r {
                    Ok((cm, custom)) => cm@ == m && is_custom_positions(
                        custom@,
                        request.type_definitions@,
                        sealed.type_definitions@,
                    ) && !(platform_store && custom@.len() > 0),
                    Err(e) => platform_store && e@ == FgaErrorV::Forbidden(platform_sealed_text()) && exists|
                        custom: Seq<usize>,
                    |
                        is_custom_positions(custom, request.type_definitions@, sealed.type_definitions@)
                            && custom.len() > 0,
                },
            },
        },
{
    if request.conditions.len() > 0 {
        return Err(FgaError::Unsupported(str_to_string("conditions are not supported by the embedded v1 server")));
    }
    let compiled = match CompiledModel::from_request(request) {
        Ok(m) => m,
        Err(e) => {
            return Err(e);
        },
    };
    match validate_sealed_core(request, sealed) {
        Ok(()) => {},
        Err(e) => {
            return Err(e);
        },
    }
    let custom = custom_type_positions(request, sealed);
    if platform_store && custom.len() > 0 {
        return Err(
            FgaError::Forbidden(str_to_string("platform authorization model is sealed and cannot be customized")),
        );
    }
    Ok((compiled, custom))
}

pub open spec fn conditions_text() -> Seq<char> {
    "conditions are not supported by the embedded v1 server"@
}

/// No two type definitions share a name.
pub open spec fn distinct_names(tds: Seq<TypeDefinition>) -> bool {
    forall|i: int, j: int| 0 <= i < j < tds.len() ==> (#[trigger] tds[i]).object_type@ != (#[trigger] tds[j]).object_type@
}

proof fn lemma_find_type_at(tds: Seq<TypeDefinition>, k: int)
    requires
        0 <= k < tds.len(),
        forall|j: int| 0 <= j < k ==> (#[trigger] tds[j]).object_type@ != tds[k].object_type@,
    ensures
        find_type(tds, tds[k].object_type@) == Some(tds[k]),
    decreases k,
{
    if k > 0 {
        let rest = tds.drop_first();
        assert forall|j: int| 0 <= j < k - 1 implies (#[trigger] rest[j]).object_type@ != rest[k - 1].object_type@ by {
            assert(rest[j] == tds[j + 1]);
        }
        assert(tds[0].object_type@ != tds[k].object_type@);
        lemma_find_type_at(rest, k - 1);
    }
}

/// Every type definition is the same document as itself.
pub proof fn lemma_type_def_equiv_refl(t: TypeDefinition)
    ensures
        type_def_equiv(t, t),
{
    let xs = t.relations@;
    assert forall|j: int| 0 <= j < xs.len() implies crate::json::member(xs, (#[trigger] xs[j]).key@) is Some by {
        lemma_member_present(xs, j);
    }
    lemma_members_equiv_refl(xs, xs);
    lemma_json_equiv_refl(metadata_value(t.metadata));
}

/// A model with distinct type names passes the sealed check against
/// itself: carrying sealed types unchanged is never refused.
pub proof fn lemma_sealed_self(tds: Seq<TypeDefinition>)
    requires
        distinct_names(tds),
    ensures
        sealed_error(tds, tds) is None,
{
    lemma_sealed_suffix(tds, 0);
    assert(tds.subrange(0, tds.len() as int) =~= tds);
}

proof fn lemma_sealed_suffix(tds: Seq<TypeDefinition>, k: int)
    requires
        distinct_names(tds),
        0 <= k <= tds.len(),
    ensures
        sealed_error(tds, tds.subrange(k, tds.len() as int)) is None,
    decreases tds.len() - k,
{
    let rest = tds.subrange(k, tds.len() as int);
    if k < tds.len() {
        lemma_sealed_suffix(tds, k + 1);
        assert(rest[0] == tds[k]);
        assert forall|j: int| 0 <= j < k implies (#[trigger] tds[j]).object_type@ != tds[k].object_type@ by {}
        lemma_find_type_at(tds, k);
        lemma_type_def_equiv_refl(tds[k]);
        assert(rest.drop_first() =~= tds.subrange(k + 1, tds.len() as int));
    }
}

/// The core model passes the sealed check against itself: the model every
/// store starts with is accepted.
pub proof fn lemma_core_model_accepted(core: AuthorizationModelWriteRequest)
    requires
        core.type_definitions@.len() == core_types().len(),
        forall|i: int| 0 <= i < core_types().len() ==> type_def_is(#[trigger] core.type_definitions@[i], core_types()[i]),
    ensures
        sealed_error(core.type_definitions@, core.type_definitions@) is None,
{
    let tds = core.type_definitions@;
    lemma_core_names_distinct();
    assert forall|i: int, j: int| 0 <= i < j < tds.len() implies (#[trigger] tds[i]).object_type@ != (
    #[trigger] tds[j]).object_type@ by {
        assert(type_def_is(tds[i], core_types()[i]));
        assert(type_def_is(tds[j], core_types()[j]));
    }
    lemma_sealed_self(tds);
}

/// The names of the core types, in order.
pub open spec fn core_names() -> Seq<Seq<char>> {
    seq![
        "user"@,
        "principal"@,
        "instance"@,
        "org"@,
        "group"@,
        "project"@,
        "project_grant"@,
        "app"@,
        "settings"@,
        "session"@,
    ]
}

proof fn lemma_core_names_distinct()
    ensures
        forall|i: int, j: int|
            0 <= i < j < core_types().len() ==> (#[trigger] core_types()[i]).name != (#[trigger] core_types()[j]).name,
{
    let n = core_names();
    assert forall|k: int| 0 <= k < 10 implies (#[trigger] core_types()[k]).name == n[k] by {}
    reveal_strlit("user");
    reveal_strlit("principal");
    reveal_strlit("instance");
    reveal_strlit("org");
    reveal_strlit("group");
    reveal_strlit("project");
    reveal_strlit("project_grant");
    reveal_strlit("app");
    reveal_strlit("settings");
    reveal_strlit("session");
    let lens: Seq<int> = seq![4, 9, 8, 3, 5, 7, 13, 3, 8, 7];
    let firsts: Seq<char> = seq!['u', 'p', 'i', 'o', 'g', 'p', 'p', 'a', 's', 's'];
    assert forall|k: int| 0 <= k < 10 implies (#[trigger] n[k]).len() == lens[k] && n[k][0] == firsts[k] by {}
    assert forall|i: int, j: int| 0 <= i < j < 10 implies lens[i] != lens[j] || firsts[i] != firsts[j] by {}
    assert forall|i: int, j: int| 0 <= i < j < 10 implies (#[trigger] n[i]) != (#[trigger] n[j]) by {
        assert(n[i].len() == lens[i] && n[i][0] == firsts[i]);
        assert(n[j].len() == lens[j] && n[j][0] == firsts[j]);
    }
}

pub open spec fn fragment_schema_text(fragment: Seq<char>, core: Seq<char>) -> Seq<char> {
    "fragment schema_version "@ + fragment + " does not match core schema_version "@ + core
}

/// Merges a model fragment into `target`: its schema version must be that
/// of `target` and it may hold no conditions; its type definitions are
/// appended. On an error `target` is left as it was.
pub fn merge_model_fragment(target: &mut AuthorizationModelWriteRequest, fragment: AuthorizationModelWriteRequest) -> (r:
    Result<(), FgaError>)
    ensures
        fragment.schema_version@ != old(target).schema_version@ ==> (r matches Err(e) && e@ == FgaErrorV::BadRequest(
            fragment_schema_text(fragment.schema_version@, old(target).schema_version@),
        )),
        fragment.schema_version@ == old(target).schema_version@ && fragment.conditions@.len() > 0 ==> (r matches Err(
            e,
        ) && e.is_unsupported(conditions_text())),
        r is Err ==> final(target).type_definitions@ == old(target).type_definitions@,
        r is Ok <==> (fragment.schema_version@ == old(target).schema_version@ && fragment.conditions@.len() == 0),
        r is Ok ==> final(target).type_definitions@ == old(target).type_definitions@ + fragment.type_definitions@,
        final(target).schema_version == old(target).schema_version,
        final(target).conditions == old(target).conditions,
{
    if !str_eq(fragment.schema_version.as_str(), target.schema_version.as_str()) {
        let msg = concat4(
            "fragment schema_version ",
            fragment.schema_version.as_str(),
            " does not match core schema_version ",
            target.schema_version.as_str(),
        );
        return Err(FgaError::BadRequest(msg));
    }
    if fragment.conditions.len() > 0 {
        return Err(FgaError::Unsupported(str_to_string("conditions are not supported by the embedded v1 server")));
    }
    let mut types = fragment.type_definitions;
    target.type_definitions.append(&mut types);
    Ok(())
}

/// Why a fragment cannot be merged into a core-schema model, if it cannot.
pub open spec fn fragment_error(f: AuthorizationModelWriteRequest) -> Option<FgaErrorV> {
    if f.schema_version@ != "1.1"@ {
        Some(FgaErrorV::BadRequest(fragment_schema_text(f.schema_version@, "1.1"@)))
    } else if f.conditions@.len() > 0 {
        Some(FgaErrorV::Unsupported(conditions_text()))
    } else {
        None
    }
}

/// The error of the first fragment of `fs` that cannot be merged.
pub open spec fn first_fragment_error(fs: Seq<AuthorizationModelWriteRequest>) -> Option<FgaErrorV>
    decreases fs.len(),
{
    if fs.len() == 0 {
        None
    } else {
        match fragment_error(fs[0]) {
            Some(e) => Some(e),
            None => first_fragment_error(fs.drop_first()),
        }
    }
}

/// The model of an instance rebuilt from what was stored of it: the core
/// model, then each module fragment, then the custom fragment, each merged
/// in turn; the first fragment that cannot be merged gives the error.
pub fn rebuild_model_from_fragments(
    modules: Vec<AuthorizationModelWriteRequest>,
    custom: AuthorizationModelWriteRequest,
) -> (r: Result<AuthorizationModelWriteRequest, FgaError>)
    ensures
        match first_fragment_error(modules@.push(custom)) {
            Some(fe) => r matches Err(e) && e@ == fe,
            None => r matches Ok(m) && m.schema_version@ == "1.1"@ && m.conditions@.len() == 0
                && m.type_definitions@.len() == core_types().len() + fragment_types(modules@).len()
                + custom.type_definitions@.len() && (forall|i: int|
                0 <= i < core_types().len() ==> type_def_is(#[trigger] m.type_definitions@[i], core_types()[i]))
                && m.type_definitions@.subrange(core_types().len() as int, m.type_definitions@.len() as int)
                == fragment_types(modules@) + custom.type_definitions@,
        },
{
    let mut rebuilt = core_authorization_model();
    let ghost core_tds = rebuilt.type_definitions@;
    let ghost all = modules@;
    let ghost n = all.len();
    let mut rest = modules;
    let ghost mut k: int = 0;
    proof {
        assert(all.subrange(0, 0) =~= Seq::<AuthorizationModelWriteRequest>::empty());
        assert(rebuilt.type_definitions@ =~= core_tds + fragment_types(all.subrange(0, 0)));
        assert(all.subrange(0, n as int).push(custom) =~= all.push(custom));
    }
    while rest.len() > 0
        invariant
            0 <= k <= n,
            n == all.len(),
            all == modules@,
            rest@ == all.subrange(k, n as int),
            rebuilt.schema_version@ == "1.1"@,
            rebuilt.conditions@.len() == 0,
            core_tds.len() == core_types().len(),
            forall|i: int| 0 <= i < core_types().len() ==> type_def_is(#[trigger] core_tds[i], core_types()[i]),
            rebuilt.type_definitions@ == core_tds + fragment_types(all.subrange(0, k)),
            first_fragment_error(all.push(custom)) == first_fragment_error(all.subrange(k, n as int).push(custom)),
        decreases rest.len(),
    {
        let f = rest.remove(0);
        let ghost tail = all.subrange(k, n as int).push(custom);
        proof {
            assert(f == all[k]);
            assert(tail[0] == f);
            assert(tail.drop_first() =~= all.subrange(k + 1, n as int).push(custom));
        }
        match merge_model_fragment(&mut rebuilt, f) {
            Ok(()) => {},
            Err(e) => {
                return Err(e);
            },
        }
        proof {
            let p = all.subrange(0, k + 1);
            assert(p.drop_last() =~= all.subrange(0, k));
            assert(p.last() == all[k]);
            assert(rebuilt.type_definitions@ =~= core_tds + fragment_types(p));
            k = k + 1;
            assert(rest@ =~= all.subrange(k, n as int));
        }
    }
    proof {
        assert(all.subrange(0, k) =~= all);
        let tail = all.subrange(k, n as int).push(custom);
        assert(tail[0] == custom);
        assert(tail.drop_first().len() == 0);
    }
    match merge_model_fragment(&mut rebuilt, custom) {
        Ok(()) => {},
        Err(e) => {
            return Err(e);
        },
    }
    proof {
        let tail = all.subrange(k, n as int).push(custom);
        assert(fragment_error(custom) is None);
        assert(tail.drop_first() =~= Seq::<AuthorizationModelWriteRequest>::empty());
        assert(first_fragment_error(tail.drop_first()) is None);
        assert(first_fragment_error(tail) is None);
        let m = rebuilt.type_definitions@;
        assert(m.subrange(core_types().len() as int, m.len() as int) =~= fragment_types(all) + custom.type_definitions@);
        assert forall|i: int| 0 <= i < core_types().len() implies type_def_is(#[trigger] m[i], core_types()[i]) by {
            assert(m[i] == core_tds[i]);
        }
    }
    Ok(rebuilt)
}

/// The type definitions of the fragments, in order.
pub open spec fn fragment_types(fs: Seq<AuthorizationModelWriteRequest>) -> Seq<TypeDefinition>
    decreases fs.len(),
{
    if fs.len() == 0 {
        Seq::empty()
    } else {
        fragment_types(fs.drop_last()) + fs.last().type_definitions@
    }
}

/// The version of the core model that stores are brought to.
pub open spec fn core_model_version() -> Seq<char> {
    "core-2026-04-05-root-hierarchy-v1"@
}

/// What is stored of a store's active model besides the model itself.
#[derive(Debug)]
pub struct StoredFragments {
    pub core_model_version: String,
    pub custom_model: String,
    pub module_fragments: String,
}

/// The next step in bringing a store's active model to the current core.
#[derive(Clone, Copy, Debug, PartialEq, Eq, Structural)]
pub enum DefaultModelStep {
    /// Nothing to do.
    Done,
    /// The stored model is current; it is read into the cache.
    LoadIntoCache,
    /// The model is rebuilt from its fragments on the current core.
    RebuildFromFragments,
    /// The core model is written as the active model.
    PersistCore,
}

/// The step for a store: `cached` is the core version of the cached active
/// model, if one is cached; `fragments` what is stored of the active model.
/// The platform store holds the bare core: anything else there is replaced
/// by it. Other stores keep their custom and module fragments and have them
/// rebuilt on a newer core.
pub open spec fn spec_default_model_step(
    platform_store: bool,
    cached: Option<Seq<char>>,
    fragments: Option<(Seq<char>, Seq<char>, Seq<char>)>,
) -> DefaultModelStep {
    if platform_store {
        match fragments {
            Some((v, custom, modules)) => if v == core_model_version() && custom == "{}"@ && modules == "[]"@ {
                if cached is None {
                    DefaultModelStep::LoadIntoCache
                } else {
                    DefaultModelStep::Done
                }
            } else {
                DefaultModelStep::PersistCore
            },
            None => DefaultModelStep::PersistCore,
        }
    } else if cached == Some(core_model_version()) {
        DefaultModelStep::Done
    } else {
        match fragments {
            Some((v, _, _)) => if v == core_model_version() {
                if cached is None {
                    DefaultModelStep::LoadIntoCache
                } else {
                    DefaultModelStep::Done
                }
            } else {
                DefaultModelStep::RebuildFromFragments
            },
            None => DefaultModelStep::PersistCore,
        }
    }
}

/// The next step in bringing a store's active model to the current core.
pub fn default_model_step(platform_store: bool, cached: Option<&str>, fragments: Option<&StoredFragments>) -> (r:
    DefaultModelStep)
    ensures
        r == spec_default_model_step(
            platform_store,
            match cached {
                Some(c) => Some(c@),
                None => None,
            },
            match fragments {
                Some(f) => Some((f.core_model_version@, f.custom_model@, f.module_fragments@)),
                None => None,
            },
        ),
{
    let current = "core-2026-04-05-root-hierarchy-v1";
    if platform_store {
        return match fragments {
            Some(f) => {
                if str_eq(f.core_model_version.as_str(), current) && str_eq(f.custom_model.as_str(), "{}") && str_eq(
                    f.module_fragments.as_str(),
                    "[]",
                ) {
                    if cached.is_none() {
                        DefaultModelStep::LoadIntoCache
                    } else {
                        DefaultModelStep::Done
                    }
                } else {
                    DefaultModelStep::PersistCore
                }
            },
            None => DefaultModelStep::PersistCore,
        };
    }
    if let Some(c) = cached {
        if str_eq(c, current) {
            return DefaultModelStep::Done;
        }
    }
    match fragments {
        Some(f) => {
            if str_eq(f.core_model_version.as_str(), current) {
                if cached.is_none() {
                    DefaultModelStep::LoadIntoCache
                } else {
                    DefaultModelStep::Done
                }
            } else {
                DefaultModelStep::RebuildFromFragments
            }
        },
        None => DefaultModelStep::PersistCore,
    }
}

} // verus!
