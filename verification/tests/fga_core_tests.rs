use zitadel_core::fga_models::ModelStore;
use zitadel_core::fga_core::{
    core_authorization_model, default_model_step, DefaultModelStep, StoredFragments, merge_model_fragment, plan_model_write, rebuild_model_from_fragments,
    simple_direct_type, validate_sealed_core,
};
use zitadel_core::fga_dto::{require_store, StoreInfo, BatchCheckResult, CheckRequest, ExpandRequest, ListObjectsRequest, ListUsersRequest, UserFilter};
use zitadel_core::fga_eval::evaluate_check;
use zitadel_core::fga_expand::evaluate_expand;
use zitadel_core::fga_model::{AuthorizationModelWriteRequest, CompiledModel, TypeDefinition};
use zitadel_core::fga_platform::{
    allowed_ids, assignment_tuple, batch_filter_checks, binding_tuple, child_tuples, legacy_org_catalog_relation,
    legacy_parent_instance_catalog_relation, managed_tuple_diff, membership_tuples, projected_child_relation,
    tuple_identity, ChildOwnership, OrgMembership, PlatformWalk,
};
use zitadel_core::fga_plan::plan_objects;
use zitadel_core::fga_query::{legacy_model, legacy_model_graph, list_objects, list_users, LIST_SCAN_FALLBACK_LIMIT};
use zitadel_core::fga_refs::{FgaError, ParsedTupleKey, TupleKey};
use zitadel_core::json::{json_equal, JsonMember, JsonValue};

fn obj(members: Vec<(&str, JsonValue)>) -> JsonValue {
    JsonValue::Object(members.into_iter().map(|(k, v)| JsonMember { key: k.to_string(), value: v }).collect())
}

fn this() -> JsonValue {
    obj(vec![("this", obj(vec![]))])
}

fn key(user: &str, relation: &str, object: &str) -> TupleKey {
    TupleKey { user: user.to_string(), relation: relation.to_string(), object: object.to_string(), condition: None }
}

fn parsed(user: &str, relation: &str, object: &str) -> ParsedTupleKey {
    ParsedTupleKey::parse(key(user, relation, object)).unwrap()
}

fn core_compiled() -> CompiledModel {
    CompiledModel::from_request(&core_authorization_model()).unwrap()
}

fn check(m: &CompiledModel, stored: &Vec<ParsedTupleKey>, user: &str, relation: &str, object: &str) -> bool {
    evaluate_check(
        m,
        stored,
        CheckRequest { tuple_key: key(user, relation, object), authorization_model_id: None, contextual_tuples: None, context: None },
        25,
    )
    .unwrap()
    .allowed
}

fn triples(v: &[TupleKey]) -> Vec<(String, String, String)> {
    v.iter().map(|t| (t.user.clone(), t.relation.clone(), t.object.clone())).collect()
}

fn t3(a: &str, b: &str, c: &str) -> (String, String, String) {
    (a.to_string(), b.to_string(), c.to_string())
}

#[test]
fn list_objects_uses_planned_candidates_for_core_union_relations() {
    let model = core_compiled();
    let stored = vec![parsed("user:anne", "admin", "org:engineering"), parsed("user:anne", "member", "org:ops")];
    let response = list_objects(
        &model,
        &stored,
        ListObjectsRequest {
            user: "user:anne".into(),
            relation: "member".into(),
            object_type: "org".into(),
            authorization_model_id: None,
            contextual_tuples: None,
        },
        25,
    )
    .unwrap();
    assert_eq!(response.objects, vec!["org:engineering".to_string(), "org:ops".to_string()]);
}

#[test]
fn list_users_uses_planned_candidates_for_core_union_relations() {
    let model = core_compiled();
    let stored = vec![
        parsed("user:owner", "owner", "org:acme"),
        parsed("user:admin", "admin", "org:acme"),
        parsed("user:member", "member", "org:acme"),
        parsed("user:viewer", "viewer", "org:acme"),
    ];
    let response = list_users(
        &model,
        &stored,
        ListUsersRequest {
            object: "org:acme".into(),
            relation: "viewer".into(),
            user_filters: vec![UserFilter { user_type: "user".into(), relation: None }],
            authorization_model_id: None,
            contextual_tuples: None,
        },
        25,
    )
    .unwrap();
    assert_eq!(
        response.users,
        vec!["user:admin".to_string(), "user:member".to_string(), "user:owner".to_string(), "user:viewer".to_string()]
    );
}

#[test]
fn list_objects_scan_fallback_is_bounded() {
    let mut request = core_authorization_model();
    request.type_definitions.push(TypeDefinition {
        object_type: "document".into(),
        relations: vec![JsonMember { key: "viewer".into(), value: this() }],
        metadata: None,
    });
    let model = CompiledModel::from_request(&request).unwrap();
    let mut stored = Vec::new();
    for idx in 0..=LIST_SCAN_FALLBACK_LIMIT {
        stored.push(parsed("user:anne", "viewer", &format!("document:doc-{idx}")));
    }
    let err = list_objects(
        &model,
        &stored,
        ListObjectsRequest {
            user: "user:anne".into(),
            relation: "viewer".into(),
            object_type: "document".into(),
            authorization_model_id: None,
            contextual_tuples: None,
        },
        25,
    )
    .unwrap_err();
    assert!(matches!(err, FgaError::Unsupported(_)));
    assert!(err.message().contains("list operation exceeds embedded planner budget"));
}

#[test]
fn core_model_lists_the_sealed_types_in_order() {
    let core = core_authorization_model();
    assert_eq!(core.schema_version, "1.1");
    let names: Vec<&str> = core.type_definitions.iter().map(|t| t.object_type.as_str()).collect();
    assert_eq!(
        names,
        vec!["user", "principal", "instance", "org", "group", "project", "project_grant", "app", "settings", "session"]
    );
    let instance = &core.type_definitions[2];
    assert_eq!(instance.relations.len(), 18);
    assert_eq!(instance.relations[1].key, "admin");
    let model = core_compiled();
    let stored = vec![parsed("user:anne", "owner", "instance:root")];
    assert!(check(&model, &stored, "user:anne", "viewer", "instance:root"));
    assert!(!check(&model, &stored, "user:anne", "iam_owner", "instance:root"));
}

#[test]
fn simple_direct_types_admit_users_and_principals() {
    let t = simple_direct_type("app", &["admin", "viewer"]);
    assert_eq!(t.object_type, "app");
    assert_eq!(t.relations.len(), 2);
    assert!(json_equal(&t.relations[0].value, &this()));
    let model = CompiledModel::from_request(&AuthorizationModelWriteRequest {
        schema_version: "1.1".into(),
        type_definitions: vec![simple_direct_type("user", &[]), simple_direct_type("principal", &[]), t],
        conditions: vec![],
    })
    .unwrap();
    assert!(model.validate_tuple(&parsed("principal:svc", "viewer", "app:console")).is_ok());
    assert!(model.validate_tuple(&parsed("app:other", "viewer", "app:console")).is_err());
}

#[test]
fn unchanged_core_passes_the_sealed_check() {
    let core = core_authorization_model();
    let mut model = core_authorization_model();
    model.type_definitions.reverse();
    assert!(validate_sealed_core(&model, &core).is_ok());
}

#[test]
fn sealed_core_mutation_is_rejected() {
    let core = core_authorization_model();
    let mut model = core_authorization_model();
    model.type_definitions[2].relations.push(JsonMember { key: "superadmin".into(), value: this() });
    let err = validate_sealed_core(&model, &core).unwrap_err();
    assert_eq!(err.message(), "sealed type instance cannot be modified");

    let mut org = core_authorization_model();
    org.type_definitions[3].relations.push(JsonMember { key: "superadmin".into(), value: this() });
    let err = validate_sealed_core(&org, &core).unwrap_err();
    assert_eq!(err.message(), "sealed type org cannot be modified");

    let mut missing = core_authorization_model();
    missing.type_definitions.remove(3);
    let err = validate_sealed_core(&missing, &core).unwrap_err();
    assert_eq!(err.message(), "sealed type org is missing");
}

#[test]
fn model_writes_are_planned() {
    let core = core_authorization_model();
    let mut custom = core_authorization_model();
    custom.type_definitions.push(TypeDefinition {
        object_type: "document".into(),
        relations: vec![JsonMember { key: "viewer".into(), value: this() }],
        metadata: None,
    });
    let (_, positions) = plan_model_write(&custom, &core, false).unwrap();
    assert_eq!(positions, vec![10]);
    let err = plan_model_write(&custom, &core, true).unwrap_err();
    assert!(matches!(err, FgaError::Forbidden(_)));
    assert_eq!(err.message(), "platform authorization model is sealed and cannot be customized");
    let (_, none) = plan_model_write(&core_authorization_model(), &core, true).unwrap();
    assert!(none.is_empty());

    let mut conditional = core_authorization_model();
    conditional.conditions.push(JsonMember { key: "c".into(), value: obj(vec![]) });
    let err = plan_model_write(&conditional, &core, false).unwrap_err();
    assert!(matches!(err, FgaError::Unsupported(_)));
}

#[test]
fn fragments_merge_and_rebuild() {
    let mut target = core_authorization_model();
    let wrong = AuthorizationModelWriteRequest { schema_version: "1.0".into(), type_definitions: vec![], conditions: vec![] };
    let err = merge_model_fragment(&mut target, wrong).unwrap_err();
    assert_eq!(err.message(), "fragment schema_version 1.0 does not match core schema_version 1.1");
    assert_eq!(target.type_definitions.len(), 10);

    let module = AuthorizationModelWriteRequest {
        schema_version: "1.1".into(),
        type_definitions: vec![simple_direct_type("report", &["reader"])],
        conditions: vec![],
    };
    let custom = AuthorizationModelWriteRequest {
        schema_version: "1.1".into(),
        type_definitions: vec![simple_direct_type("document", &["viewer"])],
        conditions: vec![],
    };
    let rebuilt = rebuild_model_from_fragments(vec![module], custom).unwrap();
    let names: Vec<&str> = rebuilt.type_definitions.iter().map(|t| t.object_type.as_str()).collect();
    assert_eq!(names.len(), 12);
    assert_eq!(names[10], "report");
    assert_eq!(names[11], "document");
}

#[test]
fn expand_unfolds_core_union_relations() {
    let model = core_compiled();
    let stored = vec![parsed("user:anne", "owner", "org:acme"), parsed("user:bob", "admin", "org:acme")];
    let response = evaluate_expand(
        &model,
        &stored,
        ExpandRequest { object: "org:acme".into(), relation: "admin".into(), authorization_model_id: None, contextual_tuples: None },
        25,
    )
    .unwrap();
    let tree = response.tree;
    assert_eq!(tree.name, "org:acme#admin");
    assert!(tree.users.is_empty());
    assert_eq!(tree.children.len(), 2);
    assert_eq!(tree.children[0].name, "org:acme#admin");
    assert_eq!(tree.children[0].users, vec!["user:bob".to_string()]);
    assert_eq!(tree.children[1].children[0].name, "org:acme#owner");
    assert_eq!(tree.children[1].children[0].users, vec!["user:anne".to_string()]);

    let limited = evaluate_expand(
        &model,
        &stored,
        ExpandRequest { object: "org:acme".into(), relation: "owner".into(), authorization_model_id: None, contextual_tuples: None },
        0,
    )
    .unwrap();
    assert_eq!(limited.tree.users, vec!["user:anne".to_string()]);

    let err = evaluate_expand(
        &model,
        &stored,
        ExpandRequest { object: "org:acme".into(), relation: "nope".into(), authorization_model_id: None, contextual_tuples: None },
        25,
    )
    .unwrap_err();
    assert!(matches!(err, FgaError::BadRequest(_)));
}

#[test]
fn legacy_model_lists_sorted_relation_names() {
    let response = legacy_model(&core_authorization_model());
    assert_eq!(response.schema_version, "1.1");
    assert_eq!(response.types.len(), 10);
    assert_eq!(response.types[3].name, "org");
    assert_eq!(response.types[3].relations[0], "admin");
    assert_eq!(response.types[3].relations[1], "member");
    assert!(response.types[0].relations.is_empty());
}

#[test]
fn legacy_roles_map_to_catalog_relations() {
    assert_eq!(legacy_org_catalog_relation("admin"), Some("org_owner"));
    assert_eq!(legacy_org_catalog_relation("viewer"), Some("org_owner_viewer"));
    assert_eq!(legacy_org_catalog_relation("member"), None);
    assert_eq!(legacy_parent_instance_catalog_relation("owner"), Some("iam_owner"));
    assert_eq!(legacy_parent_instance_catalog_relation("member"), None);
    assert_eq!(projected_child_relation("ORG_USER_MANAGER"), Some("iam_user_manager"));
    assert_eq!(projected_child_relation("PROJECT_OWNER"), None);
}

#[test]
fn membership_and_child_tuples() {
    let children = vec![
        ChildOwnership { instance_id: "child-a".into(), owner_org_id: "acme".into() },
        ChildOwnership { instance_id: "child-b".into(), owner_org_id: "other".into() },
    ];
    let m = OrgMembership { user_id: "u1".into(), org_id: "acme".into(), role: "owner".into() };
    assert_eq!(
        triples(&membership_tuples("root", &m, &children)),
        vec![
            t3("user:u1", "owner", "org:acme"),
            t3("user:u1", "org_owner", "org:acme"),
            t3("user:u1", "iam_owner", "instance:root"),
            t3("user:u1", "iam_owner", "instance:child-a"),
        ]
    );
    let member = OrgMembership { user_id: "u2".into(), org_id: "acme".into(), role: "member".into() };
    assert_eq!(triples(&membership_tuples("root", &member, &children)), vec![t3("user:u2", "member", "org:acme")]);
    let unknown = OrgMembership { user_id: "u3".into(), org_id: "acme".into(), role: "guest".into() };
    assert!(membership_tuples("root", &unknown, &children).is_empty());
    assert_eq!(
        triples(&child_tuples("root", &children[0])),
        vec![
            t3("instance:root", "parent", "instance:child-a"),
            t3("org:acme#owner", "owner", "instance:child-a"),
            t3("org:acme#admin", "admin", "instance:child-a"),
            t3("org:acme#viewer", "viewer", "instance:child-a"),
        ]
    );
}

#[test]
fn expired_assignments_and_unprojected_bindings_add_nothing() {
    let t = assignment_tuple("user:u1", "project_owner", "project", "p1", Some("2030-01-01T00:00:00Z"), "2025-01-01T00:00:00Z");
    assert_eq!(triples(&[t.unwrap()]), vec![t3("user:u1", "project_owner", "project:p1")]);
    assert!(assignment_tuple("user:u1", "project_owner", "project", "p1", Some("2025-01-01T00:00:00Z"), "2025-01-01T00:00:00Z")
        .is_none());
    assert!(assignment_tuple("user:u1", "r", "org", "o", None, "2025-01-01T00:00:00Z").is_some());
    let b = binding_tuple("user:u1", "ORG_OWNER_VIEWER", "child-a").unwrap();
    assert_eq!(triples(&[b]), vec![t3("user:u1", "iam_owner_viewer", "instance:child-a")]);
    assert!(binding_tuple("user:u1", "ORG_PROJECT_CREATOR", "child-a").is_none());
}

#[test]
fn root_org_owner_administers_child_instance_through_platform_tuples() {
    let mut walk = PlatformWalk::new("root");
    let mut visited = Vec::new();
    while let Some(parent) = walk.next_parent() {
        let (memberships, children) = if parent == "root" {
            (
                vec![OrgMembership { user_id: "root-user".into(), org_id: "default".into(), role: "owner".into() }],
                vec![ChildOwnership { instance_id: "child-a".into(), owner_org_id: "default".into() }],
            )
        } else {
            (vec![], vec![ChildOwnership { instance_id: "root".into(), owner_org_id: "default".into() }])
        };
        walk.visit(&parent, &memberships, &children);
        visited.push(parent);
    }
    assert_eq!(visited, vec!["root".to_string(), "child-a".to_string()]);
    assert_eq!(walk.child_ownerships.len(), 2);
    walk.add_binding("user:ops", "ORG_USER_MANAGER", "child-a");
    walk.add_assignment("user:u9", "iam_owner", "instance", "child-a", Some("2000-01-01T00:00:00Z"), "2025-01-01T00:00:00Z");
    let model = core_compiled();
    let stored: Vec<ParsedTupleKey> =
        walk.tuples.iter().map(|t| parsed(&t.user, &t.relation, &t.object)).collect();
    assert!(check(&model, &stored, "user:root-user", "admin", "instance:child-a"));
    assert!(check(&model, &stored, "user:ops", "iam_user_manager", "instance:child-a"));
    assert!(!check(&model, &stored, "user:u9", "iam_owner", "instance:child-a"));
    assert!(!check(&model, &stored, "user:someone", "admin", "instance:child-a"));
}

#[test]
fn managed_diff_writes_missing_and_deletes_stale_tuples() {
    let desired = vec![key("user:a", "owner", "org:x"), key("user:b", "owner", "org:x")];
    let current = vec![key("user:b", "owner", "org:x"), key("user:c", "owner", "org:x")];
    let (writes, deletes) = managed_tuple_diff(desired, current);
    assert_eq!(triples(&writes), vec![t3("user:a", "owner", "org:x")]);
    assert_eq!(triples(&deletes), vec![t3("user:c", "owner", "org:x")]);
    assert_eq!(tuple_identity(&key("user:a", "owner", "org:x")), "user:a|owner|org:x");
}

#[test]
fn batch_filter_keeps_allowed_ids_in_result_order() {
    let ids = vec!["a".to_string(), "b".to_string(), "c".to_string()];
    let checks = batch_filter_checks("user:u", "viewer", "project", &ids);
    assert_eq!(checks.len(), 3);
    assert_eq!(checks[2].tuple_key.object, "project:c");
    assert_eq!(checks[2].correlation_id.as_deref(), Some("2"));
    let results = vec![
        BatchCheckResult { correlation_id: Some("2".into()), allowed: true },
        BatchCheckResult { correlation_id: Some("0".into()), allowed: false },
        BatchCheckResult { correlation_id: Some("1".into()), allowed: true },
        BatchCheckResult { correlation_id: Some("7".into()), allowed: true },
        BatchCheckResult { correlation_id: None, allowed: true },
    ];
    assert_eq!(allowed_ids(&results, &ids), vec!["c".to_string(), "b".to_string()]);
}

#[test]
fn json_documents_compare_as_maps() {
    let a = obj(vec![("x", JsonValue::Number("1".into())), ("y", JsonValue::Array(vec![JsonValue::Null]))]);
    let b = obj(vec![("y", JsonValue::Array(vec![JsonValue::Null])), ("x", JsonValue::Number("1".into()))]);
    let c = obj(vec![("x", JsonValue::Number("2".into())), ("y", JsonValue::Array(vec![JsonValue::Null]))]);
    assert!(json_equal(&a, &b));
    assert!(!json_equal(&a, &c));
    assert!(!json_equal(&a, &obj(vec![("x", JsonValue::Number("1".into()))])));
}

#[test]
fn planner_follows_declared_usersets_and_detects_scans() {
    let core = core_compiled();
    let empty: Vec<(String, String)> = Vec::new();
    assert_eq!(plan_objects(&core, &empty, "org", "member").unwrap(), true);
    assert_eq!(plan_objects(&core, &empty, "instance", "admin").unwrap(), true);
    assert!(plan_objects(&core, &empty, "org", "nope").is_err());
    let on_path = vec![("org".to_string(), "member".to_string())];
    assert_eq!(plan_objects(&core, &on_path, "org", "member").unwrap(), false);

    let mut request = core_authorization_model();
    request.type_definitions.push(TypeDefinition {
        object_type: "document".into(),
        relations: vec![JsonMember { key: "viewer".into(), value: this() }],
        metadata: None,
    });
    let model = CompiledModel::from_request(&request).unwrap();
    assert_eq!(plan_objects(&model, &empty, "document", "viewer").unwrap(), false);
}

#[test]
fn list_users_scan_fallback_is_bounded() {
    let model = core_compiled();
    let mut stored = vec![parsed("group:a#member", "member", "group:a")];
    for idx in 0..=LIST_SCAN_FALLBACK_LIMIT {
        stored.push(parsed(&format!("user:u{idx}"), "member", "group:a"));
    }
    let err = list_users(
        &model,
        &stored,
        ListUsersRequest {
            object: "group:a".into(),
            relation: "member".into(),
            user_filters: vec![UserFilter { user_type: "user".into(), relation: None }],
            authorization_model_id: None,
            contextual_tuples: None,
        },
        25,
    )
    .unwrap_err();
    assert!(matches!(err, FgaError::Unsupported(_)));
    assert_eq!(err.message(), "list operation exceeds embedded planner budget");

    let few = vec![parsed("group:a#member", "member", "group:a"), parsed("user:u1", "member", "group:a")];
    let response = list_users(
        &model,
        &few,
        ListUsersRequest {
            object: "group:a".into(),
            relation: "member".into(),
            user_filters: vec![UserFilter { user_type: "user".into(), relation: None }],
            authorization_model_id: None,
            contextual_tuples: None,
        },
        25,
    )
    .unwrap();
    assert_eq!(response.users, vec!["user:u1".to_string()]);
}

#[test]
fn default_model_steps_follow_the_stored_core_version() {
    let current = "core-2026-04-05-root-hierarchy-v1";
    let stale = StoredFragments {
        core_model_version: "core-old".into(),
        custom_model: "{}".into(),
        module_fragments: "[]".into(),
    };
    let fresh = StoredFragments {
        core_model_version: current.into(),
        custom_model: "{\"schema_version\":\"1.1\"}".into(),
        module_fragments: "[]".into(),
    };
    assert_eq!(default_model_step(false, Some(current), Some(&stale)), DefaultModelStep::Done);
    assert_eq!(default_model_step(false, None, Some(&stale)), DefaultModelStep::RebuildFromFragments);
    assert_eq!(default_model_step(false, None, Some(&fresh)), DefaultModelStep::LoadIntoCache);
    assert_eq!(default_model_step(false, Some("core-old"), Some(&fresh)), DefaultModelStep::Done);
    assert_eq!(default_model_step(false, None, None), DefaultModelStep::PersistCore);
    assert_eq!(default_model_step(true, None, Some(&fresh)), DefaultModelStep::PersistCore);
    let bare = StoredFragments { core_model_version: current.into(), custom_model: "{}".into(), module_fragments: "[]".into() };
    assert_eq!(default_model_step(true, None, Some(&bare)), DefaultModelStep::LoadIntoCache);
    assert_eq!(default_model_step(true, Some(current), Some(&bare)), DefaultModelStep::Done);
}

#[test]
fn stores_are_found_only_by_their_id() {
    let found = require_store(Some(StoreInfo { id: "s1".into(), name: "default".into() }), "s1").unwrap();
    assert_eq!(found.name, "default");
    let err = require_store(Some(StoreInfo { id: "s1".into(), name: "default".into() }), "s2").unwrap_err();
    assert_eq!(err.message(), "store s2 not found");
    assert!(matches!(require_store(None, "s1"), Err(FgaError::NotFound(_))));
}

#[test]
fn legacy_model_graph_sorts_nodes_and_rewrites() {
    let graph = legacy_model_graph(&core_compiled());
    let ids: Vec<&str> = graph.nodes.iter().map(|n| n.id.as_str()).collect();
    assert_eq!(
        ids,
        vec!["app", "group", "instance", "org", "principal", "project", "project_grant", "session", "settings", "user"]
    );
    let org = graph.nodes.iter().find(|n| n.id == "org").unwrap();
    let mut permissions = org.permissions.clone();
    permissions.sort();
    assert_eq!(permissions, vec!["admin".to_string(), "member".to_string(), "viewer".to_string()]);
    let edges: Vec<(String, String, String)> =
        graph.edges.iter().map(|e| (e.from.clone(), e.relation.clone(), e.kind.clone())).collect();
    assert_eq!(
        edges,
        vec![
            ("instance".to_string(), "admin -> owner".to_string(), "computed_userset".to_string()),
            ("instance".to_string(), "viewer -> admin".to_string(), "computed_userset".to_string()),
            ("org".to_string(), "admin -> owner".to_string(), "computed_userset".to_string()),
            ("org".to_string(), "member -> admin".to_string(), "computed_userset".to_string()),
            ("org".to_string(), "viewer -> member".to_string(), "computed_userset".to_string()),
        ]
    );
}

#[test]
fn rejects_sealed_core_mutation() {
    let core = core_authorization_model();
    let mut model = core_authorization_model();
    model.type_definitions[1].relations.push(JsonMember { key: "superadmin".into(), value: this() });
    let err = plan_model_write(&model, &core, false).unwrap_err();
    assert!(err.message().contains("sealed type instance"));
}

#[test]
fn model_store_keeps_one_active_model_per_store() {
    let core = core_authorization_model();
    let mut models = ModelStore::new();
    models
        .write_model("inst", "store-1", "m1".into(), "t1".into(), core_authorization_model(), &core, false)
        .unwrap();
    models
        .write_model("inst", "store-2", "m2".into(), "t1".into(), core_authorization_model(), &core, false)
        .unwrap();
    let mut custom = core_authorization_model();
    custom.type_definitions.push(simple_direct_type("report", &["reader"]));
    models.write_model("inst", "store-1", "m3".into(), "t2".into(), custom, &core, false).unwrap();
    let active = models.find("inst", "store-1", None).unwrap();
    assert_eq!(models.rows[active].model_id, "m3");
    let older = models.find("inst", "store-1", Some("m1")).unwrap();
    assert!(!models.rows[older].active);
    let other = models.find("inst", "store-2", None).unwrap();
    assert_eq!(models.rows[other].model_id, "m2");
    assert!(models.find("inst", "store-3", None).is_none());

    let mut mutated = core_authorization_model();
    mutated.type_definitions[1].relations.push(JsonMember { key: "superadmin".into(), value: this() });
    let err = models.write_model("inst", "store-1", "m4".into(), "t3".into(), mutated, &core, false).unwrap_err();
    assert!(err.message().contains("sealed type instance"));
    let still = models.find("inst", "store-1", None).unwrap();
    assert_eq!(models.rows[still].model_id, "m3");
    assert_eq!(models.rows.len(), 3);
}
