use zitadel_core::fga_dto::{CheckRequest, ContextualTuples, BatchCheckItem, BatchCheckRequest};
use zitadel_core::fga_eval::{evaluate_batch_check, evaluate_check, DenyReason, EvalOutcome, Evaluator};
use zitadel_core::fga_expr::{parse_relation_expr, RelationExpr};
use zitadel_core::fga_model::{
    parse_relation_metadata, AuthorizationModelWriteRequest, CompiledModel, ListPlan, TypeDefinition,
};
use zitadel_core::fga_refs::{stored_user_from_parts, FgaError, ObjectRef, ParsedTupleKey, TupleKey, UserRef};
use zitadel_core::fga_store::{
    decode_offset, plan_write, validate_duplicate_request_tuples, ReadRequest, TupleFilter, TupleKeySet, TupleStore,
    WriteRequest,
};
use zitadel_core::json::{JsonMember, JsonValue};

fn s(v: &str) -> JsonValue {
    JsonValue::Str(v.to_string())
}

fn obj(members: Vec<(&str, JsonValue)>) -> JsonValue {
    JsonValue::Object(members.into_iter().map(|(k, v)| JsonMember { key: k.to_string(), value: v }).collect())
}

fn this() -> JsonValue {
    obj(vec![("this", obj(vec![]))])
}

fn computed(rel: &str) -> JsonValue {
    obj(vec![("computedUserset", obj(vec![("relation", s(rel))]))])
}

fn union(children: Vec<JsonValue>) -> JsonValue {
    obj(vec![("union", obj(vec![("child", JsonValue::Array(children))]))])
}

fn difference(base: JsonValue, subtract: JsonValue) -> JsonValue {
    obj(vec![("difference", obj(vec![("base", base), ("subtract", subtract)]))])
}

fn ttu(tupleset: &str, rel: &str) -> JsonValue {
    obj(vec![(
        "tupleToUserset",
        obj(vec![
            ("tupleset", obj(vec![("relation", s(tupleset))])),
            ("computedUserset", obj(vec![("relation", s(rel))])),
        ]),
    )])
}

fn metadata(entries: Vec<(&str, Vec<JsonValue>)>) -> Option<JsonValue> {
    Some(obj(vec![(
        "relations",
        obj(entries
            .into_iter()
            .map(|(rel, types)| (rel, obj(vec![("directly_related_user_types", JsonValue::Array(types))])))
            .collect()),
    )]))
}

fn user_type(t: &str) -> JsonValue {
    obj(vec![("type", s(t))])
}

fn userset_type(t: &str, rel: &str) -> JsonValue {
    obj(vec![("type", s(t)), ("relation", s(rel))])
}

fn type_def(name: &str, relations: Vec<(&str, JsonValue)>, metadata: Option<JsonValue>) -> TypeDefinition {
    TypeDefinition {
        object_type: name.to_string(),
        relations: relations.into_iter().map(|(k, v)| JsonMember { key: k.to_string(), value: v }).collect(),
        metadata,
    }
}

fn model(types: Vec<TypeDefinition>) -> Result<CompiledModel, FgaError> {
    CompiledModel::from_request(&AuthorizationModelWriteRequest {
        schema_version: "1.1".to_string(),
        type_definitions: types,
        conditions: vec![],
    })
}

fn key(user: &str, relation: &str, object: &str) -> TupleKey {
    TupleKey { user: user.to_string(), relation: relation.to_string(), object: object.to_string(), condition: None }
}

fn parsed(user: &str, relation: &str, object: &str) -> ParsedTupleKey {
    ParsedTupleKey::parse(key(user, relation, object)).unwrap()
}

fn message(e: &FgaError) -> String {
    e.message()
}

fn check(m: &CompiledModel, stored: &Vec<ParsedTupleKey>, user: &str, relation: &str, object: &str) -> bool {
    evaluate_check(
        m,
        stored,
        CheckRequest { tuple_key: key(user, relation, object), authorization_model_id: None, contextual_tuples: None, context: None },
        25,
    )
    .unwrap()
    .allowed
}

fn group_model() -> CompiledModel {
    model(vec![
        type_def("user", vec![], None),
        type_def("group", vec![("member", this())], metadata(vec![("member", vec![user_type("user")])])),
    ])
    .unwrap()
}

fn org_model() -> CompiledModel {
    model(vec![
        type_def("user", vec![], None),
        type_def(
            "org",
            vec![("member", this()), ("admin", union(vec![this(), computed("owner")])), ("owner", this())],
            metadata(vec![
                ("member", vec![user_type("user")]),
                ("admin", vec![user_type("user")]),
                ("owner", vec![user_type("user")]),
            ]),
        ),
    ])
    .unwrap()
}

fn document_model() -> CompiledModel {
    model(vec![
        type_def("user", vec![], None),
        type_def(
            "document",
            vec![
                ("parent", this()),
                ("viewer", union(vec![this(), ttu("parent", "viewer")])),
                ("blocked", this()),
                ("effective_viewer", difference(computed("viewer"), computed("blocked"))),
            ],
            metadata(vec![
                ("parent", vec![user_type("document")]),
                ("viewer", vec![user_type("user")]),
                ("blocked", vec![user_type("user")]),
            ]),
        ),
    ])
    .unwrap()
}

#[test]
fn parses_object_and_user_references() {
    let o = ObjectRef::parse("document:file").unwrap();
    assert_eq!(o.object_type, "document");
    assert_eq!(o.object_id, "file");
    assert_eq!(o.as_raw(), "document:file");
    assert!(ObjectRef::parse("document").is_err());
    assert!(ObjectRef::parse(":x").is_err());

    let u = UserRef::parse("group:engineering#member").unwrap();
    assert_eq!(u.user_type(), "group");
    assert_eq!(u.user_id(), "engineering");
    assert_eq!(u.relation_name(), Some("member"));
    assert_eq!(u.as_raw(), "group:engineering#member");
    let w = UserRef::parse("user:*").unwrap();
    assert_eq!(w.as_raw(), "user:*");
    assert!(w.matches(&UserRef::parse("user:anne").unwrap()));
    assert!(UserRef::parse("anne").is_err());

    let stored = stored_user_from_parts("user", "anne", "");
    assert_eq!(stored.as_raw(), "user:anne");
}

#[test]
fn parses_relation_expressions_and_reports_errors() {
    match parse_relation_expr(&computed("viewer")).unwrap() {
        RelationExpr::ComputedUserset { relation } => assert_eq!(relation, "viewer"),
        other => panic!("unexpected {:?}", other),
    }
    let err = parse_relation_expr(&obj(vec![("computedUserset", obj(vec![]))])).unwrap_err();
    assert_eq!(message(&err), "computedUserset.relation is required");
    let err = parse_relation_expr(&s("x")).unwrap_err();
    assert_eq!(message(&err), "relation definition must be an object");
    let err = parse_relation_expr(&obj(vec![("other", obj(vec![]))])).unwrap_err();
    assert_eq!(message(&err), "unsupported userset rewrite in relation definition");
    assert!(parse_relation_expr(&union(vec![this(), computed("a")])).unwrap().contains_this_leaf());
    assert!(!parse_relation_expr(&computed("a")).unwrap().contains_this_leaf());
}

#[test]
fn parses_relation_metadata() {
    let md = metadata(vec![("member", vec![user_type("user"), userset_type("group", "member")])]);
    let parsed = parse_relation_metadata(md.as_ref()).unwrap();
    assert_eq!(parsed.len(), 1);
    assert_eq!(parsed[0].relation, "member");
    assert_eq!(parsed[0].allowed.len(), 2);
    assert_eq!(parsed[0].allowed[1].relation.as_deref(), Some("member"));
    assert!(parse_relation_metadata(None).unwrap().is_empty());
}

#[test]
fn write_and_check_direct_relation() {
    let m = group_model();
    let stored = vec![parsed("user:anne", "member", "group:engineering")];
    assert!(check(&m, &stored, "user:anne", "member", "group:engineering"));
    assert!(!check(&m, &stored, "user:bob", "member", "group:engineering"));
}

#[test]
fn allows_direct_tuple_on_union_relation_when_subject_matches_metadata() {
    let m = org_model();
    assert!(m.validate_tuple(&parsed("user:anne", "admin", "org:engineering")).is_ok());
    let stored = vec![parsed("user:anne", "owner", "org:engineering")];
    assert!(check(&m, &stored, "user:anne", "admin", "org:engineering"));
    assert!(!check(&m, &stored, "user:anne", "member", "org:engineering"));
}

#[test]
fn rejects_invalid_direct_tuple_on_union_relation() {
    let m = org_model();
    let err = m.validate_tuple(&parsed("group:engineering#member", "admin", "org:engineering")).unwrap_err();
    assert!(message(&err).contains("cannot be directly related to org:engineering#admin"));
}

#[test]
fn rejects_metadata_on_computed_only_relation() {
    let err = model(vec![
        type_def("user", vec![], None),
        type_def(
            "document",
            vec![("viewer", this()), ("base", this()), ("effective_viewer", difference(computed("viewer"), computed("base")))],
            metadata(vec![("effective_viewer", vec![user_type("user")])]),
        ),
    ])
    .unwrap_err();
    assert!(message(&err).contains("cannot declare directly_related_user_types without a direct this branch"));
}

#[test]
fn rejects_direct_tuple_on_computed_only_relation() {
    let m = model(vec![
        type_def("user", vec![], None),
        type_def(
            "document",
            vec![("viewer", this()), ("base", this()), ("effective_viewer", difference(computed("viewer"), computed("base")))],
            metadata(vec![("viewer", vec![user_type("user")]), ("base", vec![user_type("user")])]),
        ),
    ])
    .unwrap();
    let err = m.validate_tuple(&parsed("user:anne", "effective_viewer", "document:file")).unwrap_err();
    assert!(message(&err).contains("relation document#effective_viewer is computed-only"));
}

#[test]
fn unknown_types_and_relations_are_rejected() {
    let m = group_model();
    assert!(m.relation("nope", "member").is_err());
    assert!(m.relation("group", "nope").is_err());
    assert!(m.validate_tuple(&parsed("user:anne", "member", "team:x")).is_err());
}

#[test]
fn supports_tuple_to_userset_and_difference() {
    let m = document_model();
    let stored = vec![
        parsed("document:folder", "parent", "document:file"),
        parsed("user:anne", "viewer", "document:folder"),
        parsed("user:bob", "viewer", "document:folder"),
        parsed("user:bob", "blocked", "document:file"),
    ];
    assert!(check(&m, &stored, "user:anne", "effective_viewer", "document:file"));
    assert!(!check(&m, &stored, "user:bob", "effective_viewer", "document:file"));
    assert!(check(&m, &stored, "user:bob", "viewer", "document:file"));
}

#[test]
fn contextual_tuples_count_for_one_request_only() {
    let m = group_model();
    let stored = vec![];
    let response = evaluate_check(
        &m,
        &stored,
        CheckRequest {
            tuple_key: key("user:anne", "member", "group:engineering"),
            authorization_model_id: None,
            contextual_tuples: Some(ContextualTuples { tuple_keys: vec![key("user:anne", "member", "group:engineering")] }),
            context: None,
        },
        25,
    )
    .unwrap();
    assert!(response.allowed);
    assert!(!check(&m, &stored, "user:anne", "member", "group:engineering"));
}

#[test]
fn request_context_is_unsupported() {
    let m = group_model();
    let err = evaluate_check(
        &m,
        &vec![],
        CheckRequest {
            tuple_key: key("user:anne", "member", "group:engineering"),
            authorization_model_id: None,
            contextual_tuples: None,
            context: Some(obj(vec![])),
        },
        25,
    )
    .unwrap_err();
    assert_eq!(message(&err), "request context is not supported by the embedded v1 server");
}

#[test]
fn batch_check_keeps_order_and_correlation_ids() {
    let m = group_model();
    let stored = vec![parsed("user:anne", "member", "group:engineering")];
    let response = evaluate_batch_check(
        &m,
        &stored,
        BatchCheckRequest {
            checks: vec![
                BatchCheckItem { tuple_key: key("user:anne", "member", "group:engineering"), correlation_id: Some("a".to_string()) },
                BatchCheckItem { tuple_key: key("user:bob", "member", "group:engineering"), correlation_id: None },
            ],
            authorization_model_id: None,
            contextual_tuples: None,
            context: None,
        },
        25,
    )
    .unwrap();
    assert_eq!(response.results.len(), 2);
    assert!(response.results[0].allowed);
    assert_eq!(response.results[0].correlation_id.as_deref(), Some("a"));
    assert!(!response.results[1].allowed);
}

#[test]
fn cyclic_checks_cache_cycle_reason() {
    let m = model(vec![
        type_def("user", vec![], None),
        type_def("document", vec![("viewer", computed("viewer"))], None),
    ])
    .unwrap();
    let stored = vec![];
    let contextual = vec![];
    let mut ev = Evaluator::new(&m, &stored, &contextual, 25);
    let user = UserRef::parse("user:anne").unwrap();
    let object = ObjectRef::parse("document:file").unwrap();
    let outcome = ev.check(&user, "viewer", &object, 0).unwrap();
    assert_eq!(outcome, EvalOutcome::Deny(DenyReason::CycleDetected));
    assert_eq!(outcome.deny_reason(), Some(DenyReason::CycleDetected));
    assert!(!outcome.is_allowed());
}

#[test]
fn deep_checks_cache_depth_reason() {
    let mut relations: Vec<(String, JsonValue)> = Vec::new();
    for idx in 0..40 {
        relations.push((format!("step_{}", idx), computed(&format!("step_{}", idx + 1))));
    }
    relations.push(("step_40".to_string(), this()));
    let def = TypeDefinition {
        object_type: "document".to_string(),
        relations: relations.into_iter().map(|(k, v)| JsonMember { key: k, value: v }).collect(),
        metadata: metadata(vec![("step_40", vec![user_type("user")])]),
    };
    let m = model(vec![type_def("user", vec![], None), def]).unwrap();
    let stored = vec![parsed("user:anne", "step_40", "document:file")];
    let contextual = vec![];
    let mut ev = Evaluator::new(&m, &stored, &contextual, 25);
    let user = UserRef::parse("user:anne").unwrap();
    let object = ObjectRef::parse("document:file").unwrap();
    let outcome = ev.check(&user, "step_0", &object, 0).unwrap();
    assert_eq!(outcome, EvalOutcome::Deny(DenyReason::DepthExhausted));
    let mut deep = Evaluator::new(&m, &stored, &contextual, 64);
    assert_eq!(deep.check(&user, "step_0", &object, 0).unwrap(), EvalOutcome::Allow);
}

#[test]
fn deny_reasons_prefer_depth_over_cycle_over_no_match() {
    assert_eq!(DenyReason::NoMatch.prefer(DenyReason::CycleDetected), DenyReason::CycleDetected);
    assert_eq!(DenyReason::DepthExhausted.prefer(DenyReason::CycleDetected), DenyReason::DepthExhausted);
    assert_eq!(DenyReason::NoMatch.prefer(DenyReason::NoMatch), DenyReason::NoMatch);
    assert_eq!(DenyReason::DepthExhausted.priority(), 2);
    assert_eq!(DenyReason::CycleDetected.as_str(), "cycle_detected");
}

#[test]
fn list_plans_follow_relation_shapes() {
    let m = org_model();
    match m.list_plan("org", "admin").unwrap() {
        ListPlan::Planned { sources } => assert_eq!(sources.len(), 2),
        other => panic!("unexpected {:?}", other),
    }
    let d = document_model();
    match d.list_plan("document", "effective_viewer").unwrap() {
        ListPlan::Planned { sources } => assert_eq!(sources.len(), 1),
        other => panic!("unexpected {:?}", other),
    }
    let empty = model(vec![
        type_def("user", vec![], None),
        type_def("doc", vec![("viewer", obj(vec![("intersection", obj(vec![("child", JsonValue::Array(vec![]))]))]))], None),
    ])
    .unwrap();
    assert!(matches!(empty.list_plan("doc", "viewer").unwrap(), ListPlan::ScanFallback));
}

fn write_request(writes: Vec<TupleKey>, deletes: Vec<TupleKey>) -> WriteRequest {
    WriteRequest {
        writes: TupleKeySet { tuple_keys: writes },
        deletes: TupleKeySet { tuple_keys: deletes },
        authorization_model_id: None,
    }
}

#[test]
fn duplicate_tuples_in_one_request_are_rejected() {
    let dup = write_request(vec![key("user:a", "member", "group:g"), key("user:a", "member", "group:g")], vec![]);
    assert_eq!(message(&validate_duplicate_request_tuples(&dup).unwrap_err()), "duplicate tuple in writes");
    let both = write_request(vec![key("user:a", "member", "group:g")], vec![key("user:a", "member", "group:g")]);
    assert_eq!(
        message(&validate_duplicate_request_tuples(&both).unwrap_err()),
        "cannot write and delete the same tuple in one request"
    );
    let twice = write_request(vec![], vec![key("user:a", "member", "group:g"), key("user:a", "member", "group:g")]);
    assert_eq!(message(&validate_duplicate_request_tuples(&twice).unwrap_err()), "duplicate tuple in deletes");
    assert!(validate_duplicate_request_tuples(&write_request(vec![key("user:a", "member", "group:g")], vec![])).is_ok());
}

#[test]
fn plan_write_validates_against_the_model() {
    let m = group_model();
    let (w, d) = plan_write(&m, write_request(vec![key("user:anne", "member", "group:engineering")], vec![])).unwrap();
    assert_eq!(w.len(), 1);
    assert!(d.is_empty());
    assert!(plan_write(&m, write_request(vec![key("user:anne", "owner", "group:engineering")], vec![])).is_err());
    assert!(plan_write(&m, write_request(vec![key("anne", "member", "group:engineering")], vec![])).is_err());
}

fn read_all(store: &TupleStore, scope: &str, id: &str) -> Vec<String> {
    let response = store
        .read_tuples(
            scope,
            id,
            &ReadRequest { tuple_key: None, page_size: Some(500), continuation_token: None },
        )
        .unwrap();
    response.tuples.iter().map(|t| format!("{}|{}|{}", t.key.user, t.key.relation, t.key.object)).collect()
}

#[test]
fn tuple_lifecycle_and_scope_isolation() {
    let mut store = TupleStore::new();
    let writes = vec![parsed("user:anne", "member", "group:engineering"), parsed("user:bob", "member", "group:ops")];
    store.apply_write("inst-1", "store-1", "model-1", "2024-01-01T00:00:00Z", &writes, &vec![]);
    store.apply_write("inst-2", "store-1", "model-1", "2024-01-01T00:00:00Z", &vec![parsed("user:carl", "member", "group:x")], &vec![]);
    let rows = read_all(&store, "inst-1", "store-1");
    assert_eq!(rows.len(), 2);
    assert!(rows.contains(&"user:anne|member|group:engineering".to_string()));
    // Writing a stored tuple again changes nothing.
    store.apply_write("inst-1", "store-1", "model-1", "later", &vec![parsed("user:anne", "member", "group:engineering")], &vec![]);
    assert_eq!(read_all(&store, "inst-1", "store-1").len(), 2);
    store.apply_write("inst-1", "store-1", "model-1", "later", &vec![], &vec![parsed("user:anne", "member", "group:engineering")]);
    let rows = read_all(&store, "inst-1", "store-1");
    assert_eq!(rows, vec!["user:bob|member|group:ops".to_string()]);
    assert_eq!(read_all(&store, "inst-2", "store-1"), vec!["user:carl|member|group:x".to_string()]);
    let changes = store.read_changes("inst-1", "store-1", None, 100, None).unwrap();
    let ops: Vec<String> = changes.changes.iter().map(|c| c.operation.clone()).collect();
    assert_eq!(ops, vec!["WRITE".to_string(), "WRITE".to_string(), "DELETE".to_string()]);
    let groups = store.read_changes("inst-1", "store-1", Some("group"), 1, None).unwrap();
    assert_eq!(groups.changes.len(), 1);
    assert!(groups.continuation_token.is_some());
    let snapshot = store.store_tuples("inst-1", "store-1");
    assert_eq!(snapshot.len(), 1);
}

#[test]
fn read_filters_and_pages() {
    let mut store = TupleStore::new();
    let writes = vec![
        parsed("user:a", "member", "group:g"),
        parsed("user:b", "member", "group:g"),
        parsed("user:c", "owner", "group:g"),
    ];
    store.apply_write("i", "s", "m", "t", &writes, &vec![]);
    let page = store
        .read_tuples("i", "s", &ReadRequest { tuple_key: None, page_size: Some(2), continuation_token: None })
        .unwrap();
    assert_eq!(page.tuples.len(), 2);
    let token = page.continuation_token.clone().unwrap();
    let rest = store
        .read_tuples("i", "s", &ReadRequest { tuple_key: None, page_size: Some(2), continuation_token: Some(token) })
        .unwrap();
    assert_eq!(rest.tuples.len(), 1);
    assert!(rest.continuation_token.is_none());
    let filtered = store
        .read_tuples(
            "i",
            "s",
            &ReadRequest {
                tuple_key: Some(TupleFilter { user: None, relation: Some("owner".to_string()), object: None }),
                page_size: None,
                continuation_token: None,
            },
        )
        .unwrap();
    assert_eq!(filtered.tuples.len(), 1);
    assert_eq!(filtered.tuples[0].key.user, "user:c");
    let bad = store.read_tuples(
        "i",
        "s",
        &ReadRequest { tuple_key: None, page_size: None, continuation_token: Some("abc".to_string()) },
    );
    assert_eq!(message(&bad.unwrap_err()), "invalid continuation token");
}

#[test]
fn continuation_tokens() {
    assert_eq!(decode_offset(None).unwrap(), 0);
    assert_eq!(decode_offset(Some("")).unwrap(), 0);
    assert_eq!(decode_offset(Some("42")).unwrap(), 42);
    assert_eq!(decode_offset(Some("-3")).unwrap(), -3);
    assert!(decode_offset(Some("4x")).is_err());
}

#[test]
fn refused_write_changes_nothing() {
    let m = group_model();
    let mut store = TupleStore::new();
    store
        .write(&m, "inst-1", "store-1", "model-1", "t0", write_request(vec![key("user:anne", "member", "group:engineering")], vec![]))
        .unwrap();
    let before = read_all(&store, "inst-1", "store-1");
    let refused = store.write(
        &m,
        "inst-1",
        "store-1",
        "model-1",
        "t1",
        write_request(vec![key("user:bob", "owner", "group:engineering")], vec![key("user:anne", "member", "group:engineering")]),
    );
    assert!(refused.is_err());
    assert_eq!(read_all(&store, "inst-1", "store-1"), before);
    assert_eq!(store.read_changes("inst-1", "store-1", None, 100, None).unwrap().changes.len(), 1);
}

#[test]
fn reads_come_back_in_key_order() {
    let mut store = TupleStore::new();
    let writes = vec![
        parsed("user:zed", "member", "group:b"),
        parsed("user:anne", "member", "group:a"),
        parsed("user:bob", "member", "group:a"),
    ];
    store.apply_write("inst-1", "store-1", "model-1", "t0", &writes, &vec![]);
    assert_eq!(
        read_all(&store, "inst-1", "store-1"),
        vec![
            "user:anne|member|group:a".to_string(),
            "user:bob|member|group:a".to_string(),
            "user:zed|member|group:b".to_string(),
        ]
    );
}

#[test]
fn batch_filter_keeps_the_held_ids_in_order() {
    let m = group_model();
    let stored = vec![parsed("user:anne", "member", "group:eng"), parsed("user:anne", "member", "group:zeta")];
    let ids = vec!["zeta".to_string(), "ops".to_string(), "eng".to_string()];
    let kept = zitadel_core::fga_platform::batch_filter(&m, &stored, "user:anne", "member", "group", &ids, 32).unwrap();
    assert_eq!(kept, vec!["zeta".to_string(), "eng".to_string()]);
    let none = zitadel_core::fga_platform::batch_filter(&m, &stored, "user:anne", "member", "group", &vec![], 32).unwrap();
    assert!(none.is_empty());
}
