//! Requests and responses of the authorization store's interface.

use vstd::prelude::*;

use crate::fga_refs::{FgaError, FgaErrorV, TupleKey};
use crate::text::concat3;
use crate::json::JsonValue;

verus! {

/// An authorization store of an instance.
#[derive(Debug)]
pub struct StoreInfo {
    pub id: String,
    pub name: String,
}

/// The id a written model got.
#[derive(Debug)]
pub struct AuthorizationModelWriteResponse {
    pub authorization_model_id: String,
}

/// Extra tuples a request evaluates with, beside the stored ones.
#[derive(Debug)]
pub struct ContextualTuples {
    pub tuple_keys: Vec<TupleKey>,
}

/// A request to check one tuple.
#[derive(Debug)]
pub struct CheckRequest {
    pub tuple_key: TupleKey,
    pub authorization_model_id: Option<String>,
    pub contextual_tuples: Option<ContextualTuples>,
    pub context: Option<JsonValue>,
}

/// The answer of a check.
#[derive(Debug)]
pub struct CheckResponse {
    pub allowed: bool,
}

/// One check of a batch.
#[derive(Debug)]
pub struct BatchCheckItem {
    pub tuple_key: TupleKey,
    pub correlation_id: Option<String>,
}

/// A request to check several tuples.
#[derive(Debug)]
pub struct BatchCheckRequest {
    pub checks: Vec<BatchCheckItem>,
    pub authorization_model_id: Option<String>,
    pub contextual_tuples: Option<ContextualTuples>,
    pub context: Option<JsonValue>,
}

/// The answer to one check of a batch.
#[derive(Debug)]
pub struct BatchCheckResult {
    pub correlation_id: Option<String>,
    pub allowed: bool,
}

/// The answers of a batch, in order.
#[derive(Debug)]
pub struct BatchCheckResponse {
    pub results: Vec<BatchCheckResult>,
}

/// A node of an expansion tree: a userset, the usersets it is made of and the
/// users it holds directly.
#[derive(Debug)]
pub struct ExpandNode {
    pub name: String,
    pub children: Vec<ExpandNode>,
    pub users: Vec<String>,
}

/// An expansion tree.
#[derive(Debug)]
pub struct ExpandResponse {
    pub tree: ExpandNode,
}

/// The objects a user has a relation to.
#[derive(Debug)]
pub struct ListObjectsResponse {
    pub objects: Vec<String>,
}

/// A kind of users to list: a type, optionally a relation (for usersets).
#[derive(Debug)]
pub struct UserFilter {
    pub user_type: String,
    pub relation: Option<String>,
}

/// The users that have a relation to an object.
#[derive(Debug)]
pub struct ListUsersResponse {
    pub users: Vec<String>,
}

/// A model in the older listing form.
#[derive(Debug)]
pub struct LegacyModelResponse {
    pub schema_version: String,
    pub types: Vec<LegacyModelType>,
}

/// A type in the older listing form: its name and relation names.
#[derive(Debug)]
pub struct LegacyModelType {
    pub name: String,
    pub relations: Vec<String>,
}

/// A graph of a model's types and rewrites.
#[derive(Debug)]
pub struct ModelGraphResponse {
    pub nodes: Vec<ModelGraphNode>,
    pub edges: Vec<ModelGraphEdge>,
}

/// A type of the graph, its relations and the relations that are computed.
#[derive(Debug)]
pub struct ModelGraphNode {
    pub id: String,
    pub relations: Vec<String>,
    pub permissions: Vec<String>,
}

/// A rewrite of the graph.
#[derive(Debug)]
pub struct ModelGraphEdge {
    pub from: String,
    pub to: String,
    pub relation: String,
    pub kind: String,
}

/// The answer of a check in the older form.
#[derive(Debug)]
pub struct LegacyCheckResponse {
    pub allowed: bool,
    pub user: String,
    pub relation: String,
    pub object: String,
}

/// The answer of a write in the older form.
#[derive(Debug)]
pub struct LegacyWriteResponse {
    pub status: String,
    pub written: usize,
}

/// The answer of a delete in the older form.
#[derive(Debug)]
pub struct LegacyDeleteResponse {
    pub status: String,
    pub deleted: usize,
}

/// A request to expand a relation of an object into its users.
#[derive(Debug)]
pub struct ExpandRequest {
    pub object: String,
    pub relation: String,
    pub authorization_model_id: Option<String>,
    pub contextual_tuples: Option<ContextualTuples>,
}

/// A request for the objects of a type a user stands in a relation to.
#[derive(Debug)]
pub struct ListObjectsRequest {
    pub user: String,
    pub relation: String,
    pub object_type: String,
    pub authorization_model_id: Option<String>,
    pub contextual_tuples: Option<ContextualTuples>,
}

/// A request for the users that stand in a relation to an object.
#[derive(Debug)]
pub struct ListUsersRequest {
    pub object: String,
    pub relation: String,
    pub user_filters: Vec<UserFilter>,
    pub authorization_model_id: Option<String>,
    pub contextual_tuples: Option<ContextualTuples>,
}

/// A stored authorization model.
#[derive(Debug)]
pub struct AuthorizationModelMetadata {
    pub authorization_model_id: String,
    pub schema_version: String,
    pub type_definitions: Vec<crate::fga_model::TypeDefinition>,
    pub conditions: Vec<crate::json::JsonMember>,
    pub created_at: String,
}

/// The stored authorization models of a store.
#[derive(Debug)]
pub struct AuthorizationModelsListResponse {
    pub authorization_models: Vec<AuthorizationModelMetadata>,
}

/// The tuples of the legacy listing endpoint.
#[derive(Debug)]
pub struct LegacyTupleListResponse {
    pub tuples: Vec<TupleKey>,
}

pub open spec fn store_not_found_text(store_id: Seq<char>) -> Seq<char> {
    "store "@ + store_id + " not found"@
}

/// The store of an instance, where it is the one asked for: an instance
/// without a store, or with another one, is answered `not found`.
pub fn require_store(row: Option<StoreInfo>, store_id: &str) -> (r: Result<StoreInfo, FgaError>)
    ensures
        match row {
            Some(s) => if s.id@ == store_id@ {
                r == Ok::<StoreInfo, FgaError>(s)
            } else {
                r matches Err(e) && e@ == FgaErrorV::NotFound(store_not_found_text(store_id@))
            },
            None => r matches Err(e) && e@ == FgaErrorV::NotFound(store_not_found_text(store_id@)),
        },
{
    match row {
        Some(s) => {
            if crate::text::str_eq(s.id.as_str(), store_id) {
                Ok(s)
            } else {
                Err(FgaError::NotFound(concat3("store ", store_id, " not found")))
            }
        },
        None => Err(FgaError::NotFound(concat3("store ", store_id, " not found"))),
    }
}

} // verus!
