//! Authorization, login and OpenID Connect decision logic of an identity platform,
//! with contracts checked by Verus.

pub mod json;
pub mod text;
pub mod fga_refs;
pub mod fga_expr;
pub mod fga_model;
pub mod fga_core;
pub mod fga_semantics;
pub mod fga_eval;
pub mod fga_expand;
pub mod num;
pub mod fga_store;
pub mod fga_dto;
pub mod sorted_strings;
pub mod fga_plan;
pub mod fga_query;
pub mod fga_platform;
pub mod fga_models;
pub mod oidc;
pub mod oidc_authorize;
pub mod oidc_op;
pub mod oidc_rp;
pub mod oidc_token;
pub mod oidc_request_object;
pub mod login;
pub mod login_flow;
pub mod sso;
pub mod observability;
pub mod obs_record;
pub mod civil_time;
