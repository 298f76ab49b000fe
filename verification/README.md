# zitadel_core

The decision logic of an identity platform — fine-grained authorization, the
login flow, OpenID Connect provider and relying party, federation and
structured logging — as a Rust library whose behaviour is stated in
`requires`/`ensures` contracts and proved with Verus.

- `src/` is the verified library. Authorization lives in the `fga_*`
  modules (references, rewrites, models and the sealed core, the check
  evaluator and its semantics, expansion, the candidate planner, listings,
  the tuple store and the platform store walk); login in `login` and
  `login_flow`; OpenID Connect in `oidc*`; federation in `sso`; logging in
  `observability` and `obs_record`; JSON documents in `json`.
- `tests/` runs the library on concrete values.
- `app/` is the ordinary Rust around it: clocks, serde documents, request
  objects, floating-point risk scores and the loops that read rows for the
  library's step functions.

Verify with `verus` on `src/lib.rs`; the outside crates (base64, sha2, url)
are reached only through a few trusted wrappers whose contracts are stated
beside them.
