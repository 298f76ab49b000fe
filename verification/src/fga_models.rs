//! The authorization models of the stores: every written model is kept,
//! and each store has at most one active model, the one written last.

use vstd::prelude::*;

use crate::fga_core::{conditions_text, plan_model_write, platform_sealed_text, sealed_error};
use crate::fga_model::{AuthorizationModelWriteRequest, CompiledModel, spec_compile};
use crate::fga_refs::{FgaError, FgaErrorV};
use crate::text::str_eq;

verus! {

/// A stored model of store `store` of instance `scope`.
#[derive(Debug)]
pub struct ModelRow {
    pub scope: String,
    pub store: String,
    pub model_id: String,
    pub created_at: String,
    pub model: AuthorizationModelWriteRequest,
    pub active: bool,
}

pub open spec fn in_store(r: ModelRow, scope: Seq<char>, store: Seq<char>) -> bool {
    r.scope@ == scope && r.store@ == store
}

/// The stored models.
#[derive(Debug)]
pub struct ModelStore {
    pub rows: Vec<ModelRow>,
}

/// Row `r` is row `o` with only its active flag possibly changed.
pub open spec fn same_model(r: ModelRow, o: ModelRow) -> bool {
    &&& r.scope == o.scope
    &&& r.store == o.store
    &&& r.model_id == o.model_id
    &&& r.created_at == o.created_at
    &&& r.model == o.model
}

impl ModelStore {
    /// No store has two active models.
    pub open spec fn wf(&self) -> bool {
        forall|i: int, j: int|
            0 <= i < self.rows@.len() && 0 <= j < self.rows@.len() && (#[trigger] self.rows@[i]).active
                && (#[trigger] self.rows@[j]).active && in_store(self.rows@[i], self.rows@[j].scope@, self.rows@[j].store@)
                ==> i == j
    }

    /// No models yet.
    pub fn new() -> (r: ModelStore)
        ensures
            r.wf(),
            r.rows@.len() == 0,
    {
        ModelStore { rows: Vec::new() }
    }

    /// Stores `model` as the active model of the store, the models it had
    /// before kept but no longer active; the other stores are untouched.
    pub fn persist(
        &mut self,
        scope: &str,
        store: &str,
        model_id: String,
        created_at: String,
        model: AuthorizationModelWriteRequest,
    )
        requires
            old(self).wf(),
        ensures
            final(self).wf(),
            final(self).rows@.len() == old(self).rows@.len() + 1,
            forall|i: int|
                0 <= i < old(self).rows@.len() ==> same_model(#[trigger] final(self).rows@[i], old(self).rows@[i])
                    && final(self).rows@[i].active == (old(self).rows@[i].active && !in_store(
                    old(self).rows@[i],
                    scope@,
                    store@,
                )),
            ({
                let last = final(self).rows@[old(self).rows@.len() as int];
                in_store(last, scope@, store@) && last.model_id == model_id && last.created_at == created_at
                    && last.model == model && last.active
            }),
    {
        let ghost before = self.rows@;
        let n = self.rows.len();
        let mut i: usize = 0;
        while i < n
            invariant
                i <= n,
                n == before.len(),
                self.rows@.len() == n,
                forall|k: int|
                    0 <= k < n ==> same_model(#[trigger] self.rows@[k], before[k]),
                forall|k: int|
                    0 <= k < i ==> (#[trigger] self.rows@[k]).active == (before[k].active && !in_store(
                        before[k],
                        scope@,
                        store@,
                    )),
                forall|k: int| i <= k < n ==> (#[trigger] self.rows@[k]).active == before[k].active,
            decreases n - i,
        {
            if self.rows[i].active && str_eq(self.rows[i].scope.as_str(), scope) && str_eq(
                self.rows[i].store.as_str(),
                store,
            ) {
                let ghost mid = self.rows@;
                let mut row = self.rows.remove(i);
                row.active = false;
                self.rows.insert(i, row);
                proof {
                    assert forall|k: int| 0 <= k < n && k != i implies #[trigger] self.rows@[k] == mid[k] by {}
                }
            }
            i = i + 1;
        }
        self.rows.push(
            ModelRow {
                scope: crate::text::str_to_string(scope),
                store: crate::text::str_to_string(store),
                model_id,
                created_at,
                model,
                active: true,
            },
        );
        proof {
            let rows = self.rows@;
            assert forall|a: int, b: int|
                0 <= a < rows.len() && 0 <= b < rows.len() && (#[trigger] rows[a]).active && (#[trigger] rows[b]).active
                    && in_store(rows[a], rows[b].scope@, rows[b].store@) implies a == b by {
                if a < n && b < n {
                    assert(before[a].active && before[b].active);
                } else if a < n {
                    assert(rows[b].scope@ == scope@ && rows[b].store@ == store@);
                } else if b < n {
                    assert(rows[a].scope@ == scope@ && rows[a].store@ == store@);
                    assert(rows[b].scope == before[b].scope && rows[b].store == before[b].store);
                }
            }
        }
    }

    /// The model of the store with id `model_id`, or its active model where
    /// no id is given; `None` where there is no such model.
    pub fn find(&self, scope: &str, store: &str, model_id: Option<&str>) -> (r: Option<usize>)
        ensures
            match r {
                Some(i) => i < self.rows@.len() && in_store(self.rows@[i as int], scope@, store@) && match model_id {
                    Some(m) => self.rows@[i as int].model_id@ == m@,
                    None => self.rows@[i as int].active,
                },
                None => forall|i: int|
                    0 <= i < self.rows@.len() && in_store(#[trigger] self.rows@[i], scope@, store@) ==> match model_id {
                        Some(m) => self.rows@[i].model_id@ != m@,
                        None => !self.rows@[i].active,
                    },
            },
    {
        let mut i: usize = 0;
        while i < self.rows.len()
            invariant
                i <= self.rows@.len(),
                forall|k: int|
                    0 <= k < i && in_store(#[trigger] self.rows@[k], scope@, store@) ==> match model_id {
                        Some(m) => self.rows@[k].model_id@ != m@,
                        None => !self.rows@[k].active,
                    },
            decreases self.rows.len() - i,
        {
            let row = &self.rows[i];
            if str_eq(row.scope.as_str(), scope) && str_eq(row.store.as_str(), store) {
                let hit = match model_id {
                    Some(m) => str_eq(row.model_id.as_str(), m),
                    None => row.active,
                };
                if hit {
                    return Some(i);
                }
            }
            i = i + 1;
        }
        None
    }

    /// Writes a model for the store: the request must pass
    /// `plan_model_write`; a refused request leaves every stored model as it
    /// was, an accepted one becomes the store's active model.
    pub fn write_model(
        &mut self,
        scope: &str,
        store: &str,
        model_id: String,
        created_at: String,
        request: AuthorizationModelWriteRequest,
        sealed: &AuthorizationModelWriteRequest,
        platform_store: bool,
    ) -> (r: Result<CompiledModel, FgaError>)
        requires
            old(self).wf(),
        ensures
            final(self).wf(),
            r is Err ==> final(self).rows@ == old(self).rows@,
            r is Ok ==> final(self).rows@.len() == old(self).rows@.len() + 1 && ({
                let last = final(self).rows@[old(self).rows@.len() as int];
                in_store(last, scope@, store@) && last.model_id == model_id && last.model == request && last.active
            }) && forall|i: int|
                0 <= i < old(self).rows@.len() ==> same_model(#[trigger] final(self).rows@[i], old(self).rows@[i])
                    && final(self).rows@[i].active == (old(self).rows@[i].active && !in_store(
                    old(self).rows@[i],
                    scope@,
                    store@,
                )),
            request.conditions@.len() > 0 ==> (r matches Err(e) && e.is_unsupported(conditions_text())),
            request.conditions@.len() == 0 ==> match spec_compile(request) {
                Err(ce) => r matches Err(e) && e@ == ce,
                Ok(m) => match sealed_error(request.type_definitions@, sealed.type_definitions@) {
                    Some(se) => r matches Err(e) && e@ == se,
                    None => (!platform_store ==> (r matches Ok(cm) && cm@ == m)) && (r matches Err(e) ==> e@
                        == FgaErrorV::Forbidden(platform_sealed_text())),
                },
            },
    {
        match plan_model_write(&request, sealed, platform_store) {
            Ok((compiled, _)) => {
                self.persist(scope, store, model_id, created_at, request);
                Ok(compiled)
            },
            Err(e) => Err(e),
        }
    }
}

} // verus!
