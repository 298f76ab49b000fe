//! The tuple table of the authorization stores and its change log: checking
//! a write request, applying it, and reading tuples and changes back.

use vstd::prelude::*;

use crate::fga_model::{CompiledModel, spec_validate_tuple, ModelV};
use crate::fga_refs::{
    FgaError, FgaErrorV, ObjectRef, ParsedTupleKey, TupleKey, TupleV, UserRef, UserRefV,
    clone_object_ref, clone_user_ref, object_ref_eq, spec_object_raw, spec_parse_tuple, spec_relation_name,
    spec_stored_user, spec_user_id, spec_user_raw, spec_user_type, stored_user_from_parts, user_well_formed,
    object_well_formed, lemma_user_ref_round_trip, lemma_object_ref_round_trip,
};
use crate::num::{i64_to_decimal, parse_i64, spec_parse_i64, spec_signed_decimal, u64_to_decimal, spec_decimal};
use crate::text::{chars_of, copy_string, str_eq, str_to_string};

verus! {

/// A batch of tuples.
#[derive(Debug)]
pub struct TupleKeySet {
    pub tuple_keys: Vec<TupleKey>,
}

/// A request to write and delete tuples.
#[derive(Debug)]
pub struct WriteRequest {
    pub writes: TupleKeySet,
    pub deletes: TupleKeySet,
    pub authorization_model_id: Option<String>,
}

/// The raw text of a tuple: user, relation, object.
pub open spec fn raw_key(t: TupleKey) -> (Seq<char>, Seq<char>, Seq<char>) {
    (t.user@, t.relation@, t.object@)
}

pub open spec fn raw_keys(s: Seq<TupleKey>) -> Seq<(Seq<char>, Seq<char>, Seq<char>)> {
    s.map_values(|t: TupleKey| raw_key(t))
}

pub open spec fn has_duplicate(s: Seq<(Seq<char>, Seq<char>, Seq<char>)>) -> bool {
    exists|i: int, j: int| 0 <= i < j < s.len() && s[i] == s[j]
}

/// The first problem among the deletes, in order: a tuple deleted twice, or a
/// tuple also written.
pub open spec fn spec_delete_conflicts(
    writes: Seq<(Seq<char>, Seq<char>, Seq<char>)>,
    deletes: Seq<(Seq<char>, Seq<char>, Seq<char>)>,
) -> Result<(), Seq<char>>
    decreases deletes.len(),
{
    if deletes.len() == 0 {
        Ok(())
    } else {
        match spec_delete_conflicts(writes, deletes.drop_last()) {
            Err(m) => Err(m),
            Ok(()) => if deletes.drop_last().contains(deletes.last()) {
                Err("duplicate tuple in deletes"@)
            } else if writes.contains(deletes.last()) {
                Err("cannot write and delete the same tuple in one request"@)
            } else {
                Ok(())
            },
        }
    }
}

/// No tuple written twice, deleted twice, or both written and deleted.
pub open spec fn spec_validate_duplicates(writes: Seq<TupleKey>, deletes: Seq<TupleKey>) -> Result<(), Seq<char>> {
    if has_duplicate(raw_keys(writes)) {
        Err("duplicate tuple in writes"@)
    } else {
        spec_delete_conflicts(raw_keys(writes), raw_keys(deletes))
    }
}

fn raw_key_eq(a: &TupleKey, b: &TupleKey) -> (r: bool)
    ensures
        r == (raw_key(*a) == raw_key(*b)),
{
    str_eq(a.user.as_str(), b.user.as_str()) && str_eq(a.relation.as_str(), b.relation.as_str()) && str_eq(
        a.object.as_str(),
        b.object.as_str(),
    )
}

fn contains_raw(v: &Vec<TupleKey>, end: usize, t: &TupleKey) -> (r: bool)
    requires
        end <= v@.len(),
    ensures
        r == raw_keys(v@).subrange(0, end as int).contains(raw_key(*t)),
{
    let mut i: usize = 0;
    while i < end
        invariant
            i <= end <= v@.len(),
            forall|j: int| 0 <= j < i ==> raw_key(#[trigger] v@[j]) != raw_key(*t),
        decreases end - i,
    {
        if raw_key_eq(&v[i], t) {
            assert(raw_keys(v@).subrange(0, end as int)[i as int] == raw_key(*t));
            return true;
        }
        i = i + 1;
    }
    assert forall|j: int| 0 <= j < end implies raw_keys(v@).subrange(0, end as int)[j] != raw_key(*t) by {
        assert(raw_keys(v@).subrange(0, end as int)[j] == raw_key(v@[j]));
    }
    false
}

/// Checks that no tuple is written twice, deleted twice, or written and
/// deleted in the same request (by their raw text).
pub fn validate_duplicate_request_tuples(request: &WriteRequest) -> (r: Result<(), FgaError>)
    ensures
        match r {
            Ok(()) => spec_validate_duplicates(request.writes.tuple_keys@, request.deletes.tuple_keys@) is Ok,
            Err(e) => spec_validate_duplicates(request.writes.tuple_keys@, request.deletes.tuple_keys@)
                matches Err(m) && e.is_bad_request(m),
        },
{
    let w = &request.writes.tuple_keys;
    let d = &request.deletes.tuple_keys;
    let ghost ws = raw_keys(w@);
    let mut i: usize = 0;
    while i < w.len()
        invariant
            i <= w@.len(),
            w == &request.writes.tuple_keys,
            ws == raw_keys(w@),
            forall|a: int, b: int| 0 <= a < b < i ==> #[trigger] ws[a] != #[trigger] ws[b],
        decreases w.len() - i,
    {
        if contains_raw(w, i, &w[i]) {
            proof {
                let k = choose|k: int| 0 <= k < i && ws.subrange(0, i as int)[k] == raw_key(w@[i as int]);
                assert(ws.subrange(0, i as int)[k] == ws[k]);
                assert(ws[k] == ws[i as int]);
            }
            return Err(FgaError::BadRequest(str_to_string("duplicate tuple in writes")));
        }
        proof {
            assert forall|a: int| 0 <= a < i implies #[trigger] ws[a] != ws[i as int] by {
                assert(ws.subrange(0, i as int)[a] == ws[a]);
            }
        }
        i = i + 1;
    }
    let mut j: usize = 0;
    proof {
        assert(raw_keys(d@).subrange(0, 0) =~= Seq::<(Seq<char>, Seq<char>, Seq<char>)>::empty());
    }
    while j < d.len()
        invariant
            j <= d@.len(),
            w == &request.writes.tuple_keys,
            d == &request.deletes.tuple_keys,
            !has_duplicate(raw_keys(w@)),
            spec_delete_conflicts(raw_keys(w@), raw_keys(d@).subrange(0, j as int)) is Ok,
        decreases d.len() - j,
    {
        let ghost pre = raw_keys(d@).subrange(0, j as int + 1);
        proof {
            assert(pre.drop_last() =~= raw_keys(d@).subrange(0, j as int));
            assert(pre.last() == raw_key(d@[j as int]));
        }
        if contains_raw(d, j, &d[j]) {
            proof {
                lemma_conflicts_err_extends(raw_keys(w@), raw_keys(d@), j as int + 1);
            }
            return Err(FgaError::BadRequest(str_to_string("duplicate tuple in deletes")));
        }
        if contains_raw(w, w.len(), &d[j]) {
            proof {
                assert(raw_keys(w@).subrange(0, w@.len() as int) =~= raw_keys(w@));
                lemma_conflicts_err_extends(raw_keys(w@), raw_keys(d@), j as int + 1);
            }
            return Err(FgaError::BadRequest(str_to_string("cannot write and delete the same tuple in one request")));
        }
        proof {
            assert(raw_keys(w@).subrange(0, w@.len() as int) =~= raw_keys(w@));
        }
        j = j + 1;
    }
    proof {
        assert(raw_keys(d@).subrange(0, d@.len() as int) =~= raw_keys(d@));
    }
    Ok(())
}

proof fn lemma_conflicts_err_extends(
    writes: Seq<(Seq<char>, Seq<char>, Seq<char>)>,
    deletes: Seq<(Seq<char>, Seq<char>, Seq<char>)>,
    k: int,
)
    requires
        0 <= k <= deletes.len(),
        spec_delete_conflicts(writes, deletes.subrange(0, k)) is Err,
    ensures
        spec_delete_conflicts(writes, deletes) == spec_delete_conflicts(writes, deletes.subrange(0, k)),
    decreases deletes.len() - k,
{
    if k < deletes.len() {
        let pre = deletes.subrange(0, k + 1);
        assert(pre.drop_last() =~= deletes.subrange(0, k));
        lemma_conflicts_err_extends(writes, deletes, k + 1);
    } else {
        assert(deletes.subrange(0, k) =~= deletes);
    }
}

/// Lexicographic order of texts by character code.
pub open spec fn seq_lt(a: Seq<char>, b: Seq<char>) -> bool
    decreases a.len(),
{
    if a.len() == 0 {
        b.len() > 0
    } else if b.len() == 0 {
        false
    } else if a[0] < b[0] {
        true
    } else if a[0] > b[0] {
        false
    } else {
        seq_lt(a.drop_first(), b.drop_first())
    }
}

pub proof fn lemma_seq_lt_transitive(a: Seq<char>, b: Seq<char>, c: Seq<char>)
    requires
        seq_lt(a, b),
        seq_lt(b, c),
    ensures
        seq_lt(a, c),
    decreases a.len(),
{
    if a.len() > 0 && b.len() > 0 && c.len() > 0 {
        if a[0] == b[0] && b[0] == c[0] {
            lemma_seq_lt_transitive(a.drop_first(), b.drop_first(), c.drop_first());
        }
    }
}

pub proof fn lemma_key_lt_irreflexive(a: (Seq<char>, Seq<char>, Seq<char>))
    ensures
        !key_lt(a, a),
{
    lemma_seq_lt_irreflexive(a.0);
    lemma_seq_lt_irreflexive(a.1);
    lemma_seq_lt_irreflexive(a.2);
}

pub proof fn lemma_seq_lt_irreflexive(a: Seq<char>)
    ensures
        !seq_lt(a, a),
    decreases a.len(),
{
    if a.len() > 0 {
        lemma_seq_lt_irreflexive(a.drop_first());
    }
}

/// The order of the table: by object, relation, then user, as text.
pub open spec fn key_lt(a: (Seq<char>, Seq<char>, Seq<char>), b: (Seq<char>, Seq<char>, Seq<char>)) -> bool {
    seq_lt(a.0, b.0) || (a.0 == b.0 && (seq_lt(a.1, b.1) || (a.1 == b.1 && seq_lt(a.2, b.2))))
}

pub proof fn lemma_key_lt_transitive(
    a: (Seq<char>, Seq<char>, Seq<char>),
    b: (Seq<char>, Seq<char>, Seq<char>),
    c: (Seq<char>, Seq<char>, Seq<char>),
)
    requires
        key_lt(a, b),
        key_lt(b, c),
    ensures
        key_lt(a, c),
{
    if seq_lt(a.0, b.0) && seq_lt(b.0, c.0) {
        lemma_seq_lt_transitive(a.0, b.0, c.0);
    }
    if seq_lt(a.1, b.1) && seq_lt(b.1, c.1) {
        lemma_seq_lt_transitive(a.1, b.1, c.1);
    }
    if seq_lt(a.2, b.2) && seq_lt(b.2, c.2) {
        lemma_seq_lt_transitive(a.2, b.2, c.2);
    }
}

pub fn seq_lt_exec(a: &[char], b: &[char]) -> (r: bool)
    ensures
        r == seq_lt(a@, b@),
{
    let mut i: usize = 0;
    assert(a@.subrange(0, a@.len() as int) =~= a@);
    assert(b@.subrange(0, b@.len() as int) =~= b@);
    while i < a.len() && i < b.len()
        invariant
            i <= a@.len(),
            i <= b@.len(),
            forall|j: int| 0 <= j < i ==> a@[j] == b@[j],
            seq_lt(a@, b@) == seq_lt(a@.subrange(i as int, a@.len() as int), b@.subrange(i as int, b@.len() as int)),
        decreases a.len() - i,
    {
        let x = a[i];
        let y = b[i];
        proof {
            let sa = a@.subrange(i as int, a@.len() as int);
            let sb = b@.subrange(i as int, b@.len() as int);
            assert(sa[0] == x && sb[0] == y);
            assert(sa.drop_first() =~= a@.subrange(i + 1, a@.len() as int));
            assert(sb.drop_first() =~= b@.subrange(i + 1, b@.len() as int));
        }
        if x < y {
            return true;
        }
        if x > y {
            return false;
        }
        i = i + 1;
    }
    i < b.len()
}

/// The kind of a change.
#[derive(Clone, Copy, Debug, PartialEq, Eq, Structural)]
pub enum ChangeOperation {
    Write,
    Delete,
}

impl ChangeOperation {
    /// `WRITE` or `DELETE`.
    pub fn as_str(self) -> (r: &'static str)
        ensures
            r@ == match self {
                ChangeOperation::Write => "WRITE"@,
                ChangeOperation::Delete => "DELETE"@,
            },
    {
        match self {
            ChangeOperation::Write => "WRITE",
            ChangeOperation::Delete => "DELETE",
        }
    }
}

/// A stored tuple of one store of one instance.
#[derive(Debug)]
pub struct StoredRow {
    pub scope_id: String,
    pub store_id: String,
    pub object: ObjectRef,
    pub relation: String,
    pub user: UserRef,
    pub raw_object: String,
    pub raw_user: String,
    pub inserted_at: String,
}

/// An entry of the change log.
#[derive(Debug)]
pub struct ChangeRow {
    pub seq: u64,
    pub scope_id: String,
    pub store_id: String,
    pub operation: ChangeOperation,
    pub object: ObjectRef,
    pub relation: String,
    pub user: UserRef,
    pub raw_object: String,
    pub raw_user: String,
    pub authorization_model_id: String,
    pub created_at: String,
}

pub struct RowV {
    pub scope: Seq<char>,
    pub store: Seq<char>,
    pub tuple: TupleV,
    pub inserted_at: Seq<char>,
}

pub struct ChangeV {
    pub scope: Seq<char>,
    pub store: Seq<char>,
    pub operation: ChangeOperation,
    pub tuple: TupleV,
    pub model_id: Seq<char>,
    pub created_at: Seq<char>,
}

impl View for StoredRow {
    type V = RowV;

    open spec fn view(&self) -> RowV {
        RowV {
            scope: self.scope_id@,
            store: self.store_id@,
            tuple: TupleV { user: self.user@, relation: self.relation@, object: self.object@ },
            inserted_at: self.inserted_at@,
        }
    }
}

impl View for ChangeRow {
    type V = ChangeV;

    open spec fn view(&self) -> ChangeV {
        ChangeV {
            scope: self.scope_id@,
            store: self.store_id@,
            operation: self.operation,
            tuple: TupleV { user: self.user@, relation: self.relation@, object: self.object@ },
            model_id: self.authorization_model_id@,
            created_at: self.created_at@,
        }
    }
}

pub open spec fn row_key(r: StoredRow) -> (Seq<char>, Seq<char>, Seq<char>) {
    (r.raw_object@, r.relation@, r.raw_user@)
}

/// The stored form of a user: type, id and relation (empty for none).
pub open spec fn user_key(u: UserRefV) -> (Seq<char>, Seq<char>, Seq<char>) {
    (
        spec_user_type(u),
        spec_user_id(u),
        match spec_relation_name(u) {
            Some(r) => r,
            None => Seq::empty(),
        },
    )
}

/// Two tuples are the same row of the table.
pub open spec fn same_tuple(a: TupleV, b: TupleV) -> bool {
    a.object == b.object && a.relation == b.relation && user_key(a.user) == user_key(b.user)
}

pub open spec fn row_is(r: RowV, scope: Seq<char>, store: Seq<char>, t: TupleV) -> bool {
    r.scope == scope && r.store == store && same_tuple(r.tuple, t)
}

/// Whether the table holds tuple `t` in store `store` of instance `scope`.
pub open spec fn present(rows: Seq<RowV>, scope: Seq<char>, store: Seq<char>, t: TupleV) -> bool {
    exists|i: int| 0 <= i < rows.len() && row_is(#[trigger] rows[i], scope, store, t)
}

pub open spec fn row_views(s: Seq<StoredRow>) -> Seq<RowV> {
    s.map_values(|r: StoredRow| r@)
}

pub open spec fn change_views(s: Seq<ChangeRow>) -> Seq<ChangeV> {
    s.map_values(|c: ChangeRow| c@)
}

pub open spec fn rows_sorted(rows: Seq<StoredRow>) -> bool {
    forall|i: int, j: int| 0 <= i < j < rows.len() ==> !key_lt(row_key(#[trigger] rows[j]), row_key(#[trigger] rows[i]))
}

pub open spec fn rows_unique(rows: Seq<StoredRow>) -> bool {
    forall|i: int, j: int|
        0 <= i < j < rows.len() ==> !row_is(#[trigger] rows[i]@, rows[j]@.scope, rows[j]@.store, (#[trigger] rows[j])@.tuple)
}

pub open spec fn rows_raw(rows: Seq<StoredRow>) -> bool {
    forall|i: int|
        0 <= i < rows.len() ==> (#[trigger] rows[i]).raw_object@ == spec_object_raw(rows[i].object@)
            && rows[i].raw_user@ == spec_user_raw(rows[i].user@)
}

/// The tuple table and its change log.
#[derive(Debug)]
pub struct TupleStore {
    pub rows: Vec<StoredRow>,
    pub changes: Vec<ChangeRow>,
}

impl TupleStore {
    /// Rows ordered by object, relation and user text; no row twice; raw
    /// texts printed from the parsed references; changes numbered from one.
    pub open spec fn wf(&self) -> bool {
        &&& rows_sorted(self.rows@)
        &&& rows_unique(self.rows@)
        &&& rows_raw(self.rows@)
        &&& forall|i: int| 0 <= i < self.changes@.len() ==> (#[trigger] self.changes@[i]).seq == i + 1
        &&& self.changes@.len() < u64::MAX
    }

    /// An empty table.
    pub fn new() -> (r: TupleStore)
        ensures
            r.wf(),
            r.rows@.len() == 0,
            r.changes@.len() == 0,
    {
        TupleStore { rows: Vec::new(), changes: Vec::new() }
    }
}


pub open spec fn seen(s: Seq<TupleV>, k: int, t: TupleV) -> bool {
    exists|i: int| 0 <= i < k && same_tuple(#[trigger] s[i], t)
}

pub open spec fn parsed_views(s: Seq<ParsedTupleKey>) -> Seq<TupleV> {
    s.map_values(|t: ParsedTupleKey| t@)
}

/// The changes the first `k` writes of a batch record: one per tuple that was
/// not stored yet.
pub open spec fn write_log(
    rows0: Seq<RowV>,
    scope: Seq<char>,
    store: Seq<char>,
    model_id: Seq<char>,
    now: Seq<char>,
    ws: Seq<TupleV>,
    k: nat,
) -> Seq<ChangeV>
    decreases k,
{
    if k == 0 || k > ws.len() {
        Seq::empty()
    } else {
        let p = write_log(rows0, scope, store, model_id, now, ws, (k - 1) as nat);
        let t = ws[k - 1];
        if !present(rows0, scope, store, t) && !seen(ws, k - 1, t) {
            p.push(ChangeV { scope, store, operation: ChangeOperation::Write, tuple: t, model_id, created_at: now })
        } else {
            p
        }
    }
}

/// The changes the first `k` deletes of a batch record, after its writes: one
/// per tuple that was stored.
pub open spec fn delete_log(
    rows0: Seq<RowV>,
    scope: Seq<char>,
    store: Seq<char>,
    model_id: Seq<char>,
    now: Seq<char>,
    ws: Seq<TupleV>,
    ds: Seq<TupleV>,
    k: nat,
) -> Seq<ChangeV>
    decreases k,
{
    if k == 0 || k > ds.len() {
        Seq::empty()
    } else {
        let p = delete_log(rows0, scope, store, model_id, now, ws, ds, (k - 1) as nat);
        let t = ds[k - 1];
        if (present(rows0, scope, store, t) || seen(ws, ws.len() as int, t)) && !seen(ds, k - 1, t) {
            p.push(ChangeV { scope, store, operation: ChangeOperation::Delete, tuple: t, model_id, created_at: now })
        } else {
            p
        }
    }
}

/// A row that is either one of `rows0` or a new row of the batch.
pub open spec fn row_from(r: RowV, rows0: Seq<RowV>, scope: Seq<char>, store: Seq<char>, ws: Seq<TupleV>, now: Seq<char>) -> bool {
    rows0.contains(r) || (r.scope == scope && r.store == store && ws.contains(r.tuple) && r.inserted_at == now)
}

proof fn lemma_row_views_insert(rows: Seq<StoredRow>, p: int, r: StoredRow)
    requires
        0 <= p <= rows.len(),
    ensures
        row_views(rows.insert(p, r)) == row_views(rows).insert(p, r@),
{
    assert(row_views(rows.insert(p, r)) =~= row_views(rows).insert(p, r@));
}

proof fn lemma_row_views_remove(rows: Seq<StoredRow>, p: int)
    requires
        0 <= p < rows.len(),
    ensures
        row_views(rows.remove(p)) == row_views(rows).remove(p),
{
    assert(row_views(rows.remove(p)) =~= row_views(rows).remove(p));
}

proof fn lemma_present_insert(rows: Seq<RowV>, p: int, r: RowV, scope: Seq<char>, store: Seq<char>, t: TupleV)
    requires
        0 <= p <= rows.len(),
    ensures
        present(rows.insert(p, r), scope, store, t) == (present(rows, scope, store, t) || row_is(r, scope, store, t)),
{
    let s = rows.insert(p, r);
    if present(rows, scope, store, t) {
        let i = choose|i: int| 0 <= i < rows.len() && row_is(#[trigger] rows[i], scope, store, t);
        if i < p {
            assert(s[i] == rows[i]);
        } else {
            assert(s[i + 1] == rows[i]);
        }
    }
    if row_is(r, scope, store, t) {
        assert(s[p] == r);
    }
    if present(s, scope, store, t) {
        let i = choose|i: int| 0 <= i < s.len() && row_is(#[trigger] s[i], scope, store, t);
        if i < p {
            assert(s[i] == rows[i]);
        } else if i > p {
            assert(s[i] == rows[i - 1]);
        }
    }
}

proof fn lemma_same_tuple_trans(a: TupleV, b: TupleV, c: TupleV)
    requires
        same_tuple(a, b),
        same_tuple(b, c),
    ensures
        same_tuple(a, c),
        same_tuple(b, a),
{
}

impl TupleStore {
    fn find_row(&self, scope: &str, store: &str, t: &ParsedTupleKey) -> (r: Option<usize>)
        ensures
            match r {
                Some(i) => i < self.rows@.len() && row_is(self.rows@[i as int]@, scope@, store@, t@),
                None => !present(row_views(self.rows@), scope@, store@, t@),
            },
    {
        let t_type = t.user.user_type();
        let t_id = t.user.user_id();
        let t_rel = match t.user.relation_name() {
            Some(r) => r,
            None => "",
        };
        proof {
            reveal_strlit("");
            assert(""@ =~= Seq::<char>::empty());
        }
        let mut i: usize = 0;
        while i < self.rows.len()
            invariant
                i <= self.rows@.len(),
                t_type@ == user_key(t.user@).0,
                t_id@ == user_key(t.user@).1,
                t_rel@ == user_key(t.user@).2,
                forall|j: int| 0 <= j < i ==> !row_is(#[trigger] row_views(self.rows@)[j], scope@, store@, t@),
            decreases self.rows.len() - i,
        {
            let row = &self.rows[i];
            let r_rel = match row.user.relation_name() {
                Some(r) => r,
                None => "",
            };
            proof {
                reveal_strlit("");
                assert(""@ =~= Seq::<char>::empty());
            }
            let same = str_eq(row.scope_id.as_str(), scope) && str_eq(row.store_id.as_str(), store) && object_ref_eq(
                &row.object,
                &t.object,
            ) && str_eq(row.relation.as_str(), t.relation.as_str()) && str_eq(row.user.user_type(), t_type)
                && str_eq(row.user.user_id(), t_id) && str_eq(r_rel, t_rel);
            assert(row_views(self.rows@)[i as int] == row@);
            if same {
                return Some(i);
            }
            i = i + 1;
        }
        None
    }

    fn insert_sorted(&mut self, row: StoredRow) -> (p: usize)
        requires
            old(self).wf(),
            row.raw_object@ == spec_object_raw(row.object@),
            row.raw_user@ == spec_user_raw(row.user@),
            !present(row_views(old(self).rows@), row@.scope, row@.store, row@.tuple),
        ensures
            final(self).wf(),
            p <= old(self).rows@.len(),
            final(self).rows@ == old(self).rows@.insert(p as int, row),
            final(self).changes == old(self).changes,
    {
        let ko = chars_of(row.raw_object.as_str());
        let kr = chars_of(row.relation.as_str());
        let ku = chars_of(row.raw_user.as_str());
        let mut p: usize = 0;
        while p < self.rows.len()
            invariant
                p <= self.rows@.len(),
                ko@ == row.raw_object@,
                kr@ == row.relation@,
                ku@ == row.raw_user@,
                forall|j: int| 0 <= j < p ==> !key_lt(row_key(row), row_key(#[trigger] self.rows@[j])),
            ensures
                p <= self.rows@.len(),
                forall|j: int| 0 <= j < p ==> !key_lt(row_key(row), row_key(#[trigger] self.rows@[j])),
                p < self.rows@.len() ==> key_lt(row_key(row), row_key(self.rows@[p as int])),
            decreases self.rows.len() - p,
        {
            let r = &self.rows[p];
            let ro = chars_of(r.raw_object.as_str());
            let rr = chars_of(r.relation.as_str());
            let ru = chars_of(r.raw_user.as_str());
            let lt0 = seq_lt_exec(ko.as_slice(), ro.as_slice());
            let eq0 = str_eq(row.raw_object.as_str(), r.raw_object.as_str());
            let lt1 = seq_lt_exec(kr.as_slice(), rr.as_slice());
            let eq1 = str_eq(row.relation.as_str(), r.relation.as_str());
            let lt2 = seq_lt_exec(ku.as_slice(), ru.as_slice());
            if lt0 || (eq0 && (lt1 || (eq1 && lt2))) {
                break;
            }
            p = p + 1;
        }
        let ghost old_rows = self.rows@;
        proof {
            assert forall|j: int| p <= j < old_rows.len() implies !key_lt(row_key(#[trigger] old_rows[j]), row_key(row)) by {
                if key_lt(row_key(old_rows[j]), row_key(row)) {
                    lemma_key_lt_transitive(row_key(old_rows[j]), row_key(row), row_key(old_rows[p as int]));
                    lemma_key_lt_irreflexive(row_key(old_rows[j]));
                }
            }
        }
        self.rows.insert(p, row);
        proof {
            let s = self.rows@;
            assert forall|i: int, j: int| 0 <= i < j < s.len() implies !key_lt(row_key(#[trigger] s[j]), row_key(#[trigger] s[i])) by {
                if i < p && j < p {
                    assert(s[i] == old_rows[i] && s[j] == old_rows[j]);
                } else if i < p && j == p {
                    assert(s[i] == old_rows[i]);
                } else if i < p && j > p {
                    assert(s[i] == old_rows[i] && s[j] == old_rows[j - 1]);
                } else if i == p {
                    assert(s[j] == old_rows[j - 1]);
                } else {
                    assert(s[i] == old_rows[i - 1] && s[j] == old_rows[j - 1]);
                }
            }
            assert forall|i: int, j: int| 0 <= i < j < s.len() implies !row_is(
                #[trigger] s[i]@,
                s[j]@.scope,
                s[j]@.store,
                (#[trigger] s[j])@.tuple,
            ) by {
                if i == p {
                    assert(s[j] == old_rows[j - 1]);
                    assert(row_views(old_rows)[j - 1] == old_rows[j - 1]@);
                    if row_is(s[i]@, s[j]@.scope, s[j]@.store, s[j]@.tuple) {
                        lemma_same_tuple_trans(row@.tuple, s[j]@.tuple, s[j]@.tuple);
                    }
                } else if j == p {
                    assert(s[i] == old_rows[i]);
                    assert(row_views(old_rows)[i] == old_rows[i]@);
                    if row_is(s[i]@, s[j]@.scope, s[j]@.store, s[j]@.tuple) {
                        lemma_same_tuple_trans(s[i]@.tuple, row@.tuple, row@.tuple);
                        assert(row_is(row_views(old_rows)[i], row@.scope, row@.store, row@.tuple));
                    }
                } else if i < p && j > p {
                    assert(s[i] == old_rows[i] && s[j] == old_rows[j - 1]);
                } else if j < p {
                    assert(s[i] == old_rows[i] && s[j] == old_rows[j]);
                } else {
                    assert(s[i] == old_rows[i - 1] && s[j] == old_rows[j - 1]);
                }
            }
            assert forall|i: int| 0 <= i < s.len() implies (#[trigger] s[i]).raw_object@ == spec_object_raw(
                s[i].object@,
            ) && s[i].raw_user@ == spec_user_raw(s[i].user@) by {
                if i < p {
                    assert(s[i] == old_rows[i]);
                } else if i > p {
                    assert(s[i] == old_rows[i - 1]);
                }
            }
        }
        p
    }
}


/// The stores after a batch on store `store` of instance `scope`: there a
/// tuple is stored iff it was stored or written, and not deleted; every other
/// store holds what it held.
pub open spec fn write_applied(
    before: Seq<RowV>,
    after: Seq<RowV>,
    scope: Seq<char>,
    store: Seq<char>,
    ws: Seq<TupleV>,
    ds: Seq<TupleV>,
) -> bool {
    forall|sc: Seq<char>, st: Seq<char>, t: TupleV|
        #[trigger] present(after, sc, st, t) == (if sc == scope && st == store {
            (present(before, sc, st, t) || seen(ws, ws.len() as int, t)) && !seen(ds, ds.len() as int, t)
        } else {
            present(before, sc, st, t)
        })
}

proof fn lemma_present_remove(rows: Seq<StoredRow>, i: int, scope: Seq<char>, store: Seq<char>, t: TupleV)
    requires
        0 <= i < rows.len(),
        rows_unique(rows),
    ensures
        present(row_views(rows.remove(i)), scope, store, t) == (present(row_views(rows), scope, store, t) && !row_is(
            rows[i]@,
            scope,
            store,
            t,
        )),
{
    let s = rows.remove(i);
    lemma_row_views_remove(rows, i);
    if present(row_views(s), scope, store, t) {
        let j = choose|j: int| 0 <= j < row_views(s).len() && row_is(#[trigger] row_views(s)[j], scope, store, t);
        let jj = if j < i {
            j
        } else {
            j + 1
        };
        assert(row_views(rows)[jj] == rows[jj]@);
        if row_is(rows[i]@, scope, store, t) {
            lemma_same_tuple_trans(rows[i]@.tuple, t, rows[jj]@.tuple);
            lemma_same_tuple_trans(rows[jj]@.tuple, t, rows[i]@.tuple);
            if i < jj {
                assert(!row_is(rows[i]@, rows[jj]@.scope, rows[jj]@.store, rows[jj]@.tuple));
            } else {
                assert(!row_is(rows[jj]@, rows[i]@.scope, rows[i]@.store, rows[i]@.tuple));
            }
        }
    }
    if present(row_views(rows), scope, store, t) && !row_is(rows[i]@, scope, store, t) {
        let j = choose|j: int| 0 <= j < row_views(rows).len() && row_is(#[trigger] row_views(rows)[j], scope, store, t);
        assert(j != i);
        if j < i {
            assert(row_views(s)[j] == row_views(rows)[j]);
        } else {
            assert(row_views(s)[j - 1] == row_views(rows)[j]);
        }
    }
}

proof fn lemma_wf_remove(rows: Seq<StoredRow>, i: int)
    requires
        0 <= i < rows.len(),
        rows_unique(rows),
        rows_sorted(rows),
        rows_raw(rows),
    ensures
        rows_unique(rows.remove(i)),
        rows_sorted(rows.remove(i)),
        rows_raw(rows.remove(i)),
{
    let s = rows.remove(i);
    assert forall|a: int, b: int| 0 <= a < b < s.len() implies !key_lt(row_key(#[trigger] s[b]), row_key(#[trigger] s[a])) by {
        let aa = if a < i { a } else { a + 1 };
        let bb = if b < i { b } else { b + 1 };
        assert(s[a] == rows[aa] && s[b] == rows[bb]);
    }
    assert forall|a: int, b: int|
        0 <= a < b < s.len() implies !row_is(#[trigger] s[a]@, s[b]@.scope, s[b]@.store, (#[trigger] s[b])@.tuple) by {
        let aa = if a < i { a } else { a + 1 };
        let bb = if b < i { b } else { b + 1 };
        assert(s[a] == rows[aa] && s[b] == rows[bb]);
    }
    assert forall|a: int| 0 <= a < s.len() implies (#[trigger] s[a]).raw_object@ == spec_object_raw(s[a].object@)
        && s[a].raw_user@ == spec_user_raw(s[a].user@) by {
        let aa = if a < i { a } else { a + 1 };
        assert(s[a] == rows[aa]);
    }
}

impl TupleStore {
    /// Applies a batch to store `store` of instance `scope`: every written
    /// tuple that is not stored yet is inserted and logged as a write, then
    /// every deleted tuple that is stored is removed and logged as a delete.
    /// Other stores are left as they were.
    pub fn apply_write(
        &mut self,
        scope: &str,
        store: &str,
        model_id: &str,
        now: &str,
        writes: &Vec<ParsedTupleKey>,
        deletes: &Vec<ParsedTupleKey>,
    )
        requires
            old(self).wf(),
            old(self).changes@.len() + writes@.len() + deletes@.len() < u64::MAX,
        ensures
            final(self).wf(),
            write_applied(
                row_views(old(self).rows@),
                row_views(final(self).rows@),
                scope@,
                store@,
                parsed_views(writes@),
                parsed_views(deletes@),
            ),
            forall|i: int|
                0 <= i < final(self).rows@.len() ==> row_from(
                    (#[trigger] final(self).rows@[i])@,
                    row_views(old(self).rows@),
                    scope@,
                    store@,
                    parsed_views(writes@),
                    now@,
                ),
            change_views(final(self).changes@) == change_views(old(self).changes@) + write_log(
                row_views(old(self).rows@),
                scope@,
                store@,
                model_id@,
                now@,
                parsed_views(writes@),
                writes@.len(),
            ) + delete_log(
                row_views(old(self).rows@),
                scope@,
                store@,
                model_id@,
                now@,
                parsed_views(writes@),
                parsed_views(deletes@),
                deletes@.len(),
            ),
    {
        let ghost rows0 = row_views(self.rows@);
        let ghost changes0 = change_views(self.changes@);
        let ghost ws = parsed_views(writes@);
        let ghost ds = parsed_views(deletes@);
        let ghost start_len = self.changes@.len();
        proof {
            assert forall|i: int| 0 <= i < self.rows@.len() implies row_from(
                (#[trigger] self.rows@[i])@,
                rows0,
                scope@,
                store@,
                ws,
                now@,
            ) by {
                assert(rows0[i] == self.rows@[i]@);
            }
            assert(change_views(self.changes@) =~= changes0 + write_log(rows0, scope@, store@, model_id@, now@, ws, 0));
        }
        let mut k: usize = 0;
        while k < writes.len()
            invariant
                self.wf(),
                k <= writes@.len(),
                ws == parsed_views(writes@),
                ds == parsed_views(deletes@),
                start_len + writes@.len() + deletes@.len() < u64::MAX,
                self.changes@.len() <= start_len + k,
                forall|sc: Seq<char>, st: Seq<char>, t: TupleV|
                    #[trigger] present(row_views(self.rows@), sc, st, t) == (if sc == scope@ && st == store@ {
                        present(rows0, sc, st, t) || seen(ws, k as int, t)
                    } else {
                        present(rows0, sc, st, t)
                    }),
                forall|i: int|
                    0 <= i < self.rows@.len() ==> row_from((#[trigger] self.rows@[i])@, rows0, scope@, store@, ws, now@),
                change_views(self.changes@) == changes0 + write_log(rows0, scope@, store@, model_id@, now@, ws, k as nat),
            decreases writes.len() - k,
        {
            let t = &writes[k];
            let ghost tv = t@;
            assert(ws[k as int] == tv);
            match self.find_row(scope, store, t) {
                Some(i) => {
                    proof {
                        assert(row_views(self.rows@)[i as int] == self.rows@[i as int]@);
                        assert(present(row_views(self.rows@), scope@, store@, tv));
                        assert forall|sc: Seq<char>, st: Seq<char>, t2: TupleV|
                            #[trigger] present(row_views(self.rows@), sc, st, t2) == (if sc == scope@ && st == store@ {
                                present(rows0, sc, st, t2) || seen(ws, k as int + 1, t2)
                            } else {
                                present(rows0, sc, st, t2)
                            }) by {
                            if sc == scope@ && st == store@ && same_tuple(ws[k as int], t2) {
                                lemma_same_tuple_trans(self.rows@[i as int]@.tuple, tv, t2);
                                assert(row_is(row_views(self.rows@)[i as int], sc, st, t2));
                            }
                            if seen(ws, k as int + 1, t2) && !seen(ws, k as int, t2) {
                                assert(same_tuple(ws[k as int], t2));
                            }
                        }
                    }
                },
                None => {
                    let raw_object = t.object.as_raw();
                    let raw_user = t.user.as_raw();
                    let row = StoredRow {
                        scope_id: str_to_string(scope),
                        store_id: str_to_string(store),
                        object: clone_object_ref(&t.object),
                        relation: copy_string(&t.relation),
                        user: clone_user_ref(&t.user),
                        raw_object,
                        raw_user,
                        inserted_at: str_to_string(now),
                    };
                    let ghost rv = row@;
                    let ghost before = self.rows@;
                    let p = self.insert_sorted(row);
                    proof {
                        lemma_row_views_insert(before, p as int, self.rows@[p as int]);
                        assert(self.rows@[p as int]@ == rv);
                        assert forall|sc: Seq<char>, st: Seq<char>, t2: TupleV|
                            #[trigger] present(row_views(self.rows@), sc, st, t2) == (if sc == scope@ && st == store@ {
                                present(rows0, sc, st, t2) || seen(ws, k as int + 1, t2)
                            } else {
                                present(rows0, sc, st, t2)
                            }) by {
                            lemma_present_insert(row_views(before), p as int, rv, sc, st, t2);
                            if seen(ws, k as int + 1, t2) && !seen(ws, k as int, t2) {
                                assert(same_tuple(ws[k as int], t2));
                            }
                            if row_is(rv, sc, st, t2) {
                                assert(same_tuple(ws[k as int], t2));
                            }
                        }
                        assert forall|i: int| 0 <= i < self.rows@.len() implies row_from(
                            (#[trigger] self.rows@[i])@,
                            rows0,
                            scope@,
                            store@,
                            ws,
                            now@,
                        ) by {
                            if i < p {
                                assert(self.rows@[i] == before[i]);
                            } else if i > p {
                                assert(self.rows@[i] == before[i - 1]);
                            } else {
                                assert(ws.contains(rv.tuple)) by {
                                    assert(ws[k as int] == rv.tuple);
                                }
                            }
                        }
                    }
                    let seq = self.changes.len() as u64 + 1;
                    let ghost cb = self.changes@;
                    self.changes.push(
                        ChangeRow {
                            seq,
                            scope_id: str_to_string(scope),
                            store_id: str_to_string(store),
                            operation: ChangeOperation::Write,
                            object: clone_object_ref(&t.object),
                            relation: copy_string(&t.relation),
                            user: clone_user_ref(&t.user),
                            raw_object: t.object.as_raw(),
                            raw_user: t.user.as_raw(),
                            authorization_model_id: str_to_string(model_id),
                            created_at: str_to_string(now),
                        },
                    );
                    proof {
                        assert(change_views(self.changes@) =~= change_views(cb).push(self.changes@.last()@));
                        assert forall|i: int| 0 <= i < self.changes@.len() implies (#[trigger] self.changes@[i]).seq == i + 1 by {
                            if i < cb.len() {
                                assert(self.changes@[i] == cb[i]);
                            }
                        }
                    }
                },
            }
            k = k + 1;
        }
        let ghost mid_changes = change_views(self.changes@);
        let mut k: usize = 0;
        while k < deletes.len()
            invariant
                self.wf(),
                k <= deletes@.len(),
                ws == parsed_views(writes@),
                ds == parsed_views(deletes@),
                start_len + writes@.len() + deletes@.len() < u64::MAX,
                self.changes@.len() <= start_len + writes@.len() + k,
                forall|sc: Seq<char>, st: Seq<char>, t: TupleV|
                    #[trigger] present(row_views(self.rows@), sc, st, t) == (if sc == scope@ && st == store@ {
                        (present(rows0, sc, st, t) || seen(ws, ws.len() as int, t)) && !seen(ds, k as int, t)
                    } else {
                        present(rows0, sc, st, t)
                    }),
                forall|i: int|
                    0 <= i < self.rows@.len() ==> row_from((#[trigger] self.rows@[i])@, rows0, scope@, store@, ws, now@),
                mid_changes == changes0 + write_log(rows0, scope@, store@, model_id@, now@, ws, writes@.len()),
                change_views(self.changes@) == mid_changes + delete_log(
                    rows0,
                    scope@,
                    store@,
                    model_id@,
                    now@,
                    ws,
                    ds,
                    k as nat,
                ),
            decreases deletes.len() - k,
        {
            let t = &deletes[k];
            let ghost tv = t@;
            assert(ds[k as int] == tv);
            match self.find_row(scope, store, t) {
                Some(i) => {
                    let ghost before = self.rows@;
                    proof {
                        assert(row_views(before)[i as int] == before[i as int]@);
                        assert(present(row_views(before), scope@, store@, tv));
                    }
                    self.rows.remove(i);
                    proof {
                        lemma_wf_remove(before, i as int);
                        assert forall|sc: Seq<char>, st: Seq<char>, t2: TupleV|
                            #[trigger] present(row_views(self.rows@), sc, st, t2) == (if sc == scope@ && st == store@ {
                                (present(rows0, sc, st, t2) || seen(ws, ws.len() as int, t2)) && !seen(ds, k as int + 1, t2)
                            } else {
                                present(rows0, sc, st, t2)
                            }) by {
                            lemma_present_remove(before, i as int, sc, st, t2);
                            if row_is(before[i as int]@, sc, st, t2) {
                                lemma_same_tuple_trans(tv, before[i as int]@.tuple, t2);
                                lemma_same_tuple_trans(before[i as int]@.tuple, tv, tv);
                                assert(same_tuple(ds[k as int], t2));
                            }
                            if seen(ds, k as int + 1, t2) && !seen(ds, k as int, t2) {
                                assert(same_tuple(ds[k as int], t2));
                                lemma_same_tuple_trans(before[i as int]@.tuple, tv, t2);
                            }
                        }
                        assert forall|j: int| 0 <= j < self.rows@.len() implies row_from(
                            (#[trigger] self.rows@[j])@,
                            rows0,
                            scope@,
                            store@,
                            ws,
                            now@,
                        ) by {
                            if j < i {
                                assert(self.rows@[j] == before[j]);
                            } else {
                                assert(self.rows@[j] == before[j + 1]);
                            }
                        }
                    }
                    let seq = self.changes.len() as u64 + 1;
                    let ghost cb = self.changes@;
                    self.changes.push(
                        ChangeRow {
                            seq,
                            scope_id: str_to_string(scope),
                            store_id: str_to_string(store),
                            operation: ChangeOperation::Delete,
                            object: clone_object_ref(&t.object),
                            relation: copy_string(&t.relation),
                            user: clone_user_ref(&t.user),
                            raw_object: t.object.as_raw(),
                            raw_user: t.user.as_raw(),
                            authorization_model_id: str_to_string(model_id),
                            created_at: str_to_string(now),
                        },
                    );
                    proof {
                        assert(change_views(self.changes@) =~= change_views(cb).push(self.changes@.last()@));
                        assert forall|j: int| 0 <= j < self.changes@.len() implies (#[trigger] self.changes@[j]).seq == j + 1 by {
                            if j < cb.len() {
                                assert(self.changes@[j] == cb[j]);
                            }
                        }
                    }
                },
                None => {
                    proof {
                        assert forall|sc: Seq<char>, st: Seq<char>, t2: TupleV|
                            #[trigger] present(row_views(self.rows@), sc, st, t2) == (if sc == scope@ && st == store@ {
                                (present(rows0, sc, st, t2) || seen(ws, ws.len() as int, t2)) && !seen(ds, k as int + 1, t2)
                            } else {
                                present(rows0, sc, st, t2)
                            }) by {
                            if seen(ds, k as int + 1, t2) && !seen(ds, k as int, t2) {
                                assert(same_tuple(ds[k as int], t2));
                                if present(row_views(self.rows@), sc, st, t2) && sc == scope@ && st == store@ {
                                    let j = choose|j: int|
                                        0 <= j < row_views(self.rows@).len() && row_is(
                                            #[trigger] row_views(self.rows@)[j],
                                            sc,
                                            st,
                                            t2,
                                        );
                                    lemma_same_tuple_trans(row_views(self.rows@)[j].tuple, t2, tv);
                                    lemma_same_tuple_trans(tv, t2, t2);
                                    assert(row_is(row_views(self.rows@)[j], scope@, store@, tv));
                                }
                            }
                        }
                    }
                },
            }
            k = k + 1;
        }
    }
}


/// The parsed tuples of a batch, or the first parse error.
pub open spec fn spec_parse_all(s: Seq<TupleKey>) -> Result<Seq<TupleV>, FgaErrorV>
    decreases s.len(),
{
    if s.len() == 0 {
        Ok(Seq::empty())
    } else {
        match spec_parse_all(s.drop_last()) {
            Err(e) => Err(e),
            Ok(p) => match spec_parse_tuple(s.last().user@, s.last().relation@, s.last().object@) {
                Err(e) => Err(e),
                Ok(t) => Ok(p.push(t)),
            },
        }
    }
}

pub open spec fn conditional_tuple_text() -> Seq<char> {
    "conditional tuples are not supported by the embedded v1 server"@
}

/// The first written tuple that carries a condition or breaks the model.
pub open spec fn spec_check_writes(m: ModelV, keys: Seq<TupleKey>, parsed: Seq<TupleV>, k: nat) -> Result<(), FgaErrorV>
    decreases k,
{
    if k == 0 || k > keys.len() || k > parsed.len() {
        Ok(())
    } else {
        match spec_check_writes(m, keys, parsed, (k - 1) as nat) {
            Err(e) => Err(e),
            Ok(()) => if keys[k - 1].condition is Some {
                Err(FgaErrorV::Unsupported(conditional_tuple_text()))
            } else {
                spec_validate_tuple(m, parsed[k - 1])
            },
        }
    }
}

/// What a write request amounts to under a model: its parsed writes and
/// deletes, or the first error (duplicates, then parsing the writes, then the
/// deletes, then the rules for each write).
pub open spec fn spec_plan_write(m: ModelV, writes: Seq<TupleKey>, deletes: Seq<TupleKey>) -> Result<
    (Seq<TupleV>, Seq<TupleV>),
    FgaErrorV,
> {
    match spec_validate_duplicates(writes, deletes) {
        Err(msg) => Err(FgaErrorV::BadRequest(msg)),
        Ok(()) => match spec_parse_all(writes) {
            Err(e) => Err(e),
            Ok(pw) => match spec_parse_all(deletes) {
                Err(e) => Err(e),
                Ok(pd) => match spec_check_writes(m, writes, pw, writes.len()) {
                    Err(e) => Err(e),
                    Ok(()) => Ok((pw, pd)),
                },
            },
        },
    }
}

proof fn lemma_parse_all_err_extends(s: Seq<TupleKey>, k: int)
    requires
        0 <= k <= s.len(),
        spec_parse_all(s.subrange(0, k)) is Err,
    ensures
        spec_parse_all(s) == spec_parse_all(s.subrange(0, k)),
    decreases s.len() - k,
{
    if k < s.len() {
        let pre = s.subrange(0, k + 1);
        assert(pre.drop_last() =~= s.subrange(0, k));
        lemma_parse_all_err_extends(s, k + 1);
    } else {
        assert(s.subrange(0, k) =~= s);
    }
}

proof fn lemma_check_writes_err_extends(m: ModelV, keys: Seq<TupleKey>, parsed: Seq<TupleV>, k: nat, n: nat)
    requires
        k <= n,
        n <= keys.len(),
        n <= parsed.len(),
        spec_check_writes(m, keys, parsed, k) is Err,
    ensures
        spec_check_writes(m, keys, parsed, n) == spec_check_writes(m, keys, parsed, k),
    decreases n - k,
{
    if k < n {
        lemma_check_writes_err_extends(m, keys, parsed, k, (n - 1) as nat);
    }
}

/// Parses a batch of tuples, stopping at the first error.
pub fn parse_all(keys: Vec<TupleKey>) -> (r: Result<Vec<ParsedTupleKey>, FgaError>)
    ensures
        match r {
            Ok(p) => spec_parse_all(keys@) == Ok::<Seq<TupleV>, FgaErrorV>(parsed_views(p@)) && p@.len() == keys@.len()
                && forall|i: int| 0 <= i < p@.len() ==> (#[trigger] p@[i]).condition == keys@[i].condition,
            Err(e) => spec_parse_all(keys@) == Err::<Seq<TupleV>, FgaErrorV>(e@),
        },
{
    let ghost all = keys@;
    assert(all.len() == keys.len());
    let mut rest = keys;
    let mut out: Vec<ParsedTupleKey> = Vec::new();
    let mut k: usize = 0;
    assert(all.subrange(0, 0) =~= Seq::<TupleKey>::empty());
    assert(parsed_views(out@) =~= Seq::<TupleV>::empty());
    assert(all.subrange(0, all.len() as int) =~= all);
    while rest.len() > 0
        invariant
            k <= all.len(),
            all == keys@,
            all.len() <= usize::MAX,
            rest@ == all.subrange(k as int, all.len() as int),
            out@.len() == k,
            forall|i: int| 0 <= i < k ==> (#[trigger] out@[i]).condition == all[i].condition,
            spec_parse_all(all.subrange(0, k as int)) == Ok::<Seq<TupleV>, FgaErrorV>(parsed_views(out@)),
        decreases rest.len(),
    {
        let t = rest.remove(0);
        proof {
            assert(t == all[k as int]);
            let pre = all.subrange(0, k as int + 1);
            assert(pre.drop_last() =~= all.subrange(0, k as int));
            assert(pre.last() == all[k as int]);
            assert(rest@ =~= all.subrange(k as int + 1, all.len() as int));
        }
        match ParsedTupleKey::parse(t) {
            Ok(p) => {
                let ghost old_out = out@;
                out.push(p);
                proof {
                    assert(parsed_views(out@) =~= parsed_views(old_out).push(out@.last()@));
                }
            },
            Err(e) => {
                proof {
                    lemma_parse_all_err_extends(all, k as int + 1);
                }
                return Err(e);
            },
        }
        k = k + 1;
    }
    assert(all.subrange(0, all.len() as int) =~= all);
    Ok(out)
}

/// Checks a write request against a model and parses its tuples.
pub fn plan_write(model: &CompiledModel, request: WriteRequest) -> (r: Result<
    (Vec<ParsedTupleKey>, Vec<ParsedTupleKey>),
    FgaError,
>)
    ensures
        match r {
            Ok((w, d)) => spec_plan_write(model@, request.writes.tuple_keys@, request.deletes.tuple_keys@) == Ok::<
                (Seq<TupleV>, Seq<TupleV>),
                FgaErrorV,
            >((parsed_views(w@), parsed_views(d@))),
            Err(e) => spec_plan_write(model@, request.writes.tuple_keys@, request.deletes.tuple_keys@) == Err::<
                (Seq<TupleV>, Seq<TupleV>),
                FgaErrorV,
            >(e@),
        },
{
    let ghost wk = request.writes.tuple_keys@;
    let ghost dk = request.deletes.tuple_keys@;
    if let Err(e) = validate_duplicate_request_tuples(&request) {
        return Err(e);
    }
    let writes = match parse_all(request.writes.tuple_keys) {
        Ok(w) => w,
        Err(e) => {
            return Err(e);
        },
    };
    let deletes = match parse_all(request.deletes.tuple_keys) {
        Ok(d) => d,
        Err(e) => {
            return Err(e);
        },
    };
    let mut k: usize = 0;
    while k < writes.len()
        invariant
            k <= writes@.len(),
            wk == request.writes.tuple_keys@,
            dk == request.deletes.tuple_keys@,
            spec_validate_duplicates(wk, dk) is Ok,
            spec_parse_all(wk) == Ok::<Seq<TupleV>, FgaErrorV>(parsed_views(writes@)),
            spec_parse_all(dk) == Ok::<Seq<TupleV>, FgaErrorV>(parsed_views(deletes@)),
            writes@.len() == wk.len(),
            forall|i: int| 0 <= i < writes@.len() ==> (#[trigger] writes@[i]).condition == wk[i].condition,
            spec_check_writes(model@, wk, parsed_views(writes@), k as nat) is Ok,
        decreases writes.len() - k,
    {
        let p = &writes[k];
        assert(parsed_views(writes@)[k as int] == p@);
        if p.condition.is_some() {
            proof {
                lemma_check_writes_err_extends(model@, wk, parsed_views(writes@), (k + 1) as nat, wk.len());
            }
            return Err(FgaError::Unsupported(str_to_string("conditional tuples are not supported by the embedded v1 server")));
        }
        if let Err(e) = model.validate_tuple(p) {
            proof {
                lemma_check_writes_err_extends(model@, wk, parsed_views(writes@), (k + 1) as nat, wk.len());
            }
            return Err(e);
        }
        k = k + 1;
    }
    Ok((writes, deletes))
}


/// The offset a continuation token stands for: zero for none or an empty
/// token, else the token read as a decimal `i64`.
pub open spec fn spec_decode_offset(token: Option<Seq<char>>) -> Result<int, FgaErrorV> {
    match token {
        None => Ok(0),
        Some(t) => if t.len() == 0 {
            Ok(0)
        } else {
            match spec_parse_i64(t) {
                Some(v) => Ok(v),
                None => Err(FgaErrorV::BadRequest("invalid continuation token"@)),
            }
        },
    }
}

pub open spec fn opt_str_view(o: Option<&str>) -> Option<Seq<char>> {
    match o {
        Some(s) => Some(s@),
        None => None,
    }
}

/// Reads a continuation token.
pub fn decode_offset(token: Option<&str>) -> (r: Result<i64, FgaError>)
    ensures
        match r {
            Ok(v) => spec_decode_offset(opt_str_view(token)) == Ok::<int, FgaErrorV>(v as int),
            Err(e) => spec_decode_offset(opt_str_view(token)) == Err::<int, FgaErrorV>(e@),
        },
{
    match token {
        None => Ok(0),
        Some(t) => {
            if t.is_empty() {
                return Ok(0);
            }
            match parse_i64(t) {
                Some(v) => Ok(v),
                None => Err(FgaError::BadRequest(str_to_string("invalid continuation token"))),
            }
        },
    }
}

/// A filter of a tuple read; a missing or empty field matches anything.
#[derive(Debug)]
pub struct TupleFilter {
    pub user: Option<String>,
    pub relation: Option<String>,
    pub object: Option<String>,
}

/// A request to read tuples.
#[derive(Debug)]
pub struct ReadRequest {
    pub tuple_key: Option<TupleFilter>,
    pub page_size: Option<u32>,
    pub continuation_token: Option<String>,
}

/// A tuple read back, with the time it was written.
#[derive(Debug)]
pub struct TupleRecord {
    pub key: TupleKey,
    pub timestamp: Option<String>,
}

/// A page of tuples.
#[derive(Debug)]
pub struct ReadResponse {
    pub tuples: Vec<TupleRecord>,
    pub continuation_token: Option<String>,
}

/// A change read back.
#[derive(Debug)]
pub struct TupleChangeRecord {
    pub tuple_key: TupleKey,
    pub operation: String,
    pub timestamp: String,
}

/// A page of changes.
#[derive(Debug)]
pub struct ReadChangesResponse {
    pub changes: Vec<TupleChangeRecord>,
    pub continuation_token: Option<String>,
}

pub open spec fn filter_text(o: Option<String>) -> Seq<char> {
    match o {
        Some(s) => s@,
        None => Seq::empty(),
    }
}

pub open spec fn field_matches(filter: Seq<char>, value: Seq<char>) -> bool {
    filter.len() == 0 || filter == value
}

pub open spec fn row_selected(
    r: StoredRow,
    scope: Seq<char>,
    store: Seq<char>,
    fu: Seq<char>,
    fr: Seq<char>,
    fo: Seq<char>,
) -> bool {
    r.scope_id@ == scope && r.store_id@ == store && field_matches(fu, r.raw_user@) && field_matches(fr, r.relation@)
        && field_matches(fo, r.raw_object@)
}

/// The rows a read selects, in table order.
pub open spec fn selected_rows(
    rows: Seq<StoredRow>,
    scope: Seq<char>,
    store: Seq<char>,
    fu: Seq<char>,
    fr: Seq<char>,
    fo: Seq<char>,
) -> Seq<StoredRow>
    decreases rows.len(),
{
    if rows.len() == 0 {
        Seq::empty()
    } else {
        let p = selected_rows(rows.drop_last(), scope, store, fu, fr, fo);
        if row_selected(rows.last(), scope, store, fu, fr, fo) {
            p.push(rows.last())
        } else {
            p
        }
    }
}

proof fn lemma_parse_all_len(s: Seq<TupleKey>)
    ensures
        spec_parse_all(s) matches Ok(p) ==> p.len() == s.len(),
    decreases s.len(),
{
    if s.len() > 0 {
        lemma_parse_all_len(s.drop_last());
    }
}

impl TupleStore {
    /// Validates a write request against the model and applies it to store
    /// `store` of instance `scope`. A refused request leaves every store and
    /// the change log as they were; an accepted one leaves the store holding
    /// its old tuples and the written ones, less the deleted ones.
    pub fn write(
        &mut self,
        model: &CompiledModel,
        scope: &str,
        store: &str,
        model_id: &str,
        now: &str,
        request: WriteRequest,
    ) -> (r: Result<(), FgaError>)
        requires
            old(self).wf(),
            old(self).changes@.len() + request.writes.tuple_keys@.len() + request.deletes.tuple_keys@.len() < u64::MAX,
        ensures
            final(self).wf(),
            match spec_plan_write(model@, request.writes.tuple_keys@, request.deletes.tuple_keys@) {
                Err(e) => r matches Err(err) && err@ == e && final(self).rows@ == old(self).rows@
                    && final(self).changes@ == old(self).changes@,
                Ok((ws, ds)) => r is Ok && write_applied(
                    row_views(old(self).rows@),
                    row_views(final(self).rows@),
                    scope@,
                    store@,
                    ws,
                    ds,
                ),
            },
    {
        let ghost wk = request.writes.tuple_keys@;
        let ghost dk = request.deletes.tuple_keys@;
        proof {
            lemma_parse_all_len(wk);
            lemma_parse_all_len(dk);
        }
        let (writes, deletes) = match plan_write(model, request) {
            Ok(p) => p,
            Err(e) => {
                return Err(e);
            },
        };
        assert(parsed_views(writes@).len() == writes@.len());
        assert(parsed_views(deletes@).len() == deletes@.len());
        self.apply_write(scope, store, model_id, now, &writes, &deletes);
        Ok(())
    }
}

/// A read shows only rows of the store it reads, in the order of the table:
/// every selected row passes the selection and is a row of the table, and
/// the selection of a sorted table is sorted.
pub proof fn lemma_selected_rows(
    rows: Seq<StoredRow>,
    scope: Seq<char>,
    store: Seq<char>,
    fu: Seq<char>,
    fr: Seq<char>,
    fo: Seq<char>,
)
    ensures
        forall|k: int|
            0 <= k < selected_rows(rows, scope, store, fu, fr, fo).len() ==> row_selected(
                #[trigger] selected_rows(rows, scope, store, fu, fr, fo)[k],
                scope,
                store,
                fu,
                fr,
                fo,
            ) && exists|j: int| 0 <= j < rows.len() && rows[j] == selected_rows(rows, scope, store, fu, fr, fo)[k],
        rows_sorted(rows) ==> rows_sorted(selected_rows(rows, scope, store, fu, fr, fo)),
    decreases rows.len(),
{
    if rows.len() > 0 {
        let d = rows.drop_last();
        lemma_selected_rows(d, scope, store, fu, fr, fo);
        let p = selected_rows(d, scope, store, fu, fr, fo);
        let sel = selected_rows(rows, scope, store, fu, fr, fo);
        assert forall|k: int| 0 <= k < sel.len() implies row_selected(#[trigger] sel[k], scope, store, fu, fr, fo)
            && exists|j: int| 0 <= j < rows.len() && rows[j] == sel[k] by {
            if k < p.len() {
                assert(sel[k] == p[k]);
                let j = choose|j: int| 0 <= j < d.len() && d[j] == p[k];
                assert(rows[j] == d[j]);
            } else {
                assert(sel[k] == rows.last());
                assert(rows[rows.len() - 1] == rows.last());
            }
        }
        if rows_sorted(rows) {
            assert(rows_sorted(d)) by {
                assert forall|i: int, j: int| 0 <= i < j < d.len() implies !key_lt(
                    row_key(#[trigger] d[j]),
                    row_key(#[trigger] d[i]),
                ) by {
                    assert(d[i] == rows[i] && d[j] == rows[j]);
                }
            }
            assert forall|i: int, j: int| 0 <= i < j < sel.len() implies !key_lt(
                row_key(#[trigger] sel[j]),
                row_key(#[trigger] sel[i]),
            ) by {
                if j < p.len() {
                    assert(sel[i] == p[i] && sel[j] == p[j]);
                } else {
                    assert(sel[j] == rows.last());
                    assert(sel[i] == p[i]);
                    let a = choose|a: int| 0 <= a < d.len() && d[a] == p[i];
                    assert(rows[a] == d[a]);
                    assert(rows[rows.len() - 1] == rows.last());
                }
            }
        }
    }
}

/// What a record shows: user, relation and object text, no condition, and
/// the time stamp.
pub open spec fn record_shows(rec: TupleRecord, r: StoredRow) -> bool {
    &&& rec.key.user@ == r.raw_user@
    &&& rec.key.relation@ == r.relation@
    &&& rec.key.object@ == r.raw_object@
    &&& rec.key.condition is None
    &&& rec.timestamp matches Some(ts) && ts@ == r.inserted_at@
}

pub open spec fn page_bounds(len: int, skip: int, size: int) -> (int, int) {
    let a = if skip < len {
        skip
    } else {
        len
    };
    let b = if skip + size < len {
        skip + size
    } else {
        len
    };
    (a, b)
}

pub open spec fn spec_page_size(p: Option<u32>) -> int {
    let v = match p {
        Some(v) => v as int,
        None => 100,
    };
    if v < 1 {
        1
    } else if v > 500 {
        500
    } else {
        v
    }
}

fn clamp_page(v: u32) -> (r: u32)
    ensures
        r == (if v < 1 {
            1
        } else if v > 500 {
            500
        } else {
            v
        }),
{
    if v < 1 {
        1
    } else if v > 500 {
        500
    } else {
        v
    }
}

fn filter_string(o: &Option<String>) -> (r: &str)
    ensures
        r@ == filter_text(*o),
{
    match o {
        Some(s) => s.as_str(),
        None => {
            let e = "";
            proof {
                reveal_strlit("");
                assert(e@ =~= Seq::<char>::empty());
            }
            e
        },
    }
}

fn field_matches_exec(filter: &str, value: &str) -> (r: bool)
    ensures
        r == field_matches(filter@, value@),
{
    filter.is_empty() || str_eq(filter, value)
}

impl TupleStore {
    /// Reads a page of the tuples of store `store` of instance `scope` that
    /// match the filter, in table order: `page_size` (default 100, between 1
    /// and 500) records from the offset the token gives; the next token is
    /// returned where the page is full.
    pub fn read_tuples(&self, scope: &str, store: &str, request: &ReadRequest) -> (r: Result<ReadResponse, FgaError>)
        ensures
            match spec_decode_offset(match request.continuation_token {
                Some(t) => Some(t@),
                None => None,
            }) {
                Err(e) => r matches Err(err) && err@ == e,
                Ok(offset) => r matches Ok(resp) && {
                    let (fu, fr, fo) = match request.tuple_key {
                        Some(f) => (filter_text(f.user), filter_text(f.relation), filter_text(f.object)),
                        None => (Seq::empty(), Seq::empty(), Seq::empty()),
                    };
                    let sel = selected_rows(self.rows@, scope@, store@, fu, fr, fo);
                    let size = spec_page_size(request.page_size);
                    let skip = if offset < 0 {
                        0
                    } else {
                        offset
                    };
                    let (a, b) = page_bounds(sel.len() as int, skip, size);
                    &&& resp.tuples@.len() == b - a
                    &&& forall|i: int| 0 <= i < b - a ==> record_shows(#[trigger] resp.tuples@[i], sel[a + i])
                    &&& forall|i: int|
                        0 <= i < b - a ==> (#[trigger] sel[a + i]).scope_id@ == scope@ && sel[a + i].store_id@ == store@
                    &&& self.wf() ==> forall|i: int, j: int|
                        0 <= i < j < b - a ==> !key_lt(row_key(#[trigger] sel[a + j]), row_key(#[trigger] sel[a + i]))
                    &&& match resp.continuation_token {
                        Some(t) => b - a == size && t@ == spec_signed_decimal(
                            if offset + size > i64::MAX {
                                i64::MAX as int
                            } else {
                                offset + size
                            },
                        ),
                        None => b - a != size,
                    }
                },
            },
    {
        proof {
            let tk = request.tuple_key;
            let (fu, fr, fo) = match tk {
                Some(f) => (filter_text(f.user), filter_text(f.relation), filter_text(f.object)),
                None => (Seq::empty(), Seq::empty(), Seq::empty()),
            };
            lemma_selected_rows(self.rows@, scope@, store@, fu, fr, fo);
        }
        let size = clamp_page(
            match request.page_size {
                Some(v) => v,
                None => 100,
            },
        );
        let token = match &request.continuation_token {
            Some(t) => Some(t.as_str()),
            None => None,
        };
        let offset = match decode_offset(token) {
            Ok(o) => o,
            Err(e) => {
                return Err(e);
            },
        };
        let (fu, fr, fo) = match &request.tuple_key {
            Some(f) => (filter_string(&f.user), filter_string(&f.relation), filter_string(&f.object)),
            None => {
                let e = "";
                proof {
                    reveal_strlit("");
                    assert(e@ =~= Seq::<char>::empty());
                }
                (e, e, e)
            },
        };
        let skip: u64 = if offset < 0 {
            0
        } else {
            offset as u64
        };
        let mut out: Vec<TupleRecord> = Vec::new();
        let mut m: u64 = 0;
        let mut k: usize = 0;
        assert(selected_rows(self.rows@.subrange(0, 0), scope@, store@, fu@, fr@, fo@) =~= Seq::<StoredRow>::empty());
        while k < self.rows.len()
            invariant
                k <= self.rows@.len(),
                m as int == selected_rows(self.rows@.subrange(0, k as int), scope@, store@, fu@, fr@, fo@).len(),
                m <= k,
                ({
                    let sel = selected_rows(self.rows@.subrange(0, k as int), scope@, store@, fu@, fr@, fo@);
                    let (a, b) = page_bounds(sel.len() as int, skip as int, size as int);
                    &&& out@.len() == b - a
                    &&& forall|i: int| 0 <= i < b - a ==> record_shows(#[trigger] out@[i], sel[a + i])
                }),
            decreases self.rows.len() - k,
        {
            let row = &self.rows[k];
            let ghost prev = selected_rows(self.rows@.subrange(0, k as int), scope@, store@, fu@, fr@, fo@);
            proof {
                let pre = self.rows@.subrange(0, k as int + 1);
                assert(pre.drop_last() =~= self.rows@.subrange(0, k as int));
                assert(pre.last() == *row);
            }
            let hit = str_eq(row.scope_id.as_str(), scope) && str_eq(row.store_id.as_str(), store)
                && field_matches_exec(fu, row.raw_user.as_str()) && field_matches_exec(fr, row.relation.as_str())
                && field_matches_exec(fo, row.raw_object.as_str());
            if hit {
                if m >= skip && m - skip < size as u64 {
                    out.push(
                        TupleRecord {
                            key: TupleKey {
                                user: copy_string(&row.raw_user),
                                relation: copy_string(&row.relation),
                                object: copy_string(&row.raw_object),
                                condition: None,
                            },
                            timestamp: Some(copy_string(&row.inserted_at)),
                        },
                    );
                }
                proof {
                    let sel = selected_rows(self.rows@.subrange(0, k as int + 1), scope@, store@, fu@, fr@, fo@);
                    assert(sel == prev.push(*row));
                    assert forall|i: int| 0 <= i < out@.len() implies record_shows(
                        #[trigger] out@[i],
                        sel[page_bounds(sel.len() as int, skip as int, size as int).0 + i],
                    ) by {
                        let a0 = page_bounds(prev.len() as int, skip as int, size as int).0;
                        let a1 = page_bounds(sel.len() as int, skip as int, size as int).0;
                        if i < out@.len() - 1 || !(m >= skip && m - skip < size) {
                            assert(a0 == a1 || prev.len() - a0 == 0);
                            assert(sel[a1 + i] == prev[a0 + i]);
                        }
                    }
                }
                m = m + 1;
            } else {
                proof {
                    let sel = selected_rows(self.rows@.subrange(0, k as int + 1), scope@, store@, fu@, fr@, fo@);
                    assert(sel == prev);
                }
            }
            k = k + 1;
        }
        proof {
            assert(self.rows@.subrange(0, self.rows@.len() as int) =~= self.rows@);
        }
        let next = if out.len() as u64 == size as u64 {
            let n = if offset > i64::MAX - size as i64 {
                i64::MAX
            } else {
                offset + size as i64
            };
            Some(i64_to_decimal(n))
        } else {
            None
        };
        Ok(ReadResponse { tuples: out, continuation_token: next })
    }
}


pub open spec fn change_selected(c: ChangeRow, scope: Seq<char>, store: Seq<char>, after: int, ot: Seq<char>) -> bool {
    c.scope_id@ == scope && c.store_id@ == store && c.seq > after && field_matches(ot, c.object.object_type@)
}

/// The changes a read selects, in log order.
pub open spec fn selected_changes(
    changes: Seq<ChangeRow>,
    scope: Seq<char>,
    store: Seq<char>,
    after: int,
    ot: Seq<char>,
) -> Seq<ChangeRow>
    decreases changes.len(),
{
    if changes.len() == 0 {
        Seq::empty()
    } else {
        let p = selected_changes(changes.drop_last(), scope, store, after, ot);
        if change_selected(changes.last(), scope, store, after, ot) {
            p.push(changes.last())
        } else {
            p
        }
    }
}

pub open spec fn change_shows(rec: TupleChangeRecord, c: ChangeRow) -> bool {
    &&& rec.tuple_key.user@ == c.raw_user@
    &&& rec.tuple_key.relation@ == c.relation@
    &&& rec.tuple_key.object@ == c.raw_object@
    &&& rec.tuple_key.condition is None
    &&& rec.operation@ == match c.operation {
        ChangeOperation::Write => "WRITE"@,
        ChangeOperation::Delete => "DELETE"@,
    }
    &&& rec.timestamp@ == c.created_at@
}

impl TupleStore {
    /// Reads the changes of store `store` of instance `scope` after the
    /// sequence number the token gives, optionally of one object type, oldest
    /// first, at most `page_size` (between 1 and 500); where the page is full
    /// the next token is the last sequence number.
    pub fn read_changes(
        &self,
        scope: &str,
        store: &str,
        object_type: Option<&str>,
        page_size: u32,
        continuation_token: Option<&str>,
    ) -> (r: Result<ReadChangesResponse, FgaError>)
        requires
            self.wf(),
        ensures
            match spec_decode_offset(opt_str_view(continuation_token)) {
                Err(e) => r matches Err(err) && err@ == e,
                Ok(after) => r matches Ok(resp) && {
                    let ot = match object_type {
                        Some(t) => t@,
                        None => Seq::empty(),
                    };
                    let sel = selected_changes(self.changes@, scope@, store@, after, ot);
                    let limit = if page_size < 1 {
                        1
                    } else if page_size > 500 {
                        500
                    } else {
                        page_size as int
                    };
                    let n = if sel.len() < limit {
                        sel.len() as int
                    } else {
                        limit
                    };
                    &&& resp.changes@.len() == n
                    &&& forall|i: int| 0 <= i < n ==> change_shows(#[trigger] resp.changes@[i], sel[i])
                    &&& match resp.continuation_token {
                        Some(t) => n == limit && t@ == spec_decimal(sel[n - 1].seq as nat),
                        None => n < limit,
                    }
                },
            },
    {
        let after = match decode_offset(object_type_token(continuation_token)) {
            Ok(a) => a,
            Err(e) => {
                return Err(e);
            },
        };
        let limit = clamp_page(page_size);
        let ot = match object_type {
            Some(t) => t,
            None => {
                let e = "";
                proof {
                    reveal_strlit("");
                    assert(e@ =~= Seq::<char>::empty());
                }
                e
            },
        };
        let mut out: Vec<TupleChangeRecord> = Vec::new();
        let mut last_seq: u64 = 0;
        let mut k: usize = 0;
        assert(selected_changes(self.changes@.subrange(0, 0), scope@, store@, after as int, ot@) =~= Seq::<ChangeRow>::empty());
        while k < self.changes.len() && (out.len() as u64) < (limit as u64)
            invariant
                k <= self.changes@.len(),
                out@.len() <= limit,
                ({
                    let sel = selected_changes(self.changes@.subrange(0, k as int), scope@, store@, after as int, ot@);
                    &&& out@.len() == sel.len()
                    &&& forall|i: int| 0 <= i < sel.len() ==> change_shows(#[trigger] out@[i], sel[i])
                    &&& sel.len() > 0 ==> last_seq == sel.last().seq
                }),
            decreases self.changes.len() - k,
        {
            let c = &self.changes[k];
            let ghost prev = selected_changes(self.changes@.subrange(0, k as int), scope@, store@, after as int, ot@);
            proof {
                let pre = self.changes@.subrange(0, k as int + 1);
                assert(pre.drop_last() =~= self.changes@.subrange(0, k as int));
                assert(pre.last() == *c);
            }
            let hit = str_eq(c.scope_id.as_str(), scope) && str_eq(c.store_id.as_str(), store) && (c.seq as i128)
                > (after as i128) && field_matches_exec(ot, c.object.object_type.as_str());
            if hit {
                out.push(
                    TupleChangeRecord {
                        tuple_key: TupleKey {
                            user: copy_string(&c.raw_user),
                            relation: copy_string(&c.relation),
                            object: copy_string(&c.raw_object),
                            condition: None,
                        },
                        operation: str_to_string(c.operation.as_str()),
                        timestamp: copy_string(&c.created_at),
                    },
                );
                last_seq = c.seq;
                proof {
                    let sel = selected_changes(self.changes@.subrange(0, k as int + 1), scope@, store@, after as int, ot@);
                    assert(sel == prev.push(*c));
                    assert forall|i: int| 0 <= i < sel.len() implies change_shows(#[trigger] out@[i], sel[i]) by {
                        if i < prev.len() {
                            assert(sel[i] == prev[i]);
                        }
                    }
                }
            } else {
                proof {
                    let sel = selected_changes(self.changes@.subrange(0, k as int + 1), scope@, store@, after as int, ot@);
                    assert(sel == prev);
                }
            }
            k = k + 1;
        }
        proof {
            lemma_selected_changes_prefix(self.changes@, scope@, store@, after as int, ot@, k as int, limit as int);
        }
        let next = if (out.len() as u64) == (limit as u64) {
            Some(u64_to_decimal(last_seq))
        } else {
            None
        };
        Ok(ReadChangesResponse { changes: out, continuation_token: next })
    }
}

fn object_type_token<'a>(t: Option<&'a str>) -> (r: Option<&'a str>)
    ensures
        opt_str_view(r) == opt_str_view(t),
{
    t
}

/// Where the changes selected from a prefix already fill a page (or the prefix
/// is everything), the page of the whole log is the same.
proof fn lemma_selected_changes_prefix(
    changes: Seq<ChangeRow>,
    scope: Seq<char>,
    store: Seq<char>,
    after: int,
    ot: Seq<char>,
    k: int,
    limit: int,
)
    requires
        0 <= k <= changes.len(),
        k == changes.len() || selected_changes(changes.subrange(0, k), scope, store, after, ot).len() >= limit,
    ensures
        ({
            let a = selected_changes(changes.subrange(0, k), scope, store, after, ot);
            let b = selected_changes(changes, scope, store, after, ot);
            &&& a.len() <= b.len()
            &&& forall|i: int| 0 <= i < a.len() ==> a[i] == b[i]
            &&& (a.len() < limit ==> a.len() == b.len())
        }),
    decreases changes.len() - k,
{
    if k == changes.len() {
        assert(changes.subrange(0, k) =~= changes);
    } else {
        lemma_selected_prefix_grows(changes, scope, store, after, ot, k, changes.len() as int);
        assert(changes.subrange(0, changes.len() as int) =~= changes);
    }
}

proof fn lemma_selected_prefix_grows(
    changes: Seq<ChangeRow>,
    scope: Seq<char>,
    store: Seq<char>,
    after: int,
    ot: Seq<char>,
    k: int,
    n: int,
)
    requires
        0 <= k <= n <= changes.len(),
    ensures
        ({
            let a = selected_changes(changes.subrange(0, k), scope, store, after, ot);
            let b = selected_changes(changes.subrange(0, n), scope, store, after, ot);
            &&& a.len() <= b.len()
            &&& forall|i: int| 0 <= i < a.len() ==> a[i] == b[i]
        }),
    decreases n - k,
{
    if k < n {
        lemma_selected_prefix_grows(changes, scope, store, after, ot, k, n - 1);
        let pre = changes.subrange(0, n);
        assert(pre.drop_last() =~= changes.subrange(0, n - 1));
    }
}


/// Users whose stored form names them alone: no userset with an empty
/// relation, no object with id `*`.
pub open spec fn canonical_user(u: UserRefV) -> bool {
    match u {
        UserRefV::Userset(_, r) => r.len() > 0,
        UserRefV::Object(o) => o.object_id != seq!['*'],
        UserRefV::Wildcard(_) => true,
    }
}

proof fn lemma_canonical_same_user(a: UserRefV, b: UserRefV)
    requires
        canonical_user(a),
        canonical_user(b),
        user_key(a) == user_key(b),
    ensures
        a == b,
{
    match a {
        UserRefV::Object(oa) => match b {
            UserRefV::Object(ob) => {},
            UserRefV::Userset(_, r) => {},
            UserRefV::Wildcard(_) => {
                assert(user_key(b).1 == seq!['*']);
            },
        },
        UserRefV::Userset(_, _) => {},
        UserRefV::Wildcard(_) => match b {
            UserRefV::Object(ob) => {
                assert(user_key(a).1 == seq!['*']);
            },
            _ => {},
        },
    }
}

proof fn lemma_selected_contains(
    rows: Seq<StoredRow>,
    scope: Seq<char>,
    store: Seq<char>,
    fu: Seq<char>,
    fr: Seq<char>,
    fo: Seq<char>,
    i: int,
)
    requires
        0 <= i < rows.len(),
        row_selected(rows[i], scope, store, fu, fr, fo),
    ensures
        selected_rows(rows, scope, store, fu, fr, fo).contains(rows[i]),
    decreases rows.len(),
{
    let sel = selected_rows(rows, scope, store, fu, fr, fo);
    if i == rows.len() - 1 {
        assert(sel[sel.len() - 1] == rows[i]);
    } else {
        lemma_selected_contains(rows.drop_last(), scope, store, fu, fr, fo, i);
        let p = selected_rows(rows.drop_last(), scope, store, fu, fr, fo);
        let j = choose|j: int| 0 <= j < p.len() && p[j] == rows.drop_last()[i];
        assert(sel[j] == p[j]);
    }
}

proof fn lemma_selected_only(
    rows: Seq<StoredRow>,
    scope: Seq<char>,
    store: Seq<char>,
    fu: Seq<char>,
    fr: Seq<char>,
    fo: Seq<char>,
    x: StoredRow,
)
    requires
        selected_rows(rows, scope, store, fu, fr, fo).contains(x),
    ensures
        rows.contains(x),
        row_selected(x, scope, store, fu, fr, fo),
    decreases rows.len(),
{
    let sel = selected_rows(rows, scope, store, fu, fr, fo);
    let p = selected_rows(rows.drop_last(), scope, store, fu, fr, fo);
    let j = choose|j: int| 0 <= j < sel.len() && sel[j] == x;
    if j < p.len() {
        assert(p[j] == x);
        lemma_selected_only(rows.drop_last(), scope, store, fu, fr, fo, x);
        let k = choose|k: int| 0 <= k < rows.drop_last().len() && rows.drop_last()[k] == x;
        assert(rows[k] == x);
    } else {
        assert(x == rows.last());
    }
}

/// A tuple written by a batch, and not deleted by it, is read back from its
/// store by a read that filters on exactly its user, relation and object.
pub proof fn lemma_written_tuple_is_read_back(
    before: TupleStore,
    after: TupleStore,
    scope: Seq<char>,
    store: Seq<char>,
    ws: Seq<TupleV>,
    ds: Seq<TupleV>,
    i: int,
)
    requires
        after.wf(),
        write_applied(row_views(before.rows@), row_views(after.rows@), scope, store, ws, ds),
        0 <= i < ws.len(),
        !seen(ds, ds.len() as int, ws[i]),
        forall|j: int| 0 <= j < after.rows@.len() ==> canonical_user(#[trigger] after.rows@[j].user@),
        canonical_user(ws[i].user),
    ensures
        exists|r: StoredRow|
            #[trigger] selected_rows(
                after.rows@,
                scope,
                store,
                spec_user_raw(ws[i].user),
                ws[i].relation,
                spec_object_raw(ws[i].object),
            ).contains(r) && r@.tuple == ws[i],
{
    let t = ws[i];
    assert(same_tuple(ws[i], t));
    assert(seen(ws, ws.len() as int, t));
    assert(present(row_views(after.rows@), scope, store, t));
    let k = choose|k: int| 0 <= k < row_views(after.rows@).len() && row_is(#[trigger] row_views(after.rows@)[k], scope, store, t);
    let r = after.rows@[k];
    assert(row_views(after.rows@)[k] == r@);
    lemma_canonical_same_user(r.user@, t.user);
    lemma_selected_contains(after.rows@, scope, store, spec_user_raw(t.user), t.relation, spec_object_raw(t.object), k);
}

/// A tuple deleted by a batch is not in its store afterwards: a read that
/// filters on exactly its user, relation and object finds nothing.
pub proof fn lemma_deleted_tuple_is_gone(
    before: TupleStore,
    after: TupleStore,
    scope: Seq<char>,
    store: Seq<char>,
    ws: Seq<TupleV>,
    ds: Seq<TupleV>,
    i: int,
)
    requires
        after.wf(),
        write_applied(row_views(before.rows@), row_views(after.rows@), scope, store, ws, ds),
        0 <= i < ds.len(),
        forall|j: int|
            0 <= j < after.rows@.len() ==> canonical_user(#[trigger] after.rows@[j].user@) && user_well_formed(
                after.rows@[j].user@,
            ) && object_well_formed(after.rows@[j].object@),
        canonical_user(ds[i].user),
        user_well_formed(ds[i].user),
        object_well_formed(ds[i].object),
        ds[i].relation.len() > 0,
    ensures
        selected_rows(after.rows@, scope, store, spec_user_raw(ds[i].user), ds[i].relation, spec_object_raw(ds[i].object)).len()
            == 0,
{
    let t = ds[i];
    assert(same_tuple(ds[i], t));
    assert(!present(row_views(after.rows@), scope, store, t));
    let sel = selected_rows(after.rows@, scope, store, spec_user_raw(t.user), t.relation, spec_object_raw(t.object));
    if sel.len() > 0 {
        let x = sel[0];
        assert(sel.contains(x));
        lemma_selected_only(after.rows@, scope, store, spec_user_raw(t.user), t.relation, spec_object_raw(t.object), x);
        let k = choose|k: int| 0 <= k < after.rows@.len() && after.rows@[k] == x;
        assert(row_views(after.rows@)[k] == x@);
        assert(x.raw_user@ == spec_user_raw(x.user@));
        assert(x.raw_object@ == spec_object_raw(x.object@));
        lemma_user_ref_round_trip(x.user@);
        lemma_user_ref_round_trip(t.user);
        lemma_object_ref_round_trip(x.object@);
        lemma_object_ref_round_trip(t.object);
        assert(x.user@ == t.user);
        assert(x.object@ == t.object);
        assert(x.relation@ == t.relation);
        assert(row_is(row_views(after.rows@)[k], scope, store, t));
    }
}

/// A batch on one store leaves every other store as it was.
pub proof fn lemma_other_stores_unchanged(
    before: Seq<RowV>,
    after: Seq<RowV>,
    scope: Seq<char>,
    store: Seq<char>,
    ws: Seq<TupleV>,
    ds: Seq<TupleV>,
    other_scope: Seq<char>,
    other_store: Seq<char>,
    t: TupleV,
)
    requires
        write_applied(before, after, scope, store, ws, ds),
        other_scope != scope || other_store != store,
    ensures
        present(after, other_scope, other_store, t) == present(before, other_scope, other_store, t),
{
}

/// The tuples of store `store` of instance `scope` as the evaluator reads
/// them, in table order.
pub open spec fn store_view(rows: Seq<StoredRow>, scope: Seq<char>, store: Seq<char>) -> Seq<TupleV>
    decreases rows.len(),
{
    if rows.len() == 0 {
        Seq::empty()
    } else {
        let p = store_view(rows.drop_last(), scope, store);
        if rows.last().scope_id@ == scope && rows.last().store_id@ == store {
            p.push(store_tuple_view(rows.last()))
        } else {
            p
        }
    }
}

impl TupleStore {
    /// The tuples of store `store` of instance `scope`, users read back from
    /// their stored form (type, id, relation), in table order.
    pub fn store_tuples(&self, scope: &str, store: &str) -> (r: Vec<ParsedTupleKey>)
        ensures
            parsed_views(r@) == store_view(self.rows@, scope@, store@),
            forall|i: int| 0 <= i < r@.len() ==> (#[trigger] r@[i]).condition is None,
    {
        let mut out: Vec<ParsedTupleKey> = Vec::new();
        let mut k: usize = 0;
        assert(parsed_views(out@) =~= store_view(self.rows@.subrange(0, 0), scope@, store@));
        while k < self.rows.len()
            invariant
                k <= self.rows@.len(),
                parsed_views(out@) == store_view(self.rows@.subrange(0, k as int), scope@, store@),
                forall|i: int| 0 <= i < out@.len() ==> (#[trigger] out@[i]).condition is None,
            decreases self.rows.len() - k,
        {
            let row = &self.rows[k];
            proof {
                let pre = self.rows@.subrange(0, k as int + 1);
                assert(pre.drop_last() =~= self.rows@.subrange(0, k as int));
                assert(pre.last() == *row);
            }
            if str_eq(row.scope_id.as_str(), scope) && str_eq(row.store_id.as_str(), store) {
                let rel = match row.user.relation_name() {
                    Some(r) => r,
                    None => "",
                };
                proof {
                    reveal_strlit("");
                    assert(""@ =~= Seq::<char>::empty());
                }
                let user = stored_user_from_parts(row.user.user_type(), row.user.user_id(), rel);
                let ghost before = out@;
                out.push(
                    ParsedTupleKey {
                        user,
                        relation: copy_string(&row.relation),
                        object: clone_object_ref(&row.object),
                        condition: None,
                    },
                );
                proof {
                    assert(parsed_views(out@) =~= parsed_views(before).push(store_tuple_view(*row)));
                }
            }
            k = k + 1;
        }
        assert(self.rows@.subrange(0, self.rows@.len() as int) =~= self.rows@);
        out
    }
}

/// A stored row as the evaluator reads it.
pub open spec fn store_tuple_view(r: StoredRow) -> TupleV {
    TupleV {
        user: spec_stored_user(user_key(r.user@).0, user_key(r.user@).1, user_key(r.user@).2),
        relation: r.relation@,
        object: r.object@,
    }
}

} // verus!
