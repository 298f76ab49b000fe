//! The platform store: the tuples that mirror instance hierarchy, org
//! memberships and role assignments, and how the store is brought to them.

use vstd::prelude::*;

use crate::fga_dto::{BatchCheckItem, BatchCheckResult};
use crate::fga_refs::TupleKey;
use crate::fga_store::{seq_lt, seq_lt_exec};
use crate::num::{lemma_parse_decimal, parse_u64, spec_decimal, spec_parse_u64, u64_to_decimal};
use crate::fga_dto::BatchCheckRequest;
use crate::fga_eval::{evaluate_batch_check, holds, key_fits, key_holds, request_world, check_fits};
use crate::fga_model::CompiledModel;
use crate::fga_refs::{FgaError, ParsedTupleKey, spec_parse_tuple};
use crate::fga_semantics::World;
use crate::sorted_strings::{texts, SortedStrings};
use crate::text::{chars_of, concat2, concat3, concat5, copy_string, str_eq, str_to_string};

verus! {

/// The org catalog relation a legacy org role also grants.
pub fn legacy_org_catalog_relation(role: &str) -> (r: Option<&'static str>)
    ensures
        match r {
            Some(s) => org_catalog(role@) == Some(s@),
            None => org_catalog(role@) is None,
        },
{
    if str_eq(role, "owner") || str_eq(role, "admin") {
        Some("org_owner")
    } else if str_eq(role, "viewer") {
        Some("org_owner_viewer")
    } else {
        None
    }
}

/// The instance catalog relation a legacy org role grants on the instance.
pub fn legacy_parent_instance_catalog_relation(role: &str) -> (r: Option<&'static str>)
    ensures
        match r {
            Some(s) => instance_catalog(role@) == Some(s@),
            None => instance_catalog(role@) is None,
        },
{
    if str_eq(role, "owner") || str_eq(role, "admin") {
        Some("iam_owner")
    } else if str_eq(role, "viewer") {
        Some("iam_owner_viewer")
    } else {
        None
    }
}

/// The relation an org role binding projects onto the child instances the
/// org owns.
pub open spec fn spec_projected_child_relation(role_key: Seq<char>) -> Option<Seq<char>> {
    if role_key == "ORG_OWNER"@ {
        Some("iam_owner"@)
    } else if role_key == "ORG_OWNER_VIEWER"@ {
        Some("iam_owner_viewer"@)
    } else if role_key == "ORG_USER_MANAGER"@ {
        Some("iam_user_manager"@)
    } else if role_key == "ORG_ADMIN_IMPERSONATOR"@ {
        Some("iam_admin_impersonator"@)
    } else if role_key == "ORG_END_USER_IMPERSONATOR"@ {
        Some("iam_end_user_impersonator"@)
    } else {
        None
    }
}

/// The child-instance relation of an org role binding.
pub fn projected_child_relation(role_key: &str) -> (r: Option<&'static str>)
    ensures
        match r {
            Some(s) => spec_projected_child_relation(role_key@) == Some(s@),
            None => spec_projected_child_relation(role_key@) is None,
        },
{
    if str_eq(role_key, "ORG_OWNER") {
        Some("iam_owner")
    } else if str_eq(role_key, "ORG_OWNER_VIEWER") {
        Some("iam_owner_viewer")
    } else if str_eq(role_key, "ORG_USER_MANAGER") {
        Some("iam_user_manager")
    } else if str_eq(role_key, "ORG_ADMIN_IMPERSONATOR") {
        Some("iam_admin_impersonator")
    } else if str_eq(role_key, "ORG_END_USER_IMPERSONATOR") {
        Some("iam_end_user_impersonator")
    } else {
        None
    }
}

pub open spec fn key_view(t: TupleKey) -> (Seq<char>, Seq<char>, Seq<char>) {
    (t.user@, t.relation@, t.object@)
}

pub open spec fn key_views(s: Seq<TupleKey>) -> Seq<(Seq<char>, Seq<char>, Seq<char>)> {
    s.map_values(|t: TupleKey| key_view(t))
}

fn tuple(user: String, relation: &str, object: String) -> (r: TupleKey)
    ensures
        key_view(r) == (user@, relation@, object@),
        r.condition is None,
{
    TupleKey { user, relation: str_to_string(relation), object, condition: None }
}

/// A child instance and the org that owns it.
#[derive(Debug)]
pub struct ChildOwnership {
    pub instance_id: String,
    pub owner_org_id: String,
}

/// An org membership of a user.
#[derive(Debug)]
pub struct OrgMembership {
    pub user_id: String,
    pub org_id: String,
    pub role: String,
}

/// Whether an org role is one the platform store mirrors.
pub open spec fn mirrored_role(role: Seq<char>) -> bool {
    role == "owner"@ || role == "admin"@ || role == "member"@ || role == "viewer"@
}

pub open spec fn org_catalog(role: Seq<char>) -> Option<Seq<char>> {
    if role == "owner"@ || role == "admin"@ {
        Some("org_owner"@)
    } else if role == "viewer"@ {
        Some("org_owner_viewer"@)
    } else {
        None
    }
}

pub open spec fn instance_catalog(role: Seq<char>) -> Option<Seq<char>> {
    if role == "owner"@ || role == "admin"@ {
        Some("iam_owner"@)
    } else if role == "viewer"@ {
        Some("iam_owner_viewer"@)
    } else {
        None
    }
}

/// The children of `children` that `org` owns, as catalog tuples of
/// `relation` for `user`.
pub open spec fn owned_child_tuples(
    user: Seq<char>,
    relation: Seq<char>,
    org: Seq<char>,
    children: Seq<ChildOwnership>,
) -> Seq<(Seq<char>, Seq<char>, Seq<char>)>
    decreases children.len(),
{
    if children.len() == 0 {
        Seq::empty()
    } else {
        owned_child_tuples(user, relation, org, children.drop_last()) + if children.last().owner_org_id@ == org {
            seq![(user, relation, "instance:"@ + children.last().instance_id@)]
        } else {
            Seq::empty()
        }
    }
}

/// The tuples an org membership of instance `parent` stands for: none for
/// roles the store does not mirror; else the role on the org, its org
/// catalog relation, and its instance catalog relation on the instance and
/// on every child instance the org owns.
pub open spec fn spec_membership_tuples(
    parent: Seq<char>,
    m: OrgMembership,
    children: Seq<ChildOwnership>,
) -> Seq<(Seq<char>, Seq<char>, Seq<char>)> {
    if !mirrored_role(m.role@) {
        Seq::empty()
    } else {
        let user = "user:"@ + m.user_id@;
        let org = "org:"@ + m.org_id@;
        seq![(user, m.role@, org)] + match org_catalog(m.role@) {
            Some(r) => seq![(user, r, org)],
            None => Seq::empty(),
        } + match instance_catalog(m.role@) {
            Some(r) => seq![(user, r, "instance:"@ + parent)] + owned_child_tuples(user, r, m.org_id@, children),
            None => Seq::empty(),
        }
    }
}

proof fn lemma_key_views_push(s: Seq<TupleKey>, t: TupleKey)
    ensures
        key_views(s.push(t)) == key_views(s).push(key_view(t)),
{
    assert(key_views(s.push(t)) =~= key_views(s).push(key_view(t)));
}

/// The tuples of one org membership of instance `parent`.
pub fn membership_tuples(parent: &str, m: &OrgMembership, children: &Vec<ChildOwnership>) -> (r: Vec<TupleKey>)
    ensures
        key_views(r@) == spec_membership_tuples(parent@, *m, children@),
{
    let mut out: Vec<TupleKey> = Vec::new();
    let role = m.role.as_str();
    if !(str_eq(role, "owner") || str_eq(role, "admin") || str_eq(role, "member") || str_eq(role, "viewer")) {
        assert(key_views(out@) =~= Seq::<(Seq<char>, Seq<char>, Seq<char>)>::empty());
        return out;
    }
    let user = concat2("user:", m.user_id.as_str());
    let org = concat2("org:", m.org_id.as_str());
    let first = tuple(copy_string(&user), role, copy_string(&org));
    proof {
        lemma_key_views_push(out@, first);
    }
    out.push(first);
    assert(key_views(out@) =~= seq![(user@, m.role@, org@)]);
    let ghost mut head: Seq<(Seq<char>, Seq<char>, Seq<char>)> = seq![(user@, m.role@, org@)];
    if let Some(rel) = legacy_org_catalog_relation(role) {
        let t = tuple(copy_string(&user), rel, copy_string(&org));
        proof {
            lemma_key_views_push(out@, t);
            head = head.push((user@, rel@, org@));
        }
        out.push(t);
    }
    proof {
        assert(head =~= seq![(user@, m.role@, org@)] + match org_catalog(m.role@) {
            Some(r) => seq![(user@, r, org@)],
            None => Seq::empty(),
        });
    }
    if let Some(rel) = legacy_parent_instance_catalog_relation(role) {
        let t = tuple(copy_string(&user), rel, concat2("instance:", parent));
        proof {
            lemma_key_views_push(out@, t);
        }
        out.push(t);
        let ghost start = key_views(out@);
        let mut i: usize = 0;
        proof {
            assert(children@.subrange(0, 0) =~= Seq::<ChildOwnership>::empty());
            assert(start + owned_child_tuples(user@, rel@, m.org_id@, children@.subrange(0, 0)) =~= start);
        }
        while i < children.len()
            invariant
                i <= children@.len(),
                key_views(out@) == start + owned_child_tuples(user@, rel@, m.org_id@, children@.subrange(0, i as int)),
            decreases children.len() - i,
        {
            let c = &children[i];
            let ghost pre = children@.subrange(0, i as int + 1);
            let ghost before = key_views(out@);
            proof {
                assert(pre.drop_last() =~= children@.subrange(0, i as int));
                assert(pre.last() == *c);
            }
            if str_eq(c.owner_org_id.as_str(), m.org_id.as_str()) {
                let t = tuple(copy_string(&user), rel, concat2("instance:", c.instance_id.as_str()));
                proof {
                    lemma_key_views_push(out@, t);
                }
                out.push(t);
                proof {
                    assert(key_views(out@) =~= start + owned_child_tuples(user@, rel@, m.org_id@, pre));
                }
            } else {
                proof {
                    assert(key_views(out@) =~= start + owned_child_tuples(user@, rel@, m.org_id@, pre));
                }
            }
            i = i + 1;
        }
        proof {
            assert(children@.subrange(0, children@.len() as int) =~= children@);
            assert(key_views(out@) =~= spec_membership_tuples(parent@, *m, children@));
        }
    } else {
        proof {
            assert(key_views(out@) =~= spec_membership_tuples(parent@, *m, children@));
        }
    }
    out
}

/// The tuples that place a child instance under its parent and give the
/// owning org's owners, admins and viewers their relations on it.
pub open spec fn spec_child_tuples(parent: Seq<char>, c: ChildOwnership) -> Seq<(Seq<char>, Seq<char>, Seq<char>)> {
    let object = "instance:"@ + c.instance_id@;
    seq![
        ("instance:"@ + parent, "parent"@, object),
        ("org:"@ + c.owner_org_id@ + "#owner"@, "owner"@, object),
        ("org:"@ + c.owner_org_id@ + "#admin"@, "admin"@, object),
        ("org:"@ + c.owner_org_id@ + "#viewer"@, "viewer"@, object),
    ]
}

/// The tuples of a child instance of `parent`.
pub fn child_tuples(parent: &str, c: &ChildOwnership) -> (r: Vec<TupleKey>)
    ensures
        key_views(r@) == spec_child_tuples(parent@, *c),
{
    let object = concat2("instance:", c.instance_id.as_str());
    let mut out: Vec<TupleKey> = Vec::new();
    out.push(tuple(concat2("instance:", parent), "parent", copy_string(&object)));
    out.push(tuple(concat3("org:", c.owner_org_id.as_str(), "#owner"), "owner", copy_string(&object)));
    out.push(tuple(concat3("org:", c.owner_org_id.as_str(), "#admin"), "admin", copy_string(&object)));
    out.push(tuple(concat3("org:", c.owner_org_id.as_str(), "#viewer"), "viewer", object));
    assert(key_views(out@) =~= spec_child_tuples(parent@, *c));
    out
}

/// A role assignment counts unless it expired: its expiry, as text, is not
/// after `now`.
pub open spec fn assignment_active(expires_at: Option<Seq<char>>, now: Seq<char>) -> bool {
    match expires_at {
        Some(e) => seq_lt(now, e),
        None => true,
    }
}

/// The tuple of a role assignment that has not expired at `now`: the
/// principal in the role's relation to the scope.
pub fn assignment_tuple(
    principal_ref: &str,
    relation: &str,
    scope_kind: &str,
    scope_id: &str,
    expires_at: Option<&str>,
    now: &str,
) -> (r: Option<TupleKey>)
    ensures
        match r {
            Some(t) => assignment_active(
                match expires_at {
                    Some(e) => Some(e@),
                    None => None,
                },
                now@,
            ) && key_view(t) == (principal_ref@, relation@, scope_kind@ + ":"@ + scope_id@),
            None => !assignment_active(
                match expires_at {
                    Some(e) => Some(e@),
                    None => None,
                },
                now@,
            ),
        },
{
    if let Some(e) = expires_at {
        let ev = chars_of(e);
        let nv = chars_of(now);
        if !seq_lt_exec(nv.as_slice(), ev.as_slice()) {
            return None;
        }
    }
    Some(tuple(str_to_string(principal_ref), relation, concat3(scope_kind, ":", scope_id)))
}

/// The tuple a role binding of an owning org projects onto a child instance,
/// if its role projects at all.
pub fn binding_tuple(principal_ref: &str, role_key: &str, child_instance_id: &str) -> (r: Option<TupleKey>)
    ensures
        match r {
            Some(t) => exists|rel: Seq<char>|
                spec_projected_child_relation(role_key@) == Some(rel) && key_view(t) == (
                    principal_ref@,
                    rel,
                    "instance:"@ + child_instance_id@,
                ),
            None => spec_projected_child_relation(role_key@) is None,
        },
{
    match projected_child_relation(role_key) {
        Some(rel) => Some(tuple(str_to_string(principal_ref), rel, concat2("instance:", child_instance_id))),
        None => None,
    }
}

/// The identity of a tuple: user, relation and object joined by `|`.
pub open spec fn identity(t: TupleKey) -> Seq<char> {
    t.user@ + "|"@ + t.relation@ + "|"@ + t.object@
}

/// The identity text of a tuple.
pub fn tuple_identity(t: &TupleKey) -> (r: String)
    ensures
        r@ == identity(*t),
{
    concat5(t.user.as_str(), "|", t.relation.as_str(), "|", t.object.as_str())
}

pub open spec fn identities(s: Seq<TupleKey>) -> Set<Seq<char>> {
    Set::new(|x: Seq<char>| exists|i: int| 0 <= i < s.len() && identity(#[trigger] s[i]) == x)
}

fn identity_set(tuples: &Vec<TupleKey>) -> (r: SortedStrings)
    ensures
        r.wf(),
        r.contents() == identities(tuples@),
{
    let mut set = SortedStrings::new();
    let mut i: usize = 0;
    proof {
        assert(set.contents() =~= identities(tuples@.subrange(0, 0)));
    }
    while i < tuples.len()
        invariant
            i <= tuples@.len(),
            set.wf(),
            set.contents() == identities(tuples@.subrange(0, i as int)),
        decreases tuples.len() - i,
    {
        let id = tuple_identity(&tuples[i]);
        set.insert(id);
        proof {
            let pre = tuples@.subrange(0, i as int);
            let next = tuples@.subrange(0, i as int + 1);
            assert forall|x: Seq<char>| identities(next).contains(x) <==> identities(pre).insert(
                identity(tuples@[i as int]),
            ).contains(x) by {
                if identities(next).contains(x) {
                    let k = choose|k: int| 0 <= k < next.len() && identity(#[trigger] next[k]) == x;
                    if k < i {
                        assert(pre[k] == next[k]);
                    }
                }
                if identities(pre).contains(x) {
                    let k = choose|k: int| 0 <= k < pre.len() && identity(#[trigger] pre[k]) == x;
                    assert(next[k] == pre[k]);
                }
                if x == identity(tuples@[i as int]) {
                    assert(next[i as int] == tuples@[i as int]);
                }
            }
            assert(identities(next) =~= identities(pre).insert(identity(tuples@[i as int])));
        }
        i = i + 1;
    }
    assert(tuples@.subrange(0, tuples@.len() as int) =~= tuples@);
    set
}

/// The tuples of `from`, in order, whose identity `other` lacks.
pub open spec fn missing_from(from: Seq<TupleKey>, other: Set<Seq<char>>) -> Seq<(Seq<char>, Seq<char>, Seq<char>)>
    decreases from.len(),
{
    if from.len() == 0 {
        Seq::empty()
    } else {
        missing_from(from.drop_last(), other) + if other.contains(identity(from.last())) {
            Seq::empty()
        } else {
            seq![key_view(from.last())]
        }
    }
}

/// The identity of a tuple given by its user, relation and object.
pub open spec fn view_identity(k: (Seq<char>, Seq<char>, Seq<char>)) -> Seq<char> {
    k.0 + "|"@ + k.1 + "|"@ + k.2
}

/// The identities of tuples given by their user, relation and object.
pub open spec fn view_identities(s: Seq<(Seq<char>, Seq<char>, Seq<char>)>) -> Set<Seq<char>> {
    Set::new(|x: Seq<char>| exists|i: int| 0 <= i < s.len() && view_identity(#[trigger] s[i]) == x)
}

/// The identities the tuples of `from` missing from `other` carry are those
/// of `from` that `other` lacks.
pub proof fn lemma_missing_identities(from: Seq<TupleKey>, other: Set<Seq<char>>)
    ensures
        view_identities(missing_from(from, other)) == identities(from).difference(other),
    decreases from.len(),
{
    if from.len() == 0 {
        assert(view_identities(missing_from(from, other)) =~= identities(from).difference(other));
    } else {
        let pre = from.drop_last();
        let t = from.last();
        lemma_missing_identities(pre, other);
        let m = missing_from(from, other);
        let mp = missing_from(pre, other);
        assert forall|x: Seq<char>| view_identities(m).contains(x) <==> identities(from).difference(other).contains(x) by {
            if view_identities(m).contains(x) {
                let i = choose|i: int| 0 <= i < m.len() && view_identity(#[trigger] m[i]) == x;
                if i < mp.len() {
                    assert(m[i] == mp[i]);
                    assert(view_identities(mp).contains(x));
                    let j = choose|j: int| 0 <= j < pre.len() && identity(#[trigger] pre[j]) == x;
                    assert(from[j] == pre[j]);
                } else {
                    assert(m[i] == key_view(t));
                    assert(from[from.len() - 1] == t);
                }
            }
            if identities(from).difference(other).contains(x) {
                let j = choose|j: int| 0 <= j < from.len() && identity(#[trigger] from[j]) == x;
                if j < from.len() - 1 {
                    assert(pre[j] == from[j]);
                    assert(identities(pre).contains(x));
                    assert(identities(pre).difference(other).contains(x));
                    assert(view_identities(mp).contains(x));
                    let i = choose|i: int| 0 <= i < mp.len() && view_identity(#[trigger] mp[i]) == x;
                    assert(m[i] == mp[i]);
                } else {
                    assert(m[mp.len() as int] == key_view(t));
                }
            }
        }
        assert(view_identities(m) =~= identities(from).difference(other));
    }
}

/// Writing the tuples the diff says to write and deleting those it says to
/// delete brings the identities of `current` to exactly those of `desired`.
pub proof fn lemma_managed_diff_reconciles(desired: Seq<TupleKey>, current: Seq<TupleKey>)
    ensures
        identities(current).union(view_identities(missing_from(desired, identities(current)))).difference(
            view_identities(missing_from(current, identities(desired))),
        ) == identities(desired),
{
    lemma_missing_identities(desired, identities(current));
    lemma_missing_identities(current, identities(desired));
    assert(identities(current).union(identities(desired).difference(identities(current))).difference(
        identities(current).difference(identities(desired)),
    ) =~= identities(desired));
}

fn keep_missing(from: Vec<TupleKey>, other: &SortedStrings) -> (r: Vec<TupleKey>)
    requires
        other.wf(),
    ensures
        key_views(r@) == missing_from(from@, other.contents()),
{
    let ghost all = from@;
    let mut rest = from;
    let mut out: Vec<TupleKey> = Vec::new();
    let ghost mut k: int = 0;
    proof {
        assert(all.subrange(0, 0) =~= Seq::<TupleKey>::empty());
        assert(key_views(out@) =~= missing_from(all.subrange(0, 0), other.contents()));
    }
    while rest.len() > 0
        invariant
            0 <= k <= all.len(),
            other.wf(),
            rest@ == all.subrange(k, all.len() as int),
            key_views(out@) == missing_from(all.subrange(0, k), other.contents()),
        decreases rest.len(),
    {
        let t = rest.remove(0);
        let id = tuple_identity(&t);
        proof {
            assert(t == all[k]);
            let pre = all.subrange(0, k + 1);
            assert(pre.drop_last() =~= all.subrange(0, k));
            assert(pre.last() == t);
        }
        if !other.contains(id.as_str()) {
            let ghost before = key_views(out@);
            out.push(t);
            proof {
                assert(key_views(out@) =~= before.push(key_view(t)));
            }
        }
        proof {
            k = k + 1;
            assert(rest@ =~= all.subrange(k, all.len() as int));
        }
    }
    proof {
        assert(all.subrange(0, k) =~= all);
    }
    out
}

/// What brings a managed tuple set from `current` to `desired`: the desired
/// tuples it lacks are written and the current tuples not desired are
/// deleted, both in their given order, by identity.
pub fn managed_tuple_diff(desired: Vec<TupleKey>, current: Vec<TupleKey>) -> (r: (Vec<TupleKey>, Vec<TupleKey>))
    ensures
        key_views(r.0@) == missing_from(desired@, identities(current@)),
        key_views(r.1@) == missing_from(current@, identities(desired@)),
{
    let desired_set = identity_set(&desired);
    let current_set = identity_set(&current);
    let writes = keep_missing(desired, &current_set);
    let deletes = keep_missing(current, &desired_set);
    (writes, deletes)
}

/// The checks of a batch filter: `principal` in `relation` to each object of
/// type `object_type` with the given id, correlated by position.
pub fn batch_filter_checks(principal_ref: &str, relation: &str, object_type: &str, object_ids: &Vec<String>) -> (r: Vec<
    BatchCheckItem,
>)
    ensures
        r@.len() == object_ids@.len(),
        forall|i: int|
            0 <= i < r@.len() ==> {
                &&& (#[trigger] r@[i]).tuple_key.user@ == principal_ref@
                &&& r@[i].tuple_key.relation@ == relation@
                &&& r@[i].tuple_key.object@ == object_type@ + ":"@ + object_ids@[i]@
                &&& r@[i].tuple_key.condition is None
                &&& r@[i].correlation_id matches Some(c) && c@ == spec_decimal(i as nat)
            },
{
    let mut out: Vec<BatchCheckItem> = Vec::new();
    let mut i: usize = 0;
    while i < object_ids.len()
        invariant
            i <= object_ids@.len(),
            out@.len() == i,
            forall|j: int|
                0 <= j < i ==> {
                    &&& (#[trigger] out@[j]).tuple_key.user@ == principal_ref@
                    &&& out@[j].tuple_key.relation@ == relation@
                    &&& out@[j].tuple_key.object@ == object_type@ + ":"@ + object_ids@[j]@
                    &&& out@[j].tuple_key.condition is None
                    &&& out@[j].correlation_id matches Some(c) && c@ == spec_decimal(j as nat)
                },
        decreases object_ids.len() - i,
    {
        let key = TupleKey {
            user: str_to_string(principal_ref),
            relation: str_to_string(relation),
            object: concat3(object_type, ":", object_ids[i].as_str()),
            condition: None,
        };
        out.push(BatchCheckItem { tuple_key: key, correlation_id: Some(u64_to_decimal(i as u64)) });
        i = i + 1;
    }
    out
}

/// The ids a batch filter keeps: those whose check allowed, found by the
/// position their correlation id names; in the order of the results.
pub open spec fn spec_allowed_ids(results: Seq<BatchCheckResult>, ids: Seq<String>) -> Seq<Seq<char>>
    decreases results.len(),
{
    if results.len() == 0 {
        Seq::empty()
    } else {
        let last = results.last();
        spec_allowed_ids(results.drop_last(), ids) + if last.allowed {
            match last.correlation_id {
                Some(c) => match spec_parse_u64(c@) {
                    Some(i) => if i < ids.len() {
                        seq![ids[i]@]
                    } else {
                        Seq::empty()
                    },
                    None => Seq::empty(),
                },
                None => Seq::empty(),
            }
        } else {
            Seq::empty()
        }
    }
}

/// The ids the checks allowed.
pub fn allowed_ids(results: &Vec<BatchCheckResult>, ids: &Vec<String>) -> (r: Vec<String>)
    ensures
        texts(r@) == spec_allowed_ids(results@, ids@),
{
    let mut out: Vec<String> = Vec::new();
    let mut k: usize = 0;
    proof {
        assert(results@.subrange(0, 0) =~= Seq::<BatchCheckResult>::empty());
        assert(texts(out@) =~= spec_allowed_ids(results@.subrange(0, 0), ids@));
    }
    while k < results.len()
        invariant
            k <= results@.len(),
            texts(out@) == spec_allowed_ids(results@.subrange(0, k as int), ids@),
        decreases results.len() - k,
    {
        let res = &results[k];
        proof {
            let pre = results@.subrange(0, k as int + 1);
            assert(pre.drop_last() =~= results@.subrange(0, k as int));
            assert(pre.last() == *res);
        }
        let ghost before = texts(out@);
        if res.allowed {
            if let Some(c) = &res.correlation_id {
                if let Some(i) = parse_u64(c.as_str()) {
                    if (i as usize) < ids.len() && i <= usize::MAX as u64 {
                        out.push(copy_string(&ids[i as usize]));
                        proof {
                            assert(texts(out@) =~= before.push(ids@[i as int]@));
                        }
                    }
                }
            }
        }
        k = k + 1;
    }
    assert(results@.subrange(0, results@.len() as int) =~= results@);
    out
}

/// `principal` stands in `relation` to object `object_type:id`.
pub open spec fn id_holds(w: World, principal: Seq<char>, relation: Seq<char>, object_type: Seq<char>, id: Seq<char>) -> bool {
    match spec_parse_tuple(principal, relation, object_type + ":"@ + id) {
        Ok(t) => holds(w, t.user, t.relation, t.object),
        Err(_) => false,
    }
}

/// The check of `principal` in `relation` of object `object_type:id` fits
/// (see `check_fits`).
pub open spec fn id_fits(w: World, max: int, principal: Seq<char>, relation: Seq<char>, object_type: Seq<char>, id: Seq<char>) -> bool {
    match spec_parse_tuple(principal, relation, object_type + ":"@ + id) {
        Ok(t) => check_fits(w, max, t.user, t.relation, t.object),
        Err(_) => false,
    }
}

/// The ids among `ids`, in order, of the objects `principal` stands in
/// `relation` to.
pub open spec fn held_ids(
    w: World,
    principal: Seq<char>,
    relation: Seq<char>,
    object_type: Seq<char>,
    ids: Seq<String>,
) -> Seq<Seq<char>>
    decreases ids.len(),
{
    if ids.len() == 0 {
        Seq::empty()
    } else {
        held_ids(w, principal, relation, object_type, ids.drop_last()) + if id_holds(
            w,
            principal,
            relation,
            object_type,
            ids.last()@,
        ) {
            seq![ids.last()@]
        } else {
            Seq::empty()
        }
    }
}

proof fn lemma_allowed_are_held(
    results: Seq<BatchCheckResult>,
    ids: Seq<String>,
    w: World,
    principal: Seq<char>,
    relation: Seq<char>,
    object_type: Seq<char>,
    k: int,
)
    requires
        0 <= k <= results.len(),
        results.len() == ids.len(),
        ids.len() <= u64::MAX,
        forall|i: int|
            0 <= i < results.len() ==> ((#[trigger] results[i]).correlation_id matches Some(c) && c@ == spec_decimal(
                i as nat,
            )) && (results[i].allowed <==> id_holds(w, principal, relation, object_type, ids[i]@)),
    ensures
        spec_allowed_ids(results.subrange(0, k), ids) == held_ids(w, principal, relation, object_type, ids.subrange(0, k)),
    decreases k,
{
    if k > 0 {
        lemma_allowed_are_held(results, ids, w, principal, relation, object_type, k - 1);
        let rs = results.subrange(0, k);
        let is = ids.subrange(0, k);
        assert(rs.drop_last() =~= results.subrange(0, k - 1));
        assert(is.drop_last() =~= ids.subrange(0, k - 1));
        assert(rs.last() == results[k - 1]);
        assert(is.last() == ids[k - 1]);
        lemma_parse_decimal((k - 1) as nat);
    }
}

/// Which of `object_ids` (objects of type `object_type`) `principal_ref`
/// stands in `relation` to, checked as one batch over the stored tuples:
/// none for no ids; where every check fits, exactly the ids whose relation
/// holds, in their order.
pub fn batch_filter(
    model: &CompiledModel,
    stored: &Vec<ParsedTupleKey>,
    principal_ref: &str,
    relation: &str,
    object_type: &str,
    object_ids: &Vec<String>,
    max_depth: usize,
) -> (r: Result<Vec<String>, FgaError>)
    ensures
        object_ids@.len() == 0 ==> (r matches Ok(v) && v@.len() == 0),
        (forall|i: int|
            0 <= i < object_ids@.len() ==> id_fits(
                request_world(model@, stored@, Seq::empty()),
                max_depth as int,
                principal_ref@,
                relation@,
                object_type@,
                #[trigger] object_ids@[i]@,
            )) ==> (r matches Ok(v) && texts(v@) == held_ids(
            request_world(model@, stored@, Seq::empty()),
            principal_ref@,
            relation@,
            object_type@,
            object_ids@,
        )),
{
    if object_ids.len() == 0 {
        return Ok(Vec::new());
    }
    let checks = batch_filter_checks(principal_ref, relation, object_type, object_ids);
    let ghost cs = checks@;
    let request = BatchCheckRequest { checks, authorization_model_id: None, contextual_tuples: None, context: None };
    proof {
        assert(crate::fga_eval::contextual_keys(None) =~= Seq::<TupleKey>::empty());
    }
    let response = match evaluate_batch_check(model, stored, request, max_depth) {
        Ok(resp) => resp,
        Err(e) => {
            return Err(e);
        },
    };
    proof {
        let w = request_world(model@, stored@, Seq::empty());
        let all = forall|i: int|
            0 <= i < object_ids@.len() ==> id_fits(w, max_depth as int, principal_ref@, relation@, object_type@, #[trigger] object_ids@[i]@);
        if all {
            assert forall|j: int| 0 <= j < cs.len() implies key_fits(w, max_depth as int, #[trigger] cs[j].tuple_key) by {
                assert(id_fits(w, max_depth as int, principal_ref@, relation@, object_type@, object_ids@[j]@));
            }
            assert forall|i: int| 0 <= i < response.results@.len() implies ((#[trigger] response.results@[i]).correlation_id matches Some(c) && c@ == spec_decimal(
                i as nat,
            )) && (response.results@[i].allowed <==> id_holds(w, principal_ref@, relation@, object_type@, object_ids@[i]@)) by {
                assert(forall|j: int| 0 <= j <= i ==> key_fits(w, max_depth as int, #[trigger] cs[j].tuple_key));
            }
            lemma_allowed_are_held(response.results@, object_ids@, w, principal_ref@, relation@, object_type@, object_ids@.len() as int);
            assert(response.results@.subrange(0, object_ids@.len() as int) =~= response.results@);
            assert(object_ids@.subrange(0, object_ids@.len() as int) =~= object_ids@);
        }
    }
    Ok(allowed_ids(&response.results, object_ids))
}

} // verus!

verus! {

/// What taking the next unvisited instance off the stack `parents` leaves,
/// and the instance taken, if any.
pub open spec fn pop_unvisited(parents: Seq<Seq<char>>, visited: Set<Seq<char>>) -> (Seq<Seq<char>>, Option<
    Seq<char>,
>)
    decreases parents.len(),
{
    if parents.len() == 0 {
        (parents, None)
    } else if visited.contains(parents.last()) {
        pop_unvisited(parents.drop_last(), visited)
    } else {
        (parents.drop_last(), Some(parents.last()))
    }
}

/// The membership tuples of every membership of `parent`, in order.
pub open spec fn all_membership_tuples(
    parent: Seq<char>,
    ms: Seq<OrgMembership>,
    children: Seq<ChildOwnership>,
) -> Seq<(Seq<char>, Seq<char>, Seq<char>)>
    decreases ms.len(),
{
    if ms.len() == 0 {
        Seq::empty()
    } else {
        all_membership_tuples(parent, ms.drop_last(), children) + spec_membership_tuples(parent, ms.last(), children)
    }
}

/// The child tuples of every child of `parent`, in order.
pub open spec fn all_child_tuples(parent: Seq<char>, children: Seq<ChildOwnership>) -> Seq<
    (Seq<char>, Seq<char>, Seq<char>),
>
    decreases children.len(),
{
    if children.len() == 0 {
        Seq::empty()
    } else {
        all_child_tuples(parent, children.drop_last()) + spec_child_tuples(parent, children.last())
    }
}

/// The tuples one visited instance contributes: those of its memberships,
/// then those of its children.
pub open spec fn spec_visit_tuples(
    parent: Seq<char>,
    ms: Seq<OrgMembership>,
    children: Seq<ChildOwnership>,
) -> Seq<(Seq<char>, Seq<char>, Seq<char>)> {
    all_membership_tuples(parent, ms, children) + all_child_tuples(parent, children)
}

pub open spec fn child_ids(children: Seq<ChildOwnership>) -> Seq<Seq<char>> {
    children.map_values(|c: ChildOwnership| c.instance_id@)
}

pub open spec fn ownership_view(o: (String, String, String)) -> (Seq<char>, Seq<char>, Seq<char>) {
    (o.0@, o.1@, o.2@)
}

pub open spec fn ownership_views(s: Seq<(String, String, String)>) -> Seq<(Seq<char>, Seq<char>, Seq<char>)> {
    s.map_values(|o: (String, String, String)| ownership_view(o))
}

/// The ownerships a visit records: parent, child instance, owning org.
pub open spec fn visit_ownerships(parent: Seq<char>, children: Seq<ChildOwnership>) -> Seq<
    (Seq<char>, Seq<char>, Seq<char>),
> {
    children.map_values(|c: ChildOwnership| (parent, c.instance_id@, c.owner_org_id@))
}

proof fn lemma_key_views_add(a: Seq<TupleKey>, b: Seq<TupleKey>)
    ensures
        key_views(a + b) == key_views(a) + key_views(b),
{
    assert(key_views(a + b) =~= key_views(a) + key_views(b));
}

/// The walk over an instance hierarchy, from a root instance down through the
/// children each instance owns, that collects the tuples the platform store
/// should hold. The caller fetches, for each instance the walk hands out, its
/// org memberships and child instances, and afterwards the role assignments
/// and the bindings of each recorded ownership.
#[derive(Debug)]
pub struct PlatformWalk {
    pub tuples: Vec<TupleKey>,
    pub visited: SortedStrings,
    pub parents: Vec<String>,
    pub child_ownerships: Vec<(String, String, String)>,
}

impl PlatformWalk {
    pub open spec fn wf(&self) -> bool {
        self.visited.wf()
    }

    /// A walk that starts at `root`.
    pub fn new(root: &str) -> (w: PlatformWalk)
        ensures
            w.wf(),
            w.tuples@.len() == 0,
            w.visited.contents() == Set::<Seq<char>>::empty(),
            texts(w.parents@) == seq![root@],
            w.child_ownerships@.len() == 0,
    {
        let mut parents: Vec<String> = Vec::new();
        parents.push(str_to_string(root));
        let w = PlatformWalk {
            tuples: Vec::new(),
            visited: SortedStrings::new(),
            parents,
            child_ownerships: Vec::new(),
        };
        assert(texts(w.parents@) =~= seq![root@]);
        assert(w.visited.contents() =~= Set::<Seq<char>>::empty());
        w
    }

    /// The next instance to visit: instances on top of the stack that were
    /// visited already are dropped; the first that was not is taken off the
    /// stack, marked visited and returned. `None` once the stack is empty.
    pub fn next_parent(&mut self) -> (r: Option<String>)
        requires
            old(self).wf(),
        ensures
            final(self).wf(),
            (texts(final(self).parents@), match r {
                Some(p) => Some(p@),
                None => None,
            }) == pop_unvisited(texts(old(self).parents@), old(self).visited.contents()),
            final(self).visited.contents() == match r {
                Some(p) => old(self).visited.contents().insert(p@),
                None => old(self).visited.contents(),
            },
            r matches Some(p) ==> !old(self).visited.contents().contains(p@),
            final(self).tuples@ == old(self).tuples@,
            final(self).child_ownerships@ == old(self).child_ownerships@,
    {
        let ghost target = pop_unvisited(texts(self.parents@), self.visited.contents());
        let ghost seen = self.visited.contents();
        let ghost tuples0 = self.tuples@;
        let ghost owners0 = self.child_ownerships@;
        loop
            invariant
                self.wf(),
                self.visited.contents() == seen,
                pop_unvisited(texts(self.parents@), seen) == target,
                self.tuples@ == tuples0,
                self.child_ownerships@ == owners0,
                target == pop_unvisited(texts(old(self).parents@), old(self).visited.contents()),
                seen == old(self).visited.contents(),
                tuples0 == old(self).tuples@,
                owners0 == old(self).child_ownerships@,
            decreases self.parents@.len(),
        {
            let ghost before = texts(self.parents@);
            match self.parents.pop() {
                None => {
                    return None;
                },
                Some(p) => {
                    proof {
                        assert(texts(self.parents@) =~= before.drop_last());
                        assert(before.last() == p@);
                    }
                    if !self.visited.contains(p.as_str()) {
                        self.visited.insert(copy_string(&p));
                        return Some(p);
                    }
                },
            }
        }
    }

    /// Records a visit of `parent`: the tuples of its memberships and of its
    /// children are added, each child's ownership is recorded and the
    /// children are pushed for a later visit.
    pub fn visit(&mut self, parent: &str, memberships: &Vec<OrgMembership>, children: &Vec<ChildOwnership>)
        requires
            old(self).wf(),
        ensures
            final(self).wf(),
            final(self).visited == old(self).visited,
            key_views(final(self).tuples@) == key_views(old(self).tuples@) + spec_visit_tuples(
                parent@,
                memberships@,
                children@,
            ),
            texts(final(self).parents@) == texts(old(self).parents@) + child_ids(children@),
            ownership_views(final(self).child_ownerships@) == ownership_views(old(self).child_ownerships@)
                + visit_ownerships(parent@, children@),
    {
        let ghost tuples0 = key_views(self.tuples@);
        let ghost parents0 = texts(self.parents@);
        let ghost owners0 = ownership_views(self.child_ownerships@);
        let ghost visited0 = self.visited;
        let mut i: usize = 0;
        proof {
            assert(memberships@.subrange(0, 0) =~= Seq::<OrgMembership>::empty());
            assert(key_views(self.tuples@) =~= tuples0 + all_membership_tuples(
                parent@,
                memberships@.subrange(0, 0),
                children@,
            ));
        }
        while i < memberships.len()
            invariant
                i <= memberships@.len(),
                self.visited == visited0,
                visited0.wf(),
                texts(self.parents@) == parents0,
                ownership_views(self.child_ownerships@) == owners0,
                key_views(self.tuples@) == tuples0 + all_membership_tuples(
                    parent@,
                    memberships@.subrange(0, i as int),
                    children@,
                ),
            decreases memberships.len() - i,
        {
            let mut more = membership_tuples(parent, &memberships[i], children);
            proof {
                let pre = memberships@.subrange(0, i as int + 1);
                assert(pre.drop_last() =~= memberships@.subrange(0, i as int));
                assert(pre.last() == memberships@[i as int]);
                lemma_key_views_add(self.tuples@, more@);
            }
            self.tuples.append(&mut more);
            i = i + 1;
        }
        proof {
            assert(memberships@.subrange(0, memberships@.len() as int) =~= memberships@);
        }
        let ghost mid = key_views(self.tuples@);
        let mut j: usize = 0;
        proof {
            assert(children@.subrange(0, 0) =~= Seq::<ChildOwnership>::empty());
            assert(mid =~= mid + all_child_tuples(parent@, children@.subrange(0, 0)));
            assert(texts(self.parents@) =~= parents0 + child_ids(children@.subrange(0, 0)));
            assert(ownership_views(self.child_ownerships@) =~= owners0 + visit_ownerships(
                parent@,
                children@.subrange(0, 0),
            ));
        }
        while j < children.len()
            invariant
                j <= children@.len(),
                self.visited == visited0,
                visited0.wf(),
                key_views(self.tuples@) == mid + all_child_tuples(parent@, children@.subrange(0, j as int)),
                texts(self.parents@) == parents0 + child_ids(children@.subrange(0, j as int)),
                ownership_views(self.child_ownerships@) == owners0 + visit_ownerships(
                    parent@,
                    children@.subrange(0, j as int),
                ),
            decreases children.len() - j,
        {
            let c = &children[j];
            let mut more = child_tuples(parent, c);
            let ghost pre = children@.subrange(0, j as int + 1);
            proof {
                assert(pre.drop_last() =~= children@.subrange(0, j as int));
                assert(pre.last() == *c);
                lemma_key_views_add(self.tuples@, more@);
            }
            self.tuples.append(&mut more);
            let ghost pbefore = self.parents@;
            let ghost obefore = self.child_ownerships@;
            self.child_ownerships.push(
                (str_to_string(parent), copy_string(&c.instance_id), copy_string(&c.owner_org_id)),
            );
            self.parents.push(copy_string(&c.instance_id));
            proof {
                assert(texts(self.parents@) =~= texts(pbefore).push(c.instance_id@));
                assert(child_ids(pre) =~= child_ids(children@.subrange(0, j as int)).push(c.instance_id@));
                assert(ownership_views(self.child_ownerships@) =~= ownership_views(obefore).push(
                    (parent@, c.instance_id@, c.owner_org_id@),
                ));
                assert(visit_ownerships(parent@, pre) =~= visit_ownerships(
                    parent@,
                    children@.subrange(0, j as int),
                ).push((parent@, c.instance_id@, c.owner_org_id@)));
            }
            j = j + 1;
        }
        proof {
            assert(children@.subrange(0, children@.len() as int) =~= children@);
        }
    }

    /// Adds the tuple of a role assignment unless it expired at `now`.
    pub fn add_assignment(
        &mut self,
        principal_ref: &str,
        relation: &str,
        scope_kind: &str,
        scope_id: &str,
        expires_at: Option<&str>,
        now: &str,
    )
        requires
            old(self).wf(),
        ensures
            final(self).wf(),
            final(self).visited == old(self).visited,
            final(self).parents@ == old(self).parents@,
            final(self).child_ownerships@ == old(self).child_ownerships@,
            key_views(final(self).tuples@) == if assignment_active(
                match expires_at {
                    Some(e) => Some(e@),
                    None => None,
                },
                now@,
            ) {
                key_views(old(self).tuples@).push((principal_ref@, relation@, scope_kind@ + ":"@ + scope_id@))
            } else {
                key_views(old(self).tuples@)
            },
    {
        if let Some(t) = assignment_tuple(principal_ref, relation, scope_kind, scope_id, expires_at, now) {
            proof {
                lemma_key_views_push(self.tuples@, t);
            }
            self.tuples.push(t);
        }
    }

    /// Adds the tuple a role binding of the org owning `child_instance_id`
    /// projects onto that instance, if its role projects.
    pub fn add_binding(&mut self, principal_ref: &str, role_key: &str, child_instance_id: &str)
        requires
            old(self).wf(),
        ensures
            final(self).wf(),
            final(self).visited == old(self).visited,
            final(self).parents@ == old(self).parents@,
            final(self).child_ownerships@ == old(self).child_ownerships@,
            key_views(final(self).tuples@) == match spec_projected_child_relation(role_key@) {
                Some(rel) => key_views(old(self).tuples@).push(
                    (principal_ref@, rel, "instance:"@ + child_instance_id@),
                ),
                None => key_views(old(self).tuples@),
            },
    {
        if let Some(t) = binding_tuple(principal_ref, role_key, child_instance_id) {
            proof {
                lemma_key_views_push(self.tuples@, t);
            }
            self.tuples.push(t);
        }
    }
}

} // verus!
