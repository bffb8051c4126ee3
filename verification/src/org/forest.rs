//! The department tree never loops.
use crate::org::departments::{
    child_of, create_refusal, delete_refusal, department_key, department_with_id, descends,
    manual_department, move_refusal, moved, not_department_key, parent_of, renamed,
};
use crate::org::models::{DepartmentRowView, UserOrgRowView};
use crate::org::service::OrgState;
use crate::table::{
    any, first, lemma_first, lemma_first_filter, lemma_first_map, lemma_first_push,
    lemma_no_repeat_len,
};
use crate::text::trimmed_text;
use vstd::prelude::*;

verus! {

/// The way up from a department ends at the top within `hops` steps.
pub open spec fn grounded(
    departments: Seq<DepartmentRowView>,
    tenant_id: Seq<char>,
    id: Seq<char>,
    hops: nat,
) -> bool
    decreases hops,
{
    match parent_of(departments, tenant_id, id) {
        None => true,
        Some(p) => hops > 0 && grounded(departments, tenant_id, p, (hops - 1) as nat),
    }
}

/// The way up from a department ends at the top.
pub open spec fn reaches_top(
    departments: Seq<DepartmentRowView>,
    tenant_id: Seq<char>,
    id: Seq<char>,
) -> bool {
    exists|hops: nat| #[trigger] grounded(departments, tenant_id, id, hops)
}

/// From every department of the group the way up ends at the top.
pub open spec fn forest(departments: Seq<DepartmentRowView>, tenant_id: Seq<char>) -> bool {
    forall|id: Seq<char>| #[trigger] reaches_top(departments, tenant_id, id)
}

/// The department that many steps up.
pub open spec fn up(
    departments: Seq<DepartmentRowView>,
    tenant_id: Seq<char>,
    id: Seq<char>,
    steps: nat,
) -> Option<Seq<char>>
    decreases steps,
{
    if steps == 0 {
        Some(id)
    } else {
        match parent_of(departments, tenant_id, id) {
            Some(p) => up(departments, tenant_id, p, (steps - 1) as nat),
            None => None,
        }
    }
}

proof fn lemma_up_ends(
    ds: Seq<DepartmentRowView>,
    t: Seq<char>,
    id: Seq<char>,
    hops: nat,
    steps: nat,
)
    requires
        grounded(ds, t, id, hops),
        steps > hops,
    ensures
        up(ds, t, id, steps) is None,
    decreases hops,
{
    if let Some(p) = parent_of(ds, t, id) {
        lemma_up_ends(ds, t, p, (hops - 1) as nat, (steps - 1) as nat);
    }
}

proof fn lemma_up_sum(ds: Seq<DepartmentRowView>, t: Seq<char>, id: Seq<char>, i: nat, j: nat)
    ensures
        up(ds, t, id, i + j) == match up(ds, t, id, i) {
            Some(x) => up(ds, t, x, j),
            None => None,
        },
    decreases i,
{
    if i > 0 {
        if let Some(p) = parent_of(ds, t, id) {
            lemma_up_sum(ds, t, p, (i - 1) as nat, j);
            assert((i + j - 1) as nat == (i - 1) as nat + j);
        }
    }
}

proof fn lemma_grounded_up(
    ds: Seq<DepartmentRowView>,
    t: Seq<char>,
    id: Seq<char>,
    hops: nat,
    i: nat,
)
    requires
        grounded(ds, t, id, hops),
        up(ds, t, id, i) is Some,
    ensures
        i <= hops,
        grounded(ds, t, up(ds, t, id, i)->0, (hops - i) as nat),
    decreases i,
{
    if i > 0 {
        let p = parent_of(ds, t, id)->0;
        lemma_grounded_up(ds, t, p, (hops - 1) as nat, (i - 1) as nat);
    }
}

proof fn lemma_round_and_round(
    ds: Seq<DepartmentRowView>,
    t: Seq<char>,
    x: Seq<char>,
    d: nat,
    m: nat,
)
    requires
        up(ds, t, x, d) == Some(x),
    ensures
        up(ds, t, x, m * d) == Some(x),
    decreases m,
{
    if m > 0 {
        lemma_round_and_round(ds, t, x, d, (m - 1) as nat);
        lemma_up_sum(ds, t, x, d, ((m - 1) as nat) * d);
        assert(d + ((m - 1) as nat) * d == m * d) by (nonlinear_arith)
            requires
                m > 0,
        ;
    } else {
        assert(m * d == 0) by (nonlinear_arith)
            requires
                m == 0,
        ;
    }
}

/// On a way up that ends, no department is met twice.
proof fn lemma_no_repeat(
    ds: Seq<DepartmentRowView>,
    t: Seq<char>,
    id: Seq<char>,
    hops: nat,
    i: nat,
    j: nat,
)
    requires
        grounded(ds, t, id, hops),
        i < j,
        up(ds, t, id, i) is Some,
        up(ds, t, id, j) is Some,
    ensures
        up(ds, t, id, i) != up(ds, t, id, j),
{
    if up(ds, t, id, i) == up(ds, t, id, j) {
        let x = up(ds, t, id, i)->0;
        let d = (j - i) as nat;
        lemma_up_sum(ds, t, id, i, d);
        lemma_grounded_up(ds, t, id, hops, i);
        let m = hops + 1;
        lemma_round_and_round(ds, t, x, d, m);
        assert(m * d > hops - i) by (nonlinear_arith)
            requires
                m == hops + 1,
                d >= 1,
                i >= 0,
        ;
        lemma_up_ends(ds, t, x, (hops - i) as nat, m * d);
    }
}

/// A way up that ends is no longer than there are departments.
proof fn lemma_chain_short(
    ds: Seq<DepartmentRowView>,
    t: Seq<char>,
    id: Seq<char>,
    hops: nat,
    n: nat,
)
    requires
        grounded(ds, t, id, hops),
        up(ds, t, id, n) is Some,
    ensures
        n <= ds.len(),
{
    let ids = ds.map_values(|r: DepartmentRowView| r.id);
    let chain = Seq::new(n, |i: int| up(ds, t, id, i as nat)->0);
    assert forall|i: int| 0 <= i < n implies ids.contains(#[trigger] chain[i]) by {
        lemma_up_sum(ds, t, id, i as nat, (n - i) as nat);
        let x = up(ds, t, id, i as nat)->0;
        assert(up(ds, t, x, (n - i) as nat) is Some);
        assert(parent_of(ds, t, x) is Some);
        lemma_first(ds, department_key(x, t));
        let r = first(ds, department_key(x, t))->0;
        let k = choose|k: int| 0 <= k < ds.len() && ds[k] == r;
        assert(ids[k] == x);
    }
    assert(chain.no_duplicates()) by {
        assert forall|i: int, j: int| 0 <= i < n && 0 <= j < n && i != j implies chain[i]
            != chain[j] by {
            lemma_up_sum(ds, t, id, i as nat, (n - i) as nat);
            lemma_up_sum(ds, t, id, j as nat, (n - j) as nat);
            if i < j {
                lemma_no_repeat(ds, t, id, hops, i as nat, j as nat);
            } else {
                lemma_no_repeat(ds, t, id, hops, j as nat, i as nat);
            }
        }
    }
    lemma_no_repeat_len(chain, ids);
}

proof fn lemma_met(
    ds: Seq<DepartmentRowView>,
    t: Seq<char>,
    id: Seq<char>,
    goal: Seq<char>,
    n: nat,
    hops: nat,
)
    requires
        up(ds, t, id, n) == Some(goal),
        n <= hops,
    ensures
        descends(ds, t, id, goal, hops),
    decreases n,
{
    if n > 0 {
        let p = parent_of(ds, t, id)->0;
        lemma_met(ds, t, p, goal, (n - 1) as nat, (hops - 1) as nat);
    }
}

/// Departments that differ from before in one department's parent only.
pub open spec fn regrafted(
    before: Seq<DepartmentRowView>,
    after: Seq<DepartmentRowView>,
    t: Seq<char>,
    id: Seq<char>,
) -> bool {
    forall|x: Seq<char>|
        x != id ==> #[trigger] parent_of(after, t, x) == parent_of(before, t, x)
}

proof fn lemma_avoiding(
    before: Seq<DepartmentRowView>,
    after: Seq<DepartmentRowView>,
    t: Seq<char>,
    id: Seq<char>,
    x: Seq<char>,
    hops: nat,
)
    requires
        regrafted(before, after, t, id),
        grounded(before, t, x, hops),
        forall|n: nat| #[trigger] up(before, t, x, n) != Some(id),
    ensures
        grounded(after, t, x, hops),
    decreases hops,
{
    assert(up(before, t, x, 0) == Some(x));
    assert(parent_of(after, t, x) == parent_of(before, t, x));
    if let Some(p) = parent_of(before, t, x) {
        assert forall|n: nat| #[trigger] up(before, t, p, n) != Some(id) by {
            assert(up(before, t, x, n + 1) == up(before, t, p, n));
        }
        lemma_avoiding(before, after, t, id, p, (hops - 1) as nat);
    }
}

proof fn lemma_below(
    before: Seq<DepartmentRowView>,
    after: Seq<DepartmentRowView>,
    t: Seq<char>,
    id: Seq<char>,
    x: Seq<char>,
    hops: nat,
    id_hops: nat,
) -> (r: nat)
    requires
        regrafted(before, after, t, id),
        grounded(before, t, x, hops),
        grounded(after, t, id, id_hops),
    ensures
        grounded(after, t, x, r),
    decreases hops,
{
    if x == id {
        id_hops
    } else {
        assert(parent_of(after, t, x) == parent_of(before, t, x));
        match parent_of(before, t, x) {
            None => 0,
            Some(p) => {
                let k = lemma_below(before, after, t, id, p, (hops - 1) as nat, id_hops);
                k + 1
            },
        }
    }
}

/// Giving one department a parent that is not below it keeps the forest.
pub proof fn lemma_regraft(
    before: Seq<DepartmentRowView>,
    after: Seq<DepartmentRowView>,
    t: Seq<char>,
    id: Seq<char>,
)
    requires
        forest(before, t),
        regrafted(before, after, t, id),
        parent_of(after, t, id) matches Some(p) ==> forall|n: nat|
            #[trigger] up(before, t, p, n) != Some(id),
    ensures
        forest(after, t),
{
    let id_hops: nat = match parent_of(after, t, id) {
        None => 0,
        Some(p) => {
            assert(reaches_top(before, t, p));
            let k = choose|k: nat| #[trigger] grounded(before, t, p, k);
            lemma_avoiding(before, after, t, id, p, k);
            k + 1
        },
    };
    assert(grounded(after, t, id, id_hops));
    assert forall|x: Seq<char>| #[trigger] reaches_top(after, t, x) by {
        assert(reaches_top(before, t, x));
        let k = choose|k: nat| #[trigger] grounded(before, t, x, k);
        let r = lemma_below(before, after, t, id, x, k, id_hops);
        assert(grounded(after, t, x, r));
    }
}

/// Departments that name the same parents as before.
pub proof fn lemma_same_parents(
    before: Seq<DepartmentRowView>,
    after: Seq<DepartmentRowView>,
    t: Seq<char>,
    id: Seq<char>,
)
    requires
        forest(before, t),
        forall|x: Seq<char>| #[trigger] parent_of(after, t, x) == parent_of(before, t, x),
    ensures
        forest(after, t),
{
    assert forall|p: Seq<char>| parent_of(after, t, id) == Some(p) implies forall|n: nat|
        #[trigger] up(before, t, p, n) != Some(id) by {
        assert(reaches_top(before, t, id));
        let k = choose|k: nat| #[trigger] grounded(before, t, id, k);
        assert forall|n: nat| #[trigger] up(before, t, p, n) != Some(id) by {
            if up(before, t, p, n) == Some(id) {
                assert(up(before, t, id, n + 1) == Some(id));
                assert(up(before, t, id, 0) == Some(id));
                lemma_no_repeat(before, t, id, k, 0, n + 1);
            }
        }
    }
    lemma_regraft(before, after, t, id);
}

/// A move that is not refused keeps every group's departments a forest.
pub proof fn move_keeps_forest(
    st: OrgState,
    tenant_id: Seq<char>,
    id: Seq<char>,
    new_parent: Option<Seq<char>>,
    now: i64,
    any_tenant: Seq<char>,
)
    requires
        forest(st.departments, any_tenant),
        move_refusal(st, tenant_id, id, new_parent) is None,
    ensures
        forest(moved(st.departments, tenant_id, id, new_parent, now), any_tenant),
{
    let before = st.departments;
    let after = moved(before, tenant_id, id, new_parent, now);
    let g = |r: DepartmentRowView|
        if department_key(id, tenant_id)(r) {
            DepartmentRowView { parent_id: new_parent, updated_at: now, ..r }
        } else {
            r
        };
    assert(after == before.map_values(g));
    assert forall|x: Seq<char>| parent_of(after, any_tenant, x) == if x == id && any_tenant
        == tenant_id && any(before, department_key(id, tenant_id)) {
        new_parent
    } else {
        #[trigger] parent_of(before, any_tenant, x)
    } by {
        lemma_first_map(before, department_key(x, any_tenant), g);
        lemma_first(before, department_key(x, any_tenant));
    }
    if any_tenant == tenant_id {
        let was = parent_of(before, tenant_id, id);
        assert(parent_of(after, tenant_id, id) == new_parent);
        if let Some(p) = new_parent {
            assert(reaches_top(before, tenant_id, p));
            let k = choose|k: nat| #[trigger] grounded(before, tenant_id, p, k);
            assert forall|n: nat| #[trigger] up(before, tenant_id, p, n) != Some(id) by {
                if up(before, tenant_id, p, n) == Some(id) {
                    lemma_chain_short(before, tenant_id, p, k, n);
                    lemma_met(before, tenant_id, p, id, n, before.len());
                }
            }
        }
        lemma_regraft(before, after, tenant_id, id);
    } else {
        lemma_same_parents(before, after, any_tenant, id);
    }
}

/// A new department under an identifier that nothing refers to keeps every group's departments
/// a forest.
pub proof fn create_keeps_forest(
    st: OrgState,
    id: Seq<char>,
    tenant_id: Seq<char>,
    parent_id: Option<Seq<char>>,
    name: Seq<char>,
    now: i64,
    any_tenant: Seq<char>,
)
    requires
        forest(st.departments, any_tenant),
        create_refusal(st, tenant_id, name, parent_id) is None,
        !any(st.departments, department_with_id(id)),
        !any(st.departments, child_of(id)),
    ensures
        forest(
            st.departments.push(
                manual_department(id, tenant_id, parent_id, trimmed_text(name), now),
            ),
            any_tenant,
        ),
{
    let before = st.departments;
    let row = manual_department(id, tenant_id, parent_id, trimmed_text(name), now);
    let after = before.push(row);
    assert forall|x: Seq<char>| x != id implies #[trigger] parent_of(after, any_tenant, x)
        == parent_of(before, any_tenant, x) by {
        lemma_first_push(before, row, department_key(x, any_tenant));
    }
    lemma_first_push(before, row, department_key(id, any_tenant));
    lemma_first(before, department_key(id, any_tenant));
    if any(before, department_key(id, any_tenant)) {
        let i = choose|i: int|
            0 <= i < before.len() && department_key(id, any_tenant)(#[trigger] before[i]);
        assert(department_with_id(id)(before[i]));
    }
    if let Some(p) = parent_of(after, any_tenant, id) {
        assert forall|n: nat| #[trigger] up(before, any_tenant, p, n) != Some(id) by {
            if n == 0 {
                if p == id {
                    let i = choose|i: int|
                        0 <= i < before.len() && department_key(p, tenant_id)(
                            #[trigger] before[i],
                        );
                    assert(department_with_id(id)(before[i]));
                }
            } else if up(before, any_tenant, p, n) == Some(id) {
                lemma_last_step(before, any_tenant, p, n);
            }
        }
    }
    lemma_regraft(before, after, any_tenant, id);
}

/// What is met after a step up is some department's parent.
proof fn lemma_last_step(ds: Seq<DepartmentRowView>, t: Seq<char>, x: Seq<char>, n: nat)
    requires
        n > 0,
        up(ds, t, x, n) is Some,
    ensures
        any(ds, child_of(up(ds, t, x, n)->0)),
    decreases n,
{
    if n == 1 {
        lemma_first(ds, department_key(x, t));
        let r = first(ds, department_key(x, t))->0;
        let k = choose|k: int| 0 <= k < ds.len() && ds[k] == r;
        let p = parent_of(ds, t, x)->0;
        assert(up(ds, t, p, 0) == Some(p));
        assert(child_of(p)(ds[k]));
    } else {
        let p = parent_of(ds, t, x)->0;
        lemma_last_step(ds, t, p, (n - 1) as nat);
    }
}

/// A deletion that is not refused keeps every group's departments a forest.
pub proof fn delete_keeps_forest(
    departments: Seq<DepartmentRowView>,
    members: Seq<UserOrgRowView>,
    tenant_id: Seq<char>,
    id: Seq<char>,
    any_tenant: Seq<char>,
)
    requires
        forest(departments, any_tenant),
        delete_refusal(departments, members, tenant_id, id) is None,
    ensures
        forest(departments.filter(not_department_key(id, tenant_id)), any_tenant),
{
    let keep = not_department_key(id, tenant_id);
    let after = departments.filter(keep);
    assert forall|x: Seq<char>| x != id || any_tenant != tenant_id implies #[trigger] parent_of(
        after,
        any_tenant,
        x,
    ) == parent_of(departments, any_tenant, x) by {
        lemma_first_filter(departments, department_key(x, any_tenant), keep);
    }
    if any_tenant == tenant_id {
        lemma_first(after, department_key(id, tenant_id));
        if any(after, department_key(id, tenant_id)) {
            let i = choose|i: int|
                0 <= i < after.len() && department_key(id, tenant_id)(#[trigger] after[i]);
            departments.lemma_filter_pred(keep, i);
        }
        lemma_regraft(departments, after, tenant_id, id);
    } else {
        lemma_same_parents(departments, after, any_tenant, id);
    }
}

/// Renaming a department keeps every group's departments a forest.
pub proof fn rename_keeps_forest(
    departments: Seq<DepartmentRowView>,
    tenant_id: Seq<char>,
    id: Seq<char>,
    name: Seq<char>,
    now: i64,
    any_tenant: Seq<char>,
)
    requires
        forest(departments, any_tenant),
    ensures
        forest(renamed(departments, tenant_id, id, name, now), any_tenant),
{
    let g = |r: DepartmentRowView|
        if department_key(id, tenant_id)(r) {
            DepartmentRowView { name, updated_at: now, ..r }
        } else {
            r
        };
    let after = renamed(departments, tenant_id, id, name, now);
    assert(after == departments.map_values(g));
    assert forall|x: Seq<char>| #[trigger] parent_of(after, any_tenant, x) == parent_of(
        departments,
        any_tenant,
        x,
    ) by {
        lemma_first_map(departments, department_key(x, any_tenant), g);
    }
    lemma_same_parents(departments, after, any_tenant, id);
}

} // verus!
