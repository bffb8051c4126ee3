//! What granting and revoking do to what members may reach.
use crate::org::departments::{department_key, parent_of};
use crate::org::membership::member_key;
use crate::org::models::DepartmentRowView;
use crate::platform::error::PlatformErrorView;
use crate::platform::grants::{
    departments_of_member, effective, grant_dto, grant_key, grant_listed, grant_revoked, granted,
    grants_shown, in_scene, lineage, newest_grant_first, not_grant_key, reach_told, reaches,
    reaches_resource, resource_granted, same_grant, ANCESTRY_LIMIT, GRANT_ALL_RESOURCES,
};
use crate::platform::models::{
    EffectiveGrantDtoView, ResourceGrantDtoView, ResourceGrantRowView,
};
use crate::platform::service::PlatformState;
use crate::table::{any, first, lemma_filter_from, lemma_first, lemma_found_at, listed_rows};
use crate::text::trimmed_text;
use vstd::prelude::*;

verus! {

/// Whether the group's first department under an identifier names another as its parent.
pub open spec fn stands_under(
    departments: Seq<DepartmentRowView>,
    tenant_id: Seq<char>,
    child: Seq<char>,
    parent: Seq<char>,
) -> bool {
    exists|i: int|
        0 <= i < departments.len() && (#[trigger] departments[i]).id == child
            && departments[i].tenant_id == tenant_id && departments[i].parent_id == Some(parent)
            && forall|j: int|
            0 <= j < i ==> !((#[trigger] departments[j]).id == child && departments[j].tenant_id
                == tenant_id)
}

/// A way up from one department to another, both ends included.
pub open spec fn way_up(
    departments: Seq<DepartmentRowView>,
    tenant_id: Seq<char>,
    way: Seq<Seq<char>>,
    from: Seq<char>,
    to: Seq<char>,
) -> bool {
    &&& 0 < way.len()
    &&& way[0] == from
    &&& way.last() == to
    &&& forall|k: int|
        0 <= k < way.len() - 1 ==> stands_under(
            departments,
            tenant_id,
            #[trigger] way[k],
            way[k + 1],
        )
}

/// Whether the person's membership in the group, the first on record, assigns them to a department.
pub open spec fn assigned(
    st: PlatformState,
    tenant_id: Seq<char>,
    user_id: Seq<char>,
    department: Seq<char>,
) -> bool {
    exists|i: int|
        0 <= i < st.members.len() && (#[trigger] st.members[i]).user_id == user_id
            && st.members[i].tenant_id == tenant_id && st.members[i].department_id == Some(
            department,
        ) && forall|j: int|
            0 <= j < i ==> !((#[trigger] st.members[j]).user_id == user_id
                && st.members[j].tenant_id == tenant_id)
}

proof fn lemma_stands_under(
    departments: Seq<DepartmentRowView>,
    tenant_id: Seq<char>,
    child: Seq<char>,
    parent: Seq<char>,
)
    ensures
        stands_under(departments, tenant_id, child, parent) <==> parent_of(
            departments,
            tenant_id,
            child,
        ) == Some(parent),
{
    let p = department_key(child, tenant_id);
    lemma_first(departments, p);
    if stands_under(departments, tenant_id, child, parent) {
        let i = choose|i: int|
            0 <= i < departments.len() && (#[trigger] departments[i]).id == child
                && departments[i].tenant_id == tenant_id && departments[i].parent_id == Some(parent)
                && forall|j: int|
                0 <= j < i ==> !((#[trigger] departments[j]).id == child && departments[j].tenant_id
                    == tenant_id);
        lemma_found_at(departments, p, i);
    }
    if parent_of(departments, tenant_id, child) == Some(parent) {
        let i = lemma_first_position(departments, p);
        assert(departments[i].parent_id == Some(parent));
    }
}

/// The first position that satisfies a predicate.
proof fn lemma_first_position<V>(rows: Seq<V>, p: spec_fn(V) -> bool) -> (i: int)
    requires
        first(rows, p) is Some,
    ensures
        0 <= i < rows.len(),
        p(rows[i]),
        first(rows, p) == Some(rows[i]),
        forall|j: int| 0 <= j < i ==> !p(#[trigger] rows[j]),
    decreases rows.len(),
{
    let init = rows.drop_last();
    if first(init, p) is Some {
        let i = lemma_first_position(init, p);
        assert(rows[i] == init[i]);
        assert forall|j: int| 0 <= j < i implies !p(#[trigger] rows[j]) by {
            assert(rows[j] == init[j]);
        }
        i
    } else {
        lemma_first(init, p);
        let i = rows.len() - 1;
        assert forall|j: int| 0 <= j < i implies !p(#[trigger] rows[j]) by {
            assert(rows[j] == init[j]);
        }
        i
    }
}

proof fn lemma_lineage_way(
    departments: Seq<DepartmentRowView>,
    tenant_id: Seq<char>,
    way: Seq<Seq<char>>,
    from: Seq<char>,
    to: Seq<char>,
    limit: nat,
)
    requires
        way_up(departments, tenant_id, way, from, to),
        way.len() <= limit,
    ensures
        lineage(departments, tenant_id, Some(from), limit).contains(to),
    decreases limit,
{
    let chain = lineage(departments, tenant_id, Some(from), limit);
    let rest = lineage(
        departments,
        tenant_id,
        parent_of(departments, tenant_id, from),
        (limit - 1) as nat,
    );
    assert(chain == seq![from] + rest);
    if way.len() == 1 {
        assert(chain[0] == to);
    } else {
        let tail = way.skip(1);
        assert(stands_under(departments, tenant_id, way[0], way[0int + 1]));
        lemma_stands_under(departments, tenant_id, way[0], way[1]);
        assert(way_up(departments, tenant_id, tail, way[1], to)) by {
            assert forall|k: int| 0 <= k < tail.len() - 1 implies stands_under(
                departments,
                tenant_id,
                #[trigger] tail[k],
                tail[k + 1],
            ) by {
                assert(stands_under(departments, tenant_id, way[k + 1], way[k + 1 + 1]));
            }
        }
        lemma_lineage_way(departments, tenant_id, tail, way[1], to, (limit - 1) as nat);
        let q = choose|q: int| 0 <= q < rest.len() && rest[q] == to;
        assert(chain[q + 1] == to);
    }
}

proof fn lemma_way_lineage(
    departments: Seq<DepartmentRowView>,
    tenant_id: Seq<char>,
    from: Seq<char>,
    to: Seq<char>,
    limit: nat,
) -> (way: Seq<Seq<char>>)
    requires
        lineage(departments, tenant_id, Some(from), limit).contains(to),
    ensures
        way_up(departments, tenant_id, way, from, to),
        way.len() <= limit,
    decreases limit,
{
    let chain = lineage(departments, tenant_id, Some(from), limit);
    let up = parent_of(departments, tenant_id, from);
    let rest = lineage(departments, tenant_id, up, (limit - 1) as nat);
    assert(chain == seq![from] + rest);
    if to == from {
        seq![from]
    } else {
        let q = choose|q: int| 0 <= q < chain.len() && chain[q] == to;
        assert(rest[q - 1] == to);
        let next = up->0;
        let tail = lemma_way_lineage(departments, tenant_id, next, to, (limit - 1) as nat);
        let way = seq![from] + tail;
        lemma_stands_under(departments, tenant_id, from, next);
        assert forall|k: int| 0 <= k < way.len() - 1 implies stands_under(
            departments,
            tenant_id,
            #[trigger] way[k],
            way[k + 1],
        ) by {
            if k > 0 {
                assert(stands_under(departments, tenant_id, tail[k - 1], tail[k - 1 + 1]));
            }
        }
        assert(way.last() == tail.last());
        way
    }
}

proof fn lemma_own_department(
    st: PlatformState,
    tenant_id: Seq<char>,
    user_id: Seq<char>,
    department: Seq<char>,
)
    ensures
        assigned(st, tenant_id, user_id, department) <==> (first(
            st.members,
            member_key(user_id, tenant_id),
        ) matches Some(m) && m.department_id == Some(department)),
{
    let p = member_key(user_id, tenant_id);
    lemma_first(st.members, p);
    if assigned(st, tenant_id, user_id, department) {
        let i = choose|i: int|
            0 <= i < st.members.len() && (#[trigger] st.members[i]).user_id == user_id
                && st.members[i].tenant_id == tenant_id && st.members[i].department_id == Some(
                department,
            ) && forall|j: int|
                0 <= j < i ==> !((#[trigger] st.members[j]).user_id == user_id
                    && st.members[j].tenant_id == tenant_id);
        lemma_found_at(st.members, p, i);
    }
    if first(st.members, p) matches Some(m) && m.department_id == Some(department) {
        let i = lemma_first_position(st.members, p);
        assert(st.members[i].department_id == Some(department));
    }
}

/// Whether a member is among those that the subject of a grant stands for: the member themselves,
/// those assigned to a department or, by no more than 64 departments, to one below it, and those
/// of a scene.
pub open spec fn stands_for(
    st: PlatformState,
    tenant_id: Seq<char>,
    user_id: Seq<char>,
    subject_type: Seq<char>,
    subject_id: Seq<char>,
) -> bool {
    ||| subject_type == "member"@ && subject_id == user_id
    ||| subject_type == "department"@ && exists|own: Seq<char>, way: Seq<Seq<char>>|
        assigned(st, tenant_id, user_id, own) && way.len() <= 64 && #[trigger] way_up(
            st.departments,
            tenant_id,
            way,
            own,
            subject_id,
        )
    ||| subject_type == "scene"@ && exists|i: int|
        0 <= i < st.scene_members.len() && (#[trigger] st.scene_members[i]).tenant_id == tenant_id
            && st.scene_members[i].user_id == user_id && st.scene_members[i].scene_id == subject_id
}

proof fn lemma_stands_for(
    st: PlatformState,
    tenant_id: Seq<char>,
    user_id: Seq<char>,
    resource_type: Seq<char>,
    r: ResourceGrantRowView,
)
    ensures
        reaches(st, tenant_id, user_id, resource_type)(r) <==> r.tenant_id == tenant_id
            && r.resource_type == resource_type && stands_for(
            st,
            tenant_id,
            user_id,
            r.subject_type,
            r.subject_id,
        ),
{
    let to = r.subject_id;
    let chain = departments_of_member(st, tenant_id, user_id);
    let m = first(st.members, member_key(user_id, tenant_id));
    if chain.contains(to) {
        let own = m->0.department_id->0;
        lemma_own_department(st, tenant_id, user_id, own);
        let way = lemma_way_lineage(st.departments, tenant_id, own, to, ANCESTRY_LIMIT as nat);
        assert(way_up(st.departments, tenant_id, way, own, to));
    }
    if exists|own: Seq<char>, way: Seq<Seq<char>>|
        assigned(st, tenant_id, user_id, own) && way.len() <= 64 && #[trigger] way_up(
            st.departments,
            tenant_id,
            way,
            own,
            to,
        ) {
        let (own, way) = choose|own: Seq<char>, way: Seq<Seq<char>>|
            assigned(st, tenant_id, user_id, own) && way.len() <= 64 && #[trigger] way_up(
                st.departments,
                tenant_id,
                way,
                own,
                to,
            );
        lemma_own_department(st, tenant_id, user_id, own);
        lemma_lineage_way(st.departments, tenant_id, way, own, to, ANCESTRY_LIMIT as nat);
    }
    let p = in_scene(tenant_id, user_id, to);
    if any(st.scene_members, p) {
        let i = choose|i: int| 0 <= i < st.scene_members.len() && p(#[trigger] st.scene_members[i]);
        assert(st.scene_members[i].scene_id == to);
    }
    if exists|i: int|
        0 <= i < st.scene_members.len() && (#[trigger] st.scene_members[i]).tenant_id == tenant_id
            && st.scene_members[i].user_id == user_id && st.scene_members[i].scene_id == to {
        let i = choose|i: int|
            0 <= i < st.scene_members.len() && (#[trigger] st.scene_members[i]).tenant_id
                == tenant_id && st.scene_members[i].user_id == user_id
                && st.scene_members[i].scene_id == to;
        assert(p(st.scene_members[i]));
    }
}

/// What a member is told they may reach of a type of resource is what is granted to the subjects
/// that stand for them, and nothing else: everything where everything is granted, and the single
/// resources, each once, where not. Types without grants are refused.
pub proof fn told_is_what_is_granted(
    st: PlatformState,
    tenant_id: Seq<char>,
    user_id: Seq<char>,
    resource_type: Seq<char>,
    r: Result<EffectiveGrantDtoView, PlatformErrorView>,
)
    requires
        reach_told(st, tenant_id, user_id, resource_type, r),
    ensures
        r is Ok <==> resource_type == "skill"@ || resource_type == "mcp"@ || resource_type
            == "model_channel"@ || resource_type == "knowledge"@,
        r matches Ok(d) ==> {
            &&& forall|i: int|
                0 <= i < st.grants.len() && (#[trigger] st.grants[i]).tenant_id == tenant_id
                    && st.grants[i].resource_type == resource_type && stands_for(
                    st,
                    tenant_id,
                    user_id,
                    st.grants[i].subject_type,
                    st.grants[i].subject_id,
                ) ==> d.all || (st.grants[i].resource_id != "*"@ && d.resource_ids.contains(
                    st.grants[i].resource_id,
                ))
            &&& d.all ==> d.resource_ids.len() == 0
            &&& d.all ==> exists|i: int|
                0 <= i < st.grants.len() && (#[trigger] st.grants[i]).tenant_id == tenant_id
                    && st.grants[i].resource_type == resource_type && st.grants[i].resource_id
                    == "*"@ && stands_for(
                    st,
                    tenant_id,
                    user_id,
                    st.grants[i].subject_type,
                    st.grants[i].subject_id,
                )
            &&& d.resource_ids.no_duplicates()
            &&& forall|id: Seq<char>| #[trigger]
                d.resource_ids.contains(id) ==> exists|i: int|
                    0 <= i < st.grants.len() && (#[trigger] st.grants[i]).tenant_id == tenant_id
                        && st.grants[i].resource_type == resource_type && st.grants[i].resource_id
                        == id && stands_for(
                        st,
                        tenant_id,
                        user_id,
                        st.grants[i].subject_type,
                        st.grants[i].subject_id,
                    )
        },
{
    if let Ok(d) = r {
        let rt = resource_type;
        assert(effective(st, tenant_id, user_id, rt, d.all, d.resource_ids));
        assert forall|i: int|
            0 <= i < st.grants.len() && (#[trigger] st.grants[i]).tenant_id == tenant_id
                && st.grants[i].resource_type == rt && stands_for(
                st,
                tenant_id,
                user_id,
                st.grants[i].subject_type,
                st.grants[i].subject_id,
            ) implies d.all || (st.grants[i].resource_id != "*"@ && d.resource_ids.contains(
            st.grants[i].resource_id,
        )) by {
            let g = st.grants[i];
            lemma_stands_for(st, tenant_id, user_id, rt, g);
            assert(reaches_resource(st, tenant_id, user_id, rt, g.resource_id)(st.grants[i]));
            assert(any(st.grants, reaches_resource(st, tenant_id, user_id, rt, g.resource_id)));
        }
        if d.all {
            let q = reaches_resource(st, tenant_id, user_id, rt, GRANT_ALL_RESOURCES@);
            let i = choose|i: int| 0 <= i < st.grants.len() && q(#[trigger] st.grants[i]);
            lemma_stands_for(st, tenant_id, user_id, rt, st.grants[i]);
            assert(st.grants[i].resource_id == "*"@);
        }
        assert forall|id: Seq<char>| #[trigger] d.resource_ids.contains(id) implies exists|i: int|
            0 <= i < st.grants.len() && (#[trigger] st.grants[i]).tenant_id == tenant_id
                && st.grants[i].resource_type == rt && st.grants[i].resource_id == id && stands_for(
                st,
                tenant_id,
                user_id,
                st.grants[i].subject_type,
                st.grants[i].subject_id,
            ) by {
            let q = reaches_resource(st, tenant_id, user_id, rt, id);
            let i = choose|i: int| 0 <= i < st.grants.len() && q(#[trigger] st.grants[i]);
            lemma_stands_for(st, tenant_id, user_id, rt, st.grants[i]);
            assert(st.grants[i].resource_id == id);
        }
    }
}

/// A resource that is granted to a member, to their department, to a department above it or to a
/// scene they are in is from then on among what they may reach.
pub proof fn granted_to_any_subject_is_reached(
    before: PlatformState,
    after: PlatformState,
    id: Seq<char>,
    tenant_id: Seq<char>,
    subject_type: Seq<char>,
    subject_id: Seq<char>,
    resource_type: Seq<char>,
    resource_id: Seq<char>,
    granted_by: Seq<char>,
    now: i64,
    r: Result<ResourceGrantDtoView, PlatformErrorView>,
    user_id: Seq<char>,
    told: Result<EffectiveGrantDtoView, PlatformErrorView>,
)
    requires
        resource_granted(
            before,
            after,
            id,
            tenant_id,
            subject_type,
            subject_id,
            resource_type,
            resource_id,
            granted_by,
            now,
            r,
        ),
        r is Ok,
        stands_for(before, tenant_id, user_id, subject_type, trimmed_text(subject_id)),
        reach_told(after, tenant_id, user_id, resource_type, told),
    ensures
        told matches Ok(d) && (d.all || d.resource_ids.contains(trimmed_text(resource_id))),
        trimmed_text(resource_id) == "*"@ ==> (told matches Ok(d) && d.all),
{
    let sid = trimmed_text(subject_id);
    let rid = trimmed_text(resource_id);
    let p = same_grant(tenant_id, subject_type, sid, resource_type, rid);
    let row = after.grants.last();
    let k = if any(before.grants, p) {
        choose|i: int| 0 <= i < before.grants.len() && p(#[trigger] before.grants[i])
    } else {
        before.grants.len() as int
    };
    assert(p(after.grants[k]));
    assert(stands_for(after, tenant_id, user_id, subject_type, sid));
    told_is_what_is_granted(after, tenant_id, user_id, resource_type, told);
    assert(after.grants[k].tenant_id == tenant_id);
}

/// Granting a resource is refused for a kind of subject or resource that there is none of and for
/// blank identifiers, and for nothing else. It leaves exactly one more grant, as it was asked for,
/// and none more where that one was there.
pub proof fn granting_adds_what_was_asked(
    before: PlatformState,
    after: PlatformState,
    id: Seq<char>,
    tenant_id: Seq<char>,
    subject_type: Seq<char>,
    subject_id: Seq<char>,
    resource_type: Seq<char>,
    resource_id: Seq<char>,
    granted_by: Seq<char>,
    now: i64,
    r: Result<ResourceGrantDtoView, PlatformErrorView>,
)
    requires
        resource_granted(
            before,
            after,
            id,
            tenant_id,
            subject_type,
            subject_id,
            resource_type,
            resource_id,
            granted_by,
            now,
            r,
        ),
    ensures
        r is Ok <==> (subject_type == "member"@ || subject_type == "department"@ || subject_type
            == "scene"@) && (resource_type == "skill"@ || resource_type == "mcp"@ || resource_type
            == "model_channel"@ || resource_type == "knowledge"@) && trimmed_text(subject_id).len()
            > 0 && trimmed_text(resource_id).len() > 0,
        r is Err ==> after == before,
        after == (PlatformState { grants: after.grants, ..before }),
        r matches Ok(d) ==> {
            &&& d.subject_type == subject_type
            &&& d.subject_id == trimmed_text(subject_id)
            &&& d.resource_type == resource_type
            &&& d.resource_id == trimmed_text(resource_id)
            &&& exists|i: int|
                0 <= i < after.grants.len() && (#[trigger] after.grants[i]).tenant_id == tenant_id
                    && after.grants[i].id == d.id && after.grants[i].subject_type == d.subject_type
                    && after.grants[i].subject_id == d.subject_id && after.grants[i].resource_type
                    == d.resource_type && after.grants[i].resource_id == d.resource_id
            &&& forall|i: int|
                0 <= i < before.grants.len() ==> #[trigger] after.grants[i] == before.grants[i]
            &&& ({
                ||| after.grants == before.grants
                ||| {
                    let row = after.grants.last();
                    &&& after.grants.len() == before.grants.len() + 1
                    &&& row.id == id
                    &&& row.tenant_id == tenant_id
                    &&& row.granted_by == granted_by
                    &&& row.created_at == now
                    &&& d.id == id
                    &&& d.granted_by == granted_by
                    &&& d.created_at == now
                }
            })
        },
{
    let sid = trimmed_text(subject_id);
    let rid = trimmed_text(resource_id);
    let p = same_grant(tenant_id, subject_type, sid, resource_type, rid);
    reveal_strlit("employee");
    reveal_strlit("skill");
    reveal_strlit("mcp");
    reveal_strlit("model_channel");
    reveal_strlit("knowledge");
    assert("employee"@.len() != "skill"@.len() && "employee"@.len() != "mcp"@.len());
    assert("employee"@.len() != "model_channel"@.len() && "employee"@.len() != "knowledge"@.len());
    if r is Ok {
        lemma_first(after.grants, p);
        let i = lemma_first_position(after.grants, p);
        assert(after.grants[i].tenant_id == tenant_id);
        if !any(before.grants, p) {
            let n = before.grants.len() as int;
            assert(p(after.grants[n]));
            assert forall|j: int| 0 <= j < n implies !p(#[trigger] after.grants[j]) by {
                assert(!p(before.grants[j]));
            }
            lemma_found_at(after.grants, p, n);
        }
    }
}

/// Revoking a grant of a group takes that grant and no other, and is refused where it is not there.
pub proof fn revoking_takes_one(
    before: PlatformState,
    after: PlatformState,
    tenant_id: Seq<char>,
    grant_id: Seq<char>,
    r: Result<(), PlatformErrorView>,
    row: ResourceGrantRowView,
)
    requires
        grant_revoked(before, after, tenant_id, grant_id, r),
    ensures
        after.grants.contains(row) <==> before.grants.contains(row) && !(row.tenant_id == tenant_id
            && row.id == grant_id),
        r is Ok <==> exists|i: int|
            0 <= i < before.grants.len() && (#[trigger] before.grants[i]).tenant_id == tenant_id
                && before.grants[i].id == grant_id,
        after == (PlatformState { grants: after.grants, ..before }),
{
    broadcast use vstd::seq_lib::group_filter_ensures;

    let keep = not_grant_key(tenant_id, grant_id);
    if exists|i: int|
        0 <= i < before.grants.len() && (#[trigger] before.grants[i]).tenant_id == tenant_id
            && before.grants[i].id == grant_id {
        let i = choose|i: int|
            0 <= i < before.grants.len() && (#[trigger] before.grants[i]).tenant_id == tenant_id
                && before.grants[i].id == grant_id;
        assert(grant_key(tenant_id, grant_id)(before.grants[i]));
        if after.grants.contains(row) {
            let k = choose|k: int| 0 <= k < after.grants.len() && after.grants[k] == row;
            lemma_filter_from(before.grants, keep, k);
            assert(keep(after.grants[k]));
        }
    } else if before.grants.contains(row) {
        let k = choose|k: int| 0 <= k < before.grants.len() && before.grants[k] == row;
        assert(before.grants[k] == row);
    }
}

/// A listing of grants shows those of the group that pass the filters asked for, all of them and no
/// other, as they were granted and newest first.
pub proof fn grant_listing_is_filtered(
    st: PlatformState,
    tenant_id: Seq<char>,
    subject_type: Option<Seq<char>>,
    subject_id: Option<Seq<char>>,
    resource_type: Option<Seq<char>>,
    out: Seq<ResourceGrantDtoView>,
)
    requires
        grants_shown(st, tenant_id, subject_type, subject_id, resource_type, out),
    ensures
        forall|k: int|
            0 <= k < out.len() ==> {
                &&& subject_type is None || subject_type == Some((#[trigger] out[k]).subject_type)
                &&& subject_id is None || subject_id == Some(out[k].subject_id)
                &&& resource_type is None || resource_type == Some(out[k].resource_type)
                &&& exists|i: int|
                    0 <= i < st.grants.len() && (#[trigger] st.grants[i]).id == out[k].id
                        && st.grants[i].tenant_id == tenant_id
            },
        forall|i: int|
            0 <= i < st.grants.len() && (#[trigger] st.grants[i]).tenant_id == tenant_id && (
            subject_type is None || subject_type == Some(st.grants[i].subject_type)) && (subject_id
                is None || subject_id == Some(st.grants[i].subject_id)) && (resource_type is None
                || resource_type == Some(st.grants[i].resource_type)) ==> exists|k: int|
                0 <= k < out.len() && (#[trigger] out[k]).id == st.grants[i].id
                    && out[k].subject_type == st.grants[i].subject_type && out[k].subject_id
                    == st.grants[i].subject_id && out[k].resource_type
                    == st.grants[i].resource_type && out[k].resource_id == st.grants[i].resource_id
                    && out[k].granted_by == st.grants[i].granted_by && out[k].created_at
                    == st.grants[i].created_at,
        forall|j: int, k: int|
            0 <= j < k < out.len() ==> (#[trigger] out[j]).created_at >= (
            #[trigger] out[k]).created_at,
{
    let p = grant_listed(tenant_id, subject_type, subject_id, resource_type);
    let g = |r: ResourceGrantRowView| grant_dto(r);
    let shown = listed_rows(out, st.grants, p, newest_grant_first(), g);
    assert forall|k: int| 0 <= k < out.len() implies {
        &&& subject_type is None || subject_type == Some((#[trigger] out[k]).subject_type)
        &&& subject_id is None || subject_id == Some(out[k].subject_id)
        &&& resource_type is None || resource_type == Some(out[k].resource_type)
        &&& exists|i: int|
            0 <= i < st.grants.len() && (#[trigger] st.grants[i]).id == out[k].id
                && st.grants[i].tenant_id == tenant_id
    } by {
        assert(p(shown[k]));
        let i = choose|i: int| 0 <= i < st.grants.len() && st.grants[i] == shown[k];
        assert(st.grants[i].id == out[k].id);
    }
    assert forall|i: int|
        0 <= i < st.grants.len() && (#[trigger] st.grants[i]).tenant_id == tenant_id && (subject_type
            is None || subject_type == Some(st.grants[i].subject_type)) && (subject_id is None
            || subject_id == Some(st.grants[i].subject_id)) && (resource_type is None
            || resource_type == Some(st.grants[i].resource_type)) implies exists|k: int|
        0 <= k < out.len() && (#[trigger] out[k]).id == st.grants[i].id && out[k].subject_type
            == st.grants[i].subject_type && out[k].subject_id == st.grants[i].subject_id
            && out[k].resource_type == st.grants[i].resource_type && out[k].resource_id
            == st.grants[i].resource_id && out[k].granted_by == st.grants[i].granted_by
            && out[k].created_at == st.grants[i].created_at by {
        assert(p(st.grants[i]));
        let k = choose|k: int| 0 <= k < shown.len() && shown[k] == st.grants[i];
        assert(out[k] == g(shown[k]));
    }
    assert forall|j: int, k: int| 0 <= j < k < out.len() implies (#[trigger] out[j]).created_at >= (
    #[trigger] out[k]).created_at by {
        assert(newest_grant_first()(shown[j], shown[k]));
    }
}

} // verus!
