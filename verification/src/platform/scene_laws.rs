//! What scenes hold, and who is in them.
use crate::json::texts_json;
use crate::platform::error::PlatformErrorView;
use crate::platform::models::{
    ResourceGrantRowView, SceneDtoView, SceneMemberRowView, SceneRowView,
};
use crate::platform::scenes::{
    builtin_first, builtin_scenes, first_added_first, json_list, not_granted_to_scene,
    not_roster_of, not_scene_key, not_seat, other_scene_named, roster_of, scene_dto, scene_key,
    scene_made, scene_named, scene_removed, scene_updated, scenes_of, scenes_shown, seat,
    seat_given, seat_taken, seats_shown, seeded, BuiltinSceneView,
};
use crate::platform::service::PlatformState;
use crate::table::{any, first, lemma_filter_contains, lemma_first, listed_rows};
use crate::text::{text_le, trimmed_text};
use vstd::prelude::*;

verus! {

/// A scene is made for the group as asked for, where the group has none of that name; a name that
/// is blank or taken is refused and nothing changes.
pub proof fn scene_is_made_as_asked(
    before: PlatformState,
    after: PlatformState,
    id: Seq<char>,
    tenant_id: Seq<char>,
    name: Seq<char>,
    description: Option<Seq<char>>,
    job_functions: Seq<Seq<char>>,
    now: i64,
    r: Result<SceneDtoView, PlatformErrorView>,
)
    requires
        scene_made(before, after, id, tenant_id, name, description, job_functions, now, r),
    ensures
        r is Ok <==> trimmed_text(name).len() > 0 && forall|i: int|
            0 <= i < before.scenes.len() ==> !((#[trigger] before.scenes[i]).tenant_id == tenant_id
                && before.scenes[i].name == trimmed_text(name)),
        r is Err ==> after == before && r->Err_0 is BadRequest,
        after == (PlatformState { scenes: after.scenes, ..before }),
        r matches Ok(d) ==> {
            let row = after.scenes.last();
            &&& after.scenes.len() == before.scenes.len() + 1
            &&& after.scenes.drop_last() == before.scenes
            &&& row.id == id
            &&& row.tenant_id == tenant_id
            &&& row.name == trimmed_text(name)
            &&& row.description == description
            &&& json_list(row.job_functions) == job_functions
            &&& !row.built_in
            &&& row.created_at == now && row.updated_at == now
            &&& d.id == id
            &&& d.name == trimmed_text(name)
            &&& d.description == description
            &&& d.job_functions == job_functions
            &&& !d.built_in
            &&& d.created_at == now && d.updated_at == now
            &&& d.member_count == before.scene_members.filter(
                |m: SceneMemberRowView| m.scene_id == id,
            ).len() as i64
        },
{
    let p = scene_named(tenant_id, trimmed_text(name));
    if r is Ok {
        assert(after.scenes.drop_last() =~= before.scenes);
        assert(roster_of(id) =~= (|m: SceneMemberRowView| m.scene_id == id));
        assert forall|i: int| 0 <= i < before.scenes.len() implies !((
        #[trigger] before.scenes[i]).tenant_id == tenant_id && before.scenes[i].name
            == trimmed_text(name)) by {
            if p(before.scenes[i]) {
                assert(any(before.scenes, p));
            }
        }
    } else if trimmed_text(name).len() > 0 {
        let i = choose|i: int| 0 <= i < before.scenes.len() && p(#[trigger] before.scenes[i]);
        assert(before.scenes[i].tenant_id == tenant_id);
    }
}

/// A change sets the name, the description and the jobs of the group's scene and leaves whether it
/// is built in and when it was made; every other scene and everything else is as before. It is
/// refused for a blank name, a scene that is not there and a name that another scene has.
pub proof fn scene_is_changed_as_asked(
    before: PlatformState,
    after: PlatformState,
    tenant_id: Seq<char>,
    scene_id: Seq<char>,
    name: Seq<char>,
    description: Option<Seq<char>>,
    job_functions: Seq<Seq<char>>,
    now: i64,
    r: Result<SceneDtoView, PlatformErrorView>,
)
    requires
        scene_updated(
            before,
            after,
            tenant_id,
            scene_id,
            name,
            description,
            job_functions,
            now,
            r,
        ),
    ensures
        r is Ok <==> trimmed_text(name).len() > 0 && (exists|i: int|
            0 <= i < before.scenes.len() && (#[trigger] before.scenes[i]).tenant_id == tenant_id
                && before.scenes[i].id == scene_id) && (forall|i: int|
            0 <= i < before.scenes.len() ==> !((#[trigger] before.scenes[i]).tenant_id == tenant_id
                && before.scenes[i].name == trimmed_text(name) && before.scenes[i].id != scene_id)),
        r is Err ==> after == before,
        after == (PlatformState { scenes: after.scenes, ..before }),
        after.scenes.len() == before.scenes.len(),
        forall|i: int|
            0 <= i < before.scenes.len() && !((#[trigger] before.scenes[i]).tenant_id == tenant_id
                && before.scenes[i].id == scene_id) ==> after.scenes[i] == before.scenes[i],
        r matches Ok(d) ==> {
            &&& d.id == scene_id
            &&& d.name == trimmed_text(name)
            &&& d.description == description
            &&& d.job_functions == job_functions
            &&& d.updated_at == now
            &&& forall|i: int|
                0 <= i < before.scenes.len() && (#[trigger] before.scenes[i]).tenant_id == tenant_id
                    && before.scenes[i].id == scene_id ==> {
                    &&& after.scenes[i].id == scene_id
                    &&& after.scenes[i].tenant_id == tenant_id
                    &&& after.scenes[i].name == trimmed_text(name)
                    &&& after.scenes[i].description == description
                    &&& json_list(after.scenes[i].job_functions) == job_functions
                    &&& after.scenes[i].built_in == before.scenes[i].built_in
                    &&& after.scenes[i].created_at == before.scenes[i].created_at
                    &&& after.scenes[i].updated_at == now
                }
        },
{
    let p = scene_key(tenant_id, scene_id);
    let q = other_scene_named(tenant_id, trimmed_text(name), scene_id);
    if trimmed_text(name).len() > 0 {
        if any(before.scenes, p) {
            let i = choose|i: int| 0 <= i < before.scenes.len() && p(#[trigger] before.scenes[i]);
            assert(before.scenes[i].tenant_id == tenant_id);
            if any(before.scenes, q) {
                let j = choose|j: int|
                    0 <= j < before.scenes.len() && q(#[trigger] before.scenes[j]);
                assert(before.scenes[j].tenant_id == tenant_id);
            } else {
                assert forall|j: int| 0 <= j < before.scenes.len() implies !((
                #[trigger] before.scenes[j]).tenant_id == tenant_id && before.scenes[j].name
                    == trimmed_text(name) && before.scenes[j].id != scene_id) by {
                    if q(before.scenes[j]) {
                        assert(any(before.scenes, q));
                    }
                }
                lemma_first(after.scenes, p);
                let row = first(after.scenes, p)->0;
                let at = choose|at: int| 0 <= at < after.scenes.len() && after.scenes[at] == row;
                assert(before.scenes[at].id == scene_id);
            }
        } else {
            assert forall|i: int| 0 <= i < before.scenes.len() implies !((
            #[trigger] before.scenes[i]).tenant_id == tenant_id && before.scenes[i].id == scene_id) by {
                if p(before.scenes[i]) {
                    assert(any(before.scenes, p));
                }
            }
        }
    }
}

/// A scene that is deleted goes with its members and with the grants to it, and with nothing else;
/// one that is built in or not there stays out of reach.
pub proof fn scene_deletion_takes_its_own(
    before: PlatformState,
    after: PlatformState,
    tenant_id: Seq<char>,
    scene_id: Seq<char>,
    r: Result<(), PlatformErrorView>,
    scene: SceneRowView,
    member: SceneMemberRowView,
    grant: ResourceGrantRowView,
)
    requires
        scene_removed(before, after, tenant_id, scene_id, r),
    ensures
        r is Err ==> after == before,
        r is Ok ==> {
            &&& after.scenes.contains(scene) <==> before.scenes.contains(scene) && !(
            scene.tenant_id == tenant_id && scene.id == scene_id)
            &&& after.scene_members.contains(member) <==> before.scene_members.contains(member)
                && member.scene_id != scene_id
            &&& after.grants.contains(grant) <==> before.grants.contains(grant) && !(grant.tenant_id
                == tenant_id && grant.subject_type == "scene"@ && grant.subject_id == scene_id)
        },
        after == (PlatformState {
            scenes: after.scenes,
            scene_members: after.scene_members,
            grants: after.grants,
            ..before
        }),
        r is Ok ==> exists|i: int|
            0 <= i < before.scenes.len() && (#[trigger] before.scenes[i]).tenant_id == tenant_id
                && before.scenes[i].id == scene_id && !before.scenes[i].built_in,
        before.scenes.contains(scene) && scene.tenant_id == tenant_id && scene.id == scene_id
            && (forall|i: int|
            0 <= i < before.scenes.len() && (#[trigger] before.scenes[i]).tenant_id == tenant_id
                && before.scenes[i].id == scene_id ==> before.scenes[i].built_in
                == scene.built_in) ==> (r is Ok <==> !scene.built_in),
{
    let p = scene_key(tenant_id, scene_id);
    lemma_first(before.scenes, p);
    if r is Ok {
        lemma_filter_contains(before.scenes, not_scene_key(tenant_id, scene_id), scene);
        lemma_filter_contains(before.scene_members, not_roster_of(scene_id), member);
        lemma_filter_contains(before.grants, not_granted_to_scene(tenant_id, scene_id), grant);
    }
    if first(before.scenes, p) is Some {
        let row = first(before.scenes, p)->0;
        let i = choose|i: int| 0 <= i < before.scenes.len() && before.scenes[i] == row;
        assert(before.scenes[i].tenant_id == tenant_id);
    } else if before.scenes.contains(scene) {
        let i = choose|i: int| 0 <= i < before.scenes.len() && before.scenes[i] == scene;
        if p(before.scenes[i]) {
            assert(any(before.scenes, p));
        }
    }
}

/// After a member is added to a scene of the group they are in it, once; who was in it before
/// stays, and a scene that the group does not have takes nobody.
pub proof fn added_member_is_in_the_scene(
    before: PlatformState,
    after: PlatformState,
    tenant_id: Seq<char>,
    scene_id: Seq<char>,
    user_id: Seq<char>,
    now: i64,
    r: Result<(), PlatformErrorView>,
)
    requires
        seat_given(before, after, tenant_id, scene_id, user_id, now, r),
    ensures
        r is Ok <==> exists|i: int|
            0 <= i < before.scenes.len() && (#[trigger] before.scenes[i]).tenant_id == tenant_id
                && before.scenes[i].id == scene_id,
        r is Err ==> after == before && r->Err_0 is NotFound,
        r is Ok ==> exists|i: int|
            0 <= i < after.scene_members.len() && (#[trigger] after.scene_members[i]).scene_id
                == scene_id && after.scene_members[i].user_id == user_id,
        before.scene_members.is_prefix_of(after.scene_members),
        after.scene_members.len() <= before.scene_members.len() + 1,
        after.scene_members.len() > before.scene_members.len() ==> {
            &&& after.scene_members.last().tenant_id == tenant_id
            &&& after.scene_members.last().scene_id == scene_id
            &&& after.scene_members.last().user_id == user_id
            &&& after.scene_members.last().added_at == now
            &&& forall|i: int|
                0 <= i < before.scene_members.len() ==> !((
                #[trigger] before.scene_members[i]).scene_id == scene_id
                    && before.scene_members[i].user_id == user_id)
        },
        after == (PlatformState { scene_members: after.scene_members, ..before }),
{
    let p = scene_key(tenant_id, scene_id);
    let q = seat(scene_id, user_id);
    if any(before.scenes, p) {
        let i = choose|i: int| 0 <= i < before.scenes.len() && p(#[trigger] before.scenes[i]);
        assert(before.scenes[i].tenant_id == tenant_id);
        if any(before.scene_members, q) {
            let k = choose|k: int|
                0 <= k < before.scene_members.len() && q(#[trigger] before.scene_members[k]);
            assert(after.scene_members[k].scene_id == scene_id);
        } else {
            assert(after.scene_members[before.scene_members.len() as int].scene_id == scene_id);
            assert forall|k: int| 0 <= k < before.scene_members.len() implies !((
            #[trigger] before.scene_members[k]).scene_id == scene_id
                && before.scene_members[k].user_id == user_id) by {
                if q(before.scene_members[k]) {
                    assert(any(before.scene_members, q));
                }
            }
        }
    } else {
        assert forall|i: int| 0 <= i < before.scenes.len() implies !((
        #[trigger] before.scenes[i]).tenant_id == tenant_id && before.scenes[i].id == scene_id) by {
            if p(before.scenes[i]) {
                assert(any(before.scenes, p));
            }
        }
    }
}

/// After a member is removed from a scene of the group they are not in it; everyone else stays
/// where they are.
pub proof fn removed_member_is_out_of_the_scene(
    before: PlatformState,
    after: PlatformState,
    tenant_id: Seq<char>,
    scene_id: Seq<char>,
    user_id: Seq<char>,
    r: Result<(), PlatformErrorView>,
    member: SceneMemberRowView,
)
    requires
        seat_taken(before, after, tenant_id, scene_id, user_id, r),
    ensures
        r is Ok <==> exists|i: int|
            0 <= i < before.scenes.len() && (#[trigger] before.scenes[i]).tenant_id == tenant_id
                && before.scenes[i].id == scene_id,
        r is Err ==> after == before && r->Err_0 is NotFound,
        r is Ok ==> (after.scene_members.contains(member) <==> before.scene_members.contains(member)
            && !(member.scene_id == scene_id && member.user_id == user_id)),
        after == (PlatformState { scene_members: after.scene_members, ..before }),
{
    let p = scene_key(tenant_id, scene_id);
    lemma_filter_contains(before.scene_members, not_seat(scene_id, user_id), member);
    if any(before.scenes, p) {
        let i = choose|i: int| 0 <= i < before.scenes.len() && p(#[trigger] before.scenes[i]);
        assert(before.scenes[i].tenant_id == tenant_id);
    } else {
        assert forall|i: int| 0 <= i < before.scenes.len() implies !((
        #[trigger] before.scenes[i]).tenant_id == tenant_id && before.scenes[i].id == scene_id) by {
            if p(before.scenes[i]) {
                assert(any(before.scenes, p));
            }
        }
    }
}

/// Everyone in a scene is listed.
pub proof fn scene_members_are_listed(
    st: PlatformState,
    scene_id: Seq<char>,
    out: Seq<Seq<char>>,
    i: int,
) -> (k: int)
    requires
        seats_shown(st, scene_id, out),
        0 <= i < st.scene_members.len(),
        st.scene_members[i].scene_id == scene_id,
    ensures
        0 <= k < out.len(),
        out[k] == st.scene_members[i].user_id,
{
    let g = |r: SceneMemberRowView| r.user_id;
    let shown = listed_rows(out, st.scene_members, roster_of(scene_id), first_added_first(), g);
    assert(roster_of(scene_id)(st.scene_members[i]));
    let k = choose|k: int| 0 <= k < shown.len() && shown[k] == st.scene_members[i];
    assert(out[k] == g(shown[k]));
    k
}

/// Who is listed is in the scene.
pub proof fn only_scene_members_are_listed(
    st: PlatformState,
    scene_id: Seq<char>,
    out: Seq<Seq<char>>,
    k: int,
) -> (i: int)
    requires
        seats_shown(st, scene_id, out),
        0 <= k < out.len(),
    ensures
        0 <= i < st.scene_members.len(),
        st.scene_members[i].scene_id == scene_id,
        st.scene_members[i].user_id == out[k],
        out.len() == st.scene_members.filter(
            |m: SceneMemberRowView| m.scene_id == scene_id,
        ).len(),
{
    let g = |r: SceneMemberRowView| r.user_id;
    let shown = listed_rows(out, st.scene_members, roster_of(scene_id), first_added_first(), g);
    assert(roster_of(scene_id) =~= (|m: SceneMemberRowView| m.scene_id == scene_id));
    assert(out[k] == g(shown[k]));
    choose|i: int| 0 <= i < st.scene_members.len() && st.scene_members[i] == shown[k]
}

/// Who was added to a scene first is listed first.
pub proof fn scene_members_are_listed_in_order(
    st: PlatformState,
    scene_id: Seq<char>,
    out: Seq<Seq<char>>,
    j: int,
    k: int,
) -> (at: (int, int))
    requires
        seats_shown(st, scene_id, out),
        0 <= j < k < out.len(),
    ensures
        0 <= at.0 < st.scene_members.len(),
        0 <= at.1 < st.scene_members.len(),
        st.scene_members[at.0].user_id == out[j],
        st.scene_members[at.1].user_id == out[k],
        st.scene_members[at.0].scene_id == scene_id,
        st.scene_members[at.1].scene_id == scene_id,
        st.scene_members[at.0].added_at <= st.scene_members[at.1].added_at,
{
    let g = |r: SceneMemberRowView| r.user_id;
    let shown = listed_rows(out, st.scene_members, roster_of(scene_id), first_added_first(), g);
    assert(out[j] == g(shown[j]) && out[k] == g(shown[k]));
    let a = choose|i: int| 0 <= i < st.scene_members.len() && st.scene_members[i] == shown[j];
    let b = choose|i: int| 0 <= i < st.scene_members.len() && st.scene_members[i] == shown[k];
    (a, b)
}

/// Every scene of a group is listed with what is on record of it and with how many are in it.
pub proof fn group_sees_its_scenes(
    st: PlatformState,
    tenant_id: Seq<char>,
    out: Seq<SceneDtoView>,
    i: int,
) -> (k: int)
    requires
        scenes_shown(st, tenant_id, out),
        0 <= i < st.scenes.len(),
        st.scenes[i].tenant_id == tenant_id,
    ensures
        0 <= k < out.len(),
        out[k].id == st.scenes[i].id,
        out[k].name == st.scenes[i].name,
        out[k].description == st.scenes[i].description,
        out[k].job_functions == json_list(st.scenes[i].job_functions),
        out[k].built_in == st.scenes[i].built_in,
        out[k].created_at == st.scenes[i].created_at,
        out[k].updated_at == st.scenes[i].updated_at,
        out[k].member_count == st.scene_members.filter(
            |m: SceneMemberRowView| m.scene_id == st.scenes[i].id,
        ).len() as i64,
{
    let g = |r: SceneRowView| scene_dto(st, r);
    let shown = listed_rows(out, st.scenes, scenes_of(tenant_id), builtin_first(), g);
    assert(scenes_of(tenant_id)(st.scenes[i]));
    let k = choose|k: int| 0 <= k < shown.len() && shown[k] == st.scenes[i];
    assert(out[k] == g(shown[k]));
    assert(roster_of(st.scenes[i].id) =~= (|m: SceneMemberRowView|
        m.scene_id == st.scenes[i].id));
    k
}

/// Every scene in a listing is one of the group's; the built-in ones come first, and each part is
/// in the order of the names.
pub proof fn scenes_are_listed_in_order(
    st: PlatformState,
    tenant_id: Seq<char>,
    out: Seq<SceneDtoView>,
    j: int,
    k: int,
) -> (i: int)
    requires
        scenes_shown(st, tenant_id, out),
        0 <= j < k < out.len(),
    ensures
        out[k].built_in ==> out[j].built_in,
        out[k].built_in == out[j].built_in ==> text_le(out[j].name, out[k].name),
        0 <= i < st.scenes.len(),
        st.scenes[i].tenant_id == tenant_id,
        st.scenes[i].id == out[k].id,
        st.scenes[i].name == out[k].name,
        out.len() == st.scenes.filter(|r: SceneRowView| r.tenant_id == tenant_id).len(),
{
    let g = |r: SceneRowView| scene_dto(st, r);
    let shown = listed_rows(out, st.scenes, scenes_of(tenant_id), builtin_first(), g);
    assert(scenes_of(tenant_id) =~= (|r: SceneRowView| r.tenant_id == tenant_id));
    assert(out[j] == g(shown[j]) && out[k] == g(shown[k]));
    choose|i: int| 0 <= i < st.scenes.len() && st.scenes[i] == shown[k]
}

/// What seeding adds to a group is built in, was made now and is one of the scenes it seeds, with
/// its description and jobs.
pub proof fn seeding_adds_built_in_scenes(
    scenes: Seq<SceneRowView>,
    tenant_id: Seq<char>,
    builtins: Seq<BuiltinSceneView>,
    ids: Seq<Seq<char>>,
    now: i64,
    i: int,
) -> (k: int)
    requires
        scenes.len() <= i < seeded(scenes, tenant_id, builtins, ids, now).len(),
    ensures
        0 <= k < builtins.len(),
        ({
            let row = seeded(scenes, tenant_id, builtins, ids, now)[i];
            &&& row.id == ids[k]
            &&& row.tenant_id == tenant_id
            &&& row.name == builtins[k].name
            &&& row.description == Some(builtins[k].description)
            &&& row.job_functions == texts_json(builtins[k].job_functions)
            &&& row.built_in
            &&& row.created_at == now
            &&& row.updated_at == now
        }),
    decreases builtins.len(),
{
    let rest = builtins.drop_last();
    let so_far = seeded(scenes, tenant_id, rest, ids, now);
    if i < so_far.len() {
        let k = seeding_adds_built_in_scenes(scenes, tenant_id, rest, ids, now, i);
        assert(rest[k] == builtins[k]);
        k
    } else {
        builtins.len() - 1
    }
}

/// The scenes that every group starts with.
pub proof fn groups_start_with_five_scenes()
    ensures
        builtin_scenes().len() == 5,
        builtin_scenes()[0].name == "办公"@,
        builtin_scenes()[0].job_functions == seq!["行政"@, "文秘"@],
        builtin_scenes()[1].name == "IT运维"@,
        builtin_scenes()[1].job_functions == seq!["运维工程师"@],
        builtin_scenes()[2].name == "网络安全"@,
        builtin_scenes()[2].job_functions == seq!["安全工程师"@],
        builtin_scenes()[3].name == "新媒体运营"@,
        builtin_scenes()[3].job_functions == seq!["内容运营"@, "社媒运营"@],
        builtin_scenes()[4].name == "市场营销"@,
        builtin_scenes()[4].job_functions == seq!["市场专员"@],
{
}

} // verus!
