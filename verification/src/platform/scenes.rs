//! Scenes: named bundles of grants that members get by joining.
use crate::json::{json_texts, parse_texts, render_texts, texts_json};
use crate::platform::error::{bad_request, not_found, PlatformError, PlatformErrorView};
use crate::platform::models::{
    ResourceGrantRow, ResourceGrantRowView, SceneDto, SceneDtoView, SceneMemberRow,
    SceneMemberRowView, SceneRow, SceneRowView,
};
use crate::platform::service::{PlatformService, PlatformState};
use crate::table::{
    answer, any, any_where, count_where, done, find_where, first, keep_where, lemma_first,
    list_where, lists, map_rows, total_order, views,
};
use crate::text::{
    cat3, clone_opt, le_text, lemma_text_le_total, lemma_text_le_trans, opt_str, own_opt, same,
    text_le, texts, trim, trimmed_text,
};
use vstd::prelude::*;

verus! {

/// A scene that every group starts with.
#[derive(Debug, Clone)]
pub struct BuiltinScene {
    pub name: String,
    pub description: String,
    pub job_functions: Vec<String>,
}

/// [`BuiltinScene`] as plain values.
pub struct BuiltinSceneView {
    pub name: Seq<char>,
    pub description: Seq<char>,
    pub job_functions: Seq<Seq<char>>,
}

impl View for BuiltinScene {
    type V = BuiltinSceneView;

    open spec fn view(&self) -> BuiltinSceneView {
        BuiltinSceneView {
            name: self.name@,
            description: self.description@,
            job_functions: texts(self.job_functions@),
        }
    }
}

/// The scenes that every group starts with.
pub open spec fn builtin_scenes() -> Seq<BuiltinSceneView> {
    seq![
        BuiltinSceneView {
            name: "办公"@,
            description: "日常办公协作场景"@,
            job_functions: seq!["行政"@, "文秘"@],
        },
        BuiltinSceneView {
            name: "IT运维"@,
            description: "IT 基础设施运维场景"@,
            job_functions: seq!["运维工程师"@],
        },
        BuiltinSceneView {
            name: "网络安全"@,
            description: "安全监控与响应场景"@,
            job_functions: seq!["安全工程师"@],
        },
        BuiltinSceneView {
            name: "新媒体运营"@,
            description: "内容创作与社媒运营场景"@,
            job_functions: seq!["内容运营"@, "社媒运营"@],
        },
        BuiltinSceneView {
            name: "市场营销"@,
            description: "市场推广与营销分析场景"@,
            job_functions: seq!["市场专员"@],
        },
    ]
}

fn two_texts(a: &str, b: Option<&str>) -> (r: Vec<String>)
    ensures
        texts(r@) == match opt_str(b) {
            Some(t) => seq![a@, t],
            None => seq![a@],
        },
{
    let mut r: Vec<String> = Vec::new();
    r.push(a.to_owned());
    if let Some(t) = b {
        r.push(t.to_owned());
        proof {
            assert(texts(r@) =~= seq![a@, t@]);
        }
    } else {
        proof {
            assert(texts(r@) =~= seq![a@]);
        }
    }
    r
}

fn builtin(name: &str, description: &str, job: &str, other: Option<&str>) -> (r: BuiltinScene)
    ensures
        r@.name == name@,
        r@.description == description@,
        r@.job_functions == match opt_str(other) {
            Some(t) => seq![job@, t],
            None => seq![job@],
        },
{
    BuiltinScene {
        name: name.to_owned(),
        description: description.to_owned(),
        job_functions: two_texts(job, other),
    }
}

fn builtin_list() -> (r: Vec<BuiltinScene>)
    ensures
        views(r@) == builtin_scenes(),
{
    let mut r: Vec<BuiltinScene> = Vec::new();
    r.push(builtin("办公", "日常办公协作场景", "行政", Some("文秘")));
    r.push(builtin("IT运维", "IT 基础设施运维场景", "运维工程师", None));
    r.push(builtin("网络安全", "安全监控与响应场景", "安全工程师", None));
    r.push(builtin("新媒体运营", "内容创作与社媒运营场景", "内容运营", Some("社媒运营")));
    r.push(builtin("市场营销", "市场推广与营销分析场景", "市场专员", None));
    proof {
        assert(views(r@) =~= builtin_scenes());
    }
    r
}

pub open spec fn scene_named(
    tenant_id: Seq<char>,
    name: Seq<char>,
) -> spec_fn(SceneRowView) -> bool {
    |r: SceneRowView| r.tenant_id == tenant_id && r.name == name
}

/// Another scene of the group by that name.
pub open spec fn other_scene_named(tenant_id: Seq<char>, name: Seq<char>, id: Seq<char>) -> spec_fn(
    SceneRowView,
) -> bool {
    |r: SceneRowView| r.tenant_id == tenant_id && r.name == name && r.id != id
}

pub open spec fn scene_key(tenant_id: Seq<char>, id: Seq<char>) -> spec_fn(SceneRowView) -> bool {
    |r: SceneRowView| r.tenant_id == tenant_id && r.id == id
}

pub open spec fn not_scene_key(
    tenant_id: Seq<char>,
    id: Seq<char>,
) -> spec_fn(SceneRowView) -> bool {
    |r: SceneRowView| !(r.tenant_id == tenant_id && r.id == id)
}

pub open spec fn scenes_of(tenant_id: Seq<char>) -> spec_fn(SceneRowView) -> bool {
    |r: SceneRowView| r.tenant_id == tenant_id
}

/// Built-in scenes first, then by name.
pub open spec fn builtin_first() -> spec_fn(SceneRowView, SceneRowView) -> bool {
    |a: SceneRowView, b: SceneRowView|
        if a.built_in != b.built_in {
            a.built_in
        } else {
            text_le(a.name, b.name)
        }
}

pub open spec fn roster_of(scene_id: Seq<char>) -> spec_fn(SceneMemberRowView) -> bool {
    |r: SceneMemberRowView| r.scene_id == scene_id
}

pub open spec fn not_roster_of(scene_id: Seq<char>) -> spec_fn(SceneMemberRowView) -> bool {
    |r: SceneMemberRowView| r.scene_id != scene_id
}

pub open spec fn seat(
    scene_id: Seq<char>,
    user_id: Seq<char>,
) -> spec_fn(SceneMemberRowView) -> bool {
    |r: SceneMemberRowView| r.scene_id == scene_id && r.user_id == user_id
}

pub open spec fn not_seat(scene_id: Seq<char>, user_id: Seq<char>) -> spec_fn(
    SceneMemberRowView,
) -> bool {
    |r: SceneMemberRowView| !(r.scene_id == scene_id && r.user_id == user_id)
}

pub open spec fn first_added_first() -> spec_fn(SceneMemberRowView, SceneMemberRowView) -> bool {
    |a: SceneMemberRowView, b: SceneMemberRowView| a.added_at <= b.added_at
}

/// Not a grant to the scene.
pub open spec fn not_granted_to_scene(tenant_id: Seq<char>, scene_id: Seq<char>) -> spec_fn(
    ResourceGrantRowView,
) -> bool {
    |r: ResourceGrantRowView|
        !(r.tenant_id == tenant_id && r.subject_type == "scene"@ && r.subject_id == scene_id)
}

/// The strings of a JSON list; what is no such list has none.
pub open spec fn json_list(text: Seq<char>) -> Seq<Seq<char>> {
    match json_texts(text) {
        Some(list) => list,
        None => Seq::empty(),
    }
}

pub(crate) fn read_json_list(text: &str) -> (r: Vec<String>)
    ensures
        texts(r@) == json_list(text@),
{
    match parse_texts(text) {
        Some(list) => list,
        None => {
            let none: Vec<String> = Vec::new();
            proof {
                assert(texts(none@) =~= Seq::empty());
            }
            none
        },
    }
}

pub open spec fn scene_dto(st: PlatformState, r: SceneRowView) -> SceneDtoView {
    SceneDtoView {
        id: r.id,
        name: r.name,
        description: r.description,
        job_functions: json_list(r.job_functions),
        built_in: r.built_in,
        member_count: st.scene_members.filter(roster_of(r.id)).len() as i64,
        created_at: r.created_at,
        updated_at: r.updated_at,
    }
}

/// The scenes with the group's built-in ones added as far as they are missing.
pub open spec fn seeded(
    scenes: Seq<SceneRowView>,
    tenant_id: Seq<char>,
    builtins: Seq<BuiltinSceneView>,
    ids: Seq<Seq<char>>,
    now: i64,
) -> Seq<SceneRowView>
    decreases builtins.len(),
{
    if builtins.len() == 0 {
        scenes
    } else {
        let so_far = seeded(scenes, tenant_id, builtins.drop_last(), ids, now);
        let b = builtins.last();
        if any(so_far, scene_named(tenant_id, b.name)) {
            so_far
        } else {
            so_far.push(
                SceneRowView {
                    id: ids[builtins.len() - 1],
                    tenant_id,
                    name: b.name,
                    description: Some(b.description),
                    job_functions: texts_json(b.job_functions),
                    built_in: true,
                    created_at: now,
                    updated_at: now,
                },
            )
        }
    }
}

pub open spec fn name_taken(name: Seq<char>) -> PlatformErrorView {
    PlatformErrorView::BadRequest("a scene named '"@ + name + "' already exists"@)
}

/// Why a scene is not made.
pub open spec fn create_refusal(st: PlatformState, tenant_id: Seq<char>, name: Seq<char>) -> Option<
    PlatformErrorView,
> {
    let bare = trimmed_text(name);
    if bare.len() == 0 {
        Some(PlatformErrorView::BadRequest("scene name must not be empty"@))
    } else if any(st.scenes, scene_named(tenant_id, bare)) {
        Some(name_taken(bare))
    } else {
        None
    }
}

/// Why a scene is not changed.
pub open spec fn update_refusal(
    st: PlatformState,
    tenant_id: Seq<char>,
    id: Seq<char>,
    name: Seq<char>,
) -> Option<PlatformErrorView> {
    let bare = trimmed_text(name);
    if bare.len() == 0 {
        Some(PlatformErrorView::BadRequest("scene name must not be empty"@))
    } else if !any(st.scenes, scene_key(tenant_id, id)) {
        Some(PlatformErrorView::NotFound("scene not found"@))
    } else if any(st.scenes, other_scene_named(tenant_id, bare, id)) {
        Some(name_taken(bare))
    } else {
        None
    }
}

/// Why a scene is not deleted.
pub open spec fn delete_refusal(st: PlatformState, tenant_id: Seq<char>, id: Seq<char>) -> Option<
    PlatformErrorView,
> {
    match first(st.scenes, scene_key(tenant_id, id)) {
        None => Some(PlatformErrorView::NotFound("scene not found"@)),
        Some(r) => if r.built_in {
            Some(PlatformErrorView::BadRequest("a built-in scene cannot be deleted"@))
        } else {
            None
        },
    }
}

/// The state without a scene, its roster and the grants to it.
pub open spec fn scene_deleted(
    st: PlatformState,
    tenant_id: Seq<char>,
    id: Seq<char>,
) -> PlatformState {
    PlatformState {
        scene_members: st.scene_members.filter(not_roster_of(id)),
        grants: st.grants.filter(not_granted_to_scene(tenant_id, id)),
        scenes: st.scenes.filter(not_scene_key(tenant_id, id)),
        ..st
    }
}

/// The scenes with one of them changed.
pub open spec fn scene_changed(
    scenes: Seq<SceneRowView>,
    tenant_id: Seq<char>,
    id: Seq<char>,
    name: Seq<char>,
    description: Option<Seq<char>>,
    job_functions: Seq<char>,
    now: i64,
) -> Seq<SceneRowView> {
    scenes.map_values(
        |r: SceneRowView|
            if scene_key(tenant_id, id)(r) {
                SceneRowView { name, description, job_functions, updated_at: now, ..r }
            } else {
                r
            },
    )
}

/// The rosters with somebody added to a scene: as before where they are on it.
pub open spec fn seated(
    rows: Seq<SceneMemberRowView>,
    scene_id: Seq<char>,
    tenant_id: Seq<char>,
    user_id: Seq<char>,
    now: i64,
) -> Seq<SceneMemberRowView> {
    if any(rows, seat(scene_id, user_id)) {
        rows
    } else {
        rows.push(SceneMemberRowView { scene_id, tenant_id, user_id, added_at: now })
    }
}

proof fn lemma_builtin_first_total()
    ensures
        total_order(builtin_first()),
{
    let le = builtin_first();
    assert forall|a: SceneRowView, b: SceneRowView| #[trigger] le(a, b) || le(b, a) by {
        lemma_text_le_total(a.name, b.name);
    }
    assert forall|a: SceneRowView, b: SceneRowView, c: SceneRowView|
        #[trigger] le(a, b) && #[trigger] le(b, c) implies le(a, c) by {
        if text_le(a.name, b.name) && text_le(b.name, c.name) {
            lemma_text_le_trans(a.name, b.name, c.name);
        }
    }
}

/// What making a scene does and how it is answered.
pub open spec fn scene_made(
    before: PlatformState,
    after: PlatformState,
    id: Seq<char>,
    tenant_id: Seq<char>,
    name: Seq<char>,
    description: Option<Seq<char>>,
    job_functions: Seq<Seq<char>>,
    now: i64,
    r: Result<SceneDtoView, PlatformErrorView>,
) -> bool {
    match create_refusal(before, tenant_id, name) {
        Some(why) => r == Err::<SceneDtoView, PlatformErrorView>(why) && after == before,
        None => {
            let row = SceneRowView {
                id,
                tenant_id,
                name: trimmed_text(name),
                description,
                job_functions: texts_json(job_functions),
                built_in: false,
                created_at: now,
                updated_at: now,
            };
            &&& after == (PlatformState { scenes: before.scenes.push(row), ..before })
            &&& json_list(row.job_functions) == job_functions
            &&& r == Ok::<SceneDtoView, PlatformErrorView>(scene_dto(after, row))
        },
    }
}

/// What changing a scene does and how it is answered.
pub open spec fn scene_updated(
    before: PlatformState,
    after: PlatformState,
    tenant_id: Seq<char>,
    scene_id: Seq<char>,
    name: Seq<char>,
    description: Option<Seq<char>>,
    job_functions: Seq<Seq<char>>,
    now: i64,
    r: Result<SceneDtoView, PlatformErrorView>,
) -> bool {
    match update_refusal(before, tenant_id, scene_id, name) {
        Some(why) => r == Err::<SceneDtoView, PlatformErrorView>(why) && after == before,
        None => {
            &&& after == (PlatformState {
                scenes: scene_changed(
                    before.scenes,
                    tenant_id,
                    scene_id,
                    trimmed_text(name),
                    description,
                    texts_json(job_functions),
                    now,
                ),
                ..before
            })
            &&& json_list(texts_json(job_functions)) == job_functions
            &&& r matches Ok(d) && first(after.scenes, scene_key(tenant_id, scene_id)) matches Some(
                row,
            ) && d == scene_dto(after, row)
        },
    }
}

/// What deleting a scene does and how it is answered.
pub open spec fn scene_removed(
    before: PlatformState,
    after: PlatformState,
    tenant_id: Seq<char>,
    scene_id: Seq<char>,
    r: Result<(), PlatformErrorView>,
) -> bool {
    match delete_refusal(before, tenant_id, scene_id) {
        Some(why) => r == Err::<(), PlatformErrorView>(why) && after == before,
        None => r is Ok && after == scene_deleted(before, tenant_id, scene_id),
    }
}

/// What seating a member in a scene does and how it is answered.
pub open spec fn seat_given(
    before: PlatformState,
    after: PlatformState,
    tenant_id: Seq<char>,
    scene_id: Seq<char>,
    user_id: Seq<char>,
    now: i64,
    r: Result<(), PlatformErrorView>,
) -> bool {
    if any(before.scenes, scene_key(tenant_id, scene_id)) {
        &&& r is Ok
        &&& after == (PlatformState {
            scene_members: seated(before.scene_members, scene_id, tenant_id, user_id, now),
            ..before
        })
    } else {
        &&& r == Err::<(), PlatformErrorView>(PlatformErrorView::NotFound("scene not found"@))
        &&& after == before
    }
}

/// What unseating a member from a scene does and how it is answered.
pub open spec fn seat_taken(
    before: PlatformState,
    after: PlatformState,
    tenant_id: Seq<char>,
    scene_id: Seq<char>,
    user_id: Seq<char>,
    r: Result<(), PlatformErrorView>,
) -> bool {
    if any(before.scenes, scene_key(tenant_id, scene_id)) {
        &&& r is Ok
        &&& after == (PlatformState {
            scene_members: before.scene_members.filter(not_seat(scene_id, user_id)),
            ..before
        })
    } else {
        &&& r == Err::<(), PlatformErrorView>(PlatformErrorView::NotFound("scene not found"@))
        &&& after == before
    }
}

/// The members of a scene as listed, in the order they were added.
pub open spec fn seats_shown(st: PlatformState, scene_id: Seq<char>, out: Seq<Seq<char>>) -> bool {
    lists(
        out,
        st.scene_members,
        roster_of(scene_id),
        first_added_first(),
        |r: SceneMemberRowView| r.user_id,
    )
}

/// The scenes of a group as listed, the built-in ones first.
pub open spec fn scenes_shown(
    st: PlatformState,
    tenant_id: Seq<char>,
    out: Seq<SceneDtoView>,
) -> bool {
    lists(
        out,
        st.scenes,
        scenes_of(tenant_id),
        builtin_first(),
        |r: SceneRowView| scene_dto(st, r),
    )
}

impl PlatformService {
    fn scene_dto_of(&self, r: &SceneRow) -> (d: SceneDto)
        ensures
            d@ == scene_dto(self@, r@),
    {
        let f = |m: &SceneMemberRow| -> (b: bool)
            ensures
                b == roster_of(r@.id)(m@),
            { same(m.scene_id.as_str(), r.id.as_str()) };
        let count = count_where(&self.scene_members, f, Ghost(roster_of(r@.id)));
        SceneDto {
            id: r.id.clone(),
            name: r.name.clone(),
            description: clone_opt(&r.description),
            job_functions: read_json_list(r.job_functions.as_str()),
            built_in: r.built_in,
            member_count: count as i64,
            created_at: r.created_at,
            updated_at: r.updated_at,
        }
    }

    fn scene_at(&self, tenant_id: &str, id: &str) -> (r: Option<usize>)
        ensures
            match r {
                Some(i) => i < self.scenes.len() && first(self@.scenes, scene_key(tenant_id@, id@))
                    == Some(self.scenes@[i as int]@),
                None => first(self@.scenes, scene_key(tenant_id@, id@)) is None,
            },
            r is Some <==> any(self@.scenes, scene_key(tenant_id@, id@)),
    {
        let f = |r: &SceneRow| -> (b: bool)
            ensures
                b == scene_key(tenant_id@, id@)(r@),
            { same(r.tenant_id.as_str(), tenant_id) && same(r.id.as_str(), id) };
        find_where(&self.scenes, f, Ghost(scene_key(tenant_id@, id@)))
    }

    fn has_scene_named(&self, tenant_id: &str, name: &str) -> (r: bool)
        ensures
            r == any(self@.scenes, scene_named(tenant_id@, name@)),
    {
        let f = |r: &SceneRow| -> (b: bool)
            ensures
                b == scene_named(tenant_id@, name@)(r@),
            { same(r.tenant_id.as_str(), tenant_id) && same(r.name.as_str(), name) };
        any_where(&self.scenes, f, Ghost(scene_named(tenant_id@, name@)))
    }

    /// Adds the built-in scenes that a group lacks. Built-in scene `k` gets the identifier
    /// `ids[k]`.
    pub fn seed_builtin_scenes(&mut self, tenant_id: &str, ids: &Vec<String>, now: i64)
        requires
            ids.len() == 5,
        ensures
            final(self)@ == (PlatformState {
                scenes: seeded(
                    old(self)@.scenes,
                    tenant_id@,
                    builtin_scenes(),
                    texts(ids@),
                    now,
                ),
                ..old(self)@
            }),
    {
        let list = builtin_list();
        let ghost all = builtin_scenes();
        let ghost start = self@;
        let ghost fresh = texts(ids@);
        let mut i: usize = 0;
        proof {
            assert(all.take(0) =~= Seq::empty());
            assert(views(list@).len() == list@.len());
        }
        while i < list.len()
            invariant
                views(list@) == all,
                all.len() == 5,
                list.len() == 5,
                ids.len() == 5,
                fresh == texts(ids@),
                i <= list.len(),
                self@ == (PlatformState {
                    scenes: seeded(
                        start.scenes,
                        tenant_id@,
                        all.take(i as int),
                        fresh,
                        now,
                    ),
                    ..start
                }),
            decreases list.len() - i,
        {
            proof {
                assert(all.take(i + 1).drop_last() =~= all.take(i as int));
                assert(all.take(i + 1).last() == list@[i as int]@);
                assert(fresh[i as int] == ids@[i as int]@);
            }
            if !self.has_scene_named(tenant_id, list[i].name.as_str()) {
                let ghost before = self@.scenes;
                let row = SceneRow {
                    id: ids[i].clone(),
                    tenant_id: tenant_id.to_owned(),
                    name: list[i].name.clone(),
                    description: Some(list[i].description.clone()),
                    job_functions: render_texts(&list[i].job_functions),
                    built_in: true,
                    created_at: now,
                    updated_at: now,
                };
                self.scenes.push(row);
                proof {
                    assert(self@.scenes =~= before.push(row@));
                }
            }
            i = i + 1;
        }
        proof {
            assert(all.take(i as int) =~= all);
        }
    }

    /// The scenes of a group, the built-in ones first, once the group has these.
    pub fn list_scenes(&mut self, tenant_id: &str, ids: &Vec<String>, now: i64) -> (out: Vec<
        SceneDto,
    >)
        requires
            ids.len() == 5,
        ensures
            final(self)@ == (PlatformState {
                scenes: seeded(
                    old(self)@.scenes,
                    tenant_id@,
                    builtin_scenes(),
                    texts(ids@),
                    now,
                ),
                ..old(self)@
            }),
            scenes_shown(final(self)@, tenant_id@, views(out@)),
    {
        self.seed_builtin_scenes(tenant_id, ids, now);
        self.scene_listing(tenant_id)
    }

    fn scene_listing(&self, tenant_id: &str) -> (out: Vec<SceneDto>)
        ensures
            scenes_shown(self@, tenant_id@, views(out@)),
    {
        let f = |r: &SceneRow| -> (b: bool)
            ensures
                b == scenes_of(tenant_id@)(r@),
            { same(r.tenant_id.as_str(), tenant_id) };
        let l = |a: &SceneRow, b: &SceneRow| -> (c: bool)
            ensures
                c == builtin_first()(a@, b@),
            {
                if a.built_in != b.built_in {
                    a.built_in
                } else {
                    le_text(a.name.as_str(), b.name.as_str())
                }
            };
        let ghost g = |r: SceneRowView| scene_dto(self@, r);
        let mk = |r: &SceneRow| -> (d: SceneDto)
            ensures
                d@ == g(r@),
            { self.scene_dto_of(r) };
        proof {
            lemma_builtin_first_total();
        }
        list_where(
            &self.scenes,
            f,
            l,
            mk,
            Ghost(scenes_of(tenant_id@)),
            Ghost(builtin_first()),
            Ghost(g),
        )
    }

    /// Makes a scene under the given identifier.
    pub fn create_scene(
        &mut self,
        id: String,
        tenant_id: &str,
        name: &str,
        description: Option<&str>,
        job_functions: &Vec<String>,
        now: i64,
    ) -> (r: Result<SceneDto, PlatformError>)
        ensures
            scene_made(
                old(self)@,
                final(self)@,
                id@,
                tenant_id@,
                name@,
                opt_str(description),
                texts(job_functions@),
                now,
                answer(r),
            ),
    {
        let name = trim(name);
        if name.as_str().is_empty() {
            return Err(bad_request("scene name must not be empty"));
        }
        if self.has_scene_named(tenant_id, name.as_str()) {
            return Err(
                PlatformError::BadRequest(
                    cat3("a scene named '", name.as_str(), "' already exists"),
                ),
            );
        }
        let row = SceneRow {
            id,
            tenant_id: tenant_id.to_owned(),
            name,
            description: own_opt(description),
            job_functions: render_texts(job_functions),
            built_in: false,
            created_at: now,
            updated_at: now,
        };
        let kept = row.copy();
        let ghost before = self@.scenes;
        self.scenes.push(row);
        proof {
            assert(self@.scenes =~= before.push(row@));
        }
        Ok(self.scene_dto_of(&kept))
    }

    /// Changes a scene's name, description and job functions.
    pub fn update_scene(
        &mut self,
        tenant_id: &str,
        scene_id: &str,
        name: &str,
        description: Option<&str>,
        job_functions: &Vec<String>,
        now: i64,
    ) -> (r: Result<SceneDto, PlatformError>)
        ensures
            scene_updated(
                old(self)@,
                final(self)@,
                tenant_id@,
                scene_id@,
                name@,
                opt_str(description),
                texts(job_functions@),
                now,
                answer(r),
            ),
    {
        let name = trim(name);
        if name.as_str().is_empty() {
            return Err(bad_request("scene name must not be empty"));
        }
        if self.scene_at(tenant_id, scene_id).is_none() {
            return Err(not_found("scene not found"));
        }
        let ghost p = other_scene_named(tenant_id@, name@, scene_id@);
        let f = |r: &SceneRow| -> (b: bool)
            ensures
                b == p(r@),
            {
                same(r.tenant_id.as_str(), tenant_id) && same(r.name.as_str(), name.as_str())
                    && !same(r.id.as_str(), scene_id)
            };
        if any_where(&self.scenes, f, Ghost(p)) {
            return Err(
                PlatformError::BadRequest(
                    cat3("a scene named '", name.as_str(), "' already exists"),
                ),
            );
        }
        let jobs = render_texts(job_functions);
        let ghost g = |r: SceneRowView|
            if scene_key(tenant_id@, scene_id@)(r) {
                SceneRowView {
                    name: name@,
                    description: opt_str(description),
                    job_functions: jobs@,
                    updated_at: now,
                    ..r
                }
            } else {
                r
            };
        let u = |r: &SceneRow| -> (y: SceneRow)
            ensures
                y@ == g(r@),
            {
                let mut y = r.copy();
                if same(r.tenant_id.as_str(), tenant_id) && same(r.id.as_str(), scene_id) {
                    y.name = name.clone();
                    y.description = own_opt(description);
                    y.job_functions = jobs.clone();
                    y.updated_at = now;
                }
                y
            };
        map_rows(&mut self.scenes, u, Ghost(g));
        proof {
            crate::table::lemma_first_map(
                old(self)@.scenes,
                scene_key(tenant_id@, scene_id@),
                g,
            );
            lemma_first(old(self)@.scenes, scene_key(tenant_id@, scene_id@));
        }
        match self.scene_at(tenant_id, scene_id) {
            Some(i) => Ok(self.scene_dto_of(&self.scenes[i])),
            None => Err(not_found("scene not found")),
        }
    }

    /// Deletes a scene that is not built in, with its roster and the grants to it.
    pub fn delete_scene(&mut self, tenant_id: &str, scene_id: &str) -> (r: Result<
        (),
        PlatformError,
    >)
        ensures
            scene_removed(old(self)@, final(self)@, tenant_id@, scene_id@, done(r)),
    {
        let at: usize = match self.scene_at(tenant_id, scene_id) {
            Some(i) => i,
            None => {
                return Err(not_found("scene not found"));
            },
        };
        if self.scenes[at].built_in {
            return Err(bad_request("a built-in scene cannot be deleted"));
        }
        let m = |r: &SceneMemberRow| -> (b: bool)
            ensures
                b == not_roster_of(scene_id@)(r@),
            { !same(r.scene_id.as_str(), scene_id) };
        keep_where(&mut self.scene_members, m, Ghost(not_roster_of(scene_id@)));
        let g = |r: &ResourceGrantRow| -> (b: bool)
            ensures
                b == not_granted_to_scene(tenant_id@, scene_id@)(r@),
            {
                !(same(r.tenant_id.as_str(), tenant_id) && same(r.subject_type.as_str(), "scene")
                    && same(r.subject_id.as_str(), scene_id))
            };
        keep_where(&mut self.grants, g, Ghost(not_granted_to_scene(tenant_id@, scene_id@)));
        let s = |r: &SceneRow| -> (b: bool)
            ensures
                b == not_scene_key(tenant_id@, scene_id@)(r@),
            { !(same(r.tenant_id.as_str(), tenant_id) && same(r.id.as_str(), scene_id)) };
        keep_where(&mut self.scenes, s, Ghost(not_scene_key(tenant_id@, scene_id@)));
        Ok(())
    }

    fn require_scene(&self, tenant_id: &str, scene_id: &str) -> (r: Result<(), PlatformError>)
        ensures
            match r {
                Ok(_) => any(self@.scenes, scene_key(tenant_id@, scene_id@)),
                Err(e) => !any(self@.scenes, scene_key(tenant_id@, scene_id@)) && e@
                    == PlatformErrorView::NotFound("scene not found"@),
            },
    {
        if self.scene_at(tenant_id, scene_id).is_none() {
            return Err(not_found("scene not found"));
        }
        Ok(())
    }

    /// Puts somebody on a scene's roster. Whoever is on it stays on it.
    pub fn add_scene_member(
        &mut self,
        tenant_id: &str,
        scene_id: &str,
        user_id: &str,
        now: i64,
    ) -> (r:
        Result<(), PlatformError>)
        ensures
            seat_given(
                old(self)@,
                final(self)@,
                tenant_id@,
                scene_id@,
                user_id@,
                now,
                done(r),
            ),
    {
        if let Err(e) = self.require_scene(tenant_id, scene_id) {
            return Err(e);
        }
        let f = |r: &SceneMemberRow| -> (b: bool)
            ensures
                b == seat(scene_id@, user_id@)(r@),
            { same(r.scene_id.as_str(), scene_id) && same(r.user_id.as_str(), user_id) };
        if !any_where(&self.scene_members, f, Ghost(seat(scene_id@, user_id@))) {
            let ghost before = self@.scene_members;
            let row = SceneMemberRow {
                scene_id: scene_id.to_owned(),
                tenant_id: tenant_id.to_owned(),
                user_id: user_id.to_owned(),
                added_at: now,
            };
            self.scene_members.push(row);
            proof {
                assert(self@.scene_members =~= before.push(row@));
            }
        }
        Ok(())
    }

    /// Takes somebody off a scene's roster.
    pub fn remove_scene_member(&mut self, tenant_id: &str, scene_id: &str, user_id: &str) -> (r:
        Result<(), PlatformError>)
        ensures
            seat_taken(
                old(self)@,
                final(self)@,
                tenant_id@,
                scene_id@,
                user_id@,
                done(r),
            ),
    {
        if let Err(e) = self.require_scene(tenant_id, scene_id) {
            return Err(e);
        }
        let k = |r: &SceneMemberRow| -> (b: bool)
            ensures
                b == not_seat(scene_id@, user_id@)(r@),
            { !(same(r.scene_id.as_str(), scene_id) && same(r.user_id.as_str(), user_id)) };
        keep_where(&mut self.scene_members, k, Ghost(not_seat(scene_id@, user_id@)));
        Ok(())
    }

    /// The members of a scene, in the order they were added.
    pub fn list_scene_members(&self, tenant_id: &str, scene_id: &str) -> (r: Result<
        Vec<String>,
        PlatformError,
    >)
        ensures
            match r {
                Ok(out) => any(self@.scenes, scene_key(tenant_id@, scene_id@)) && seats_shown(
                    self@,
                    scene_id@,
                    views(out@),
                ),
                Err(e) => !any(self@.scenes, scene_key(tenant_id@, scene_id@)) && e@
                    == PlatformErrorView::NotFound("scene not found"@),
            },
    {
        if let Err(e) = self.require_scene(tenant_id, scene_id) {
            return Err(e);
        }
        let f = |r: &SceneMemberRow| -> (b: bool)
            ensures
                b == roster_of(scene_id@)(r@),
            { same(r.scene_id.as_str(), scene_id) };
        let l = |a: &SceneMemberRow, b: &SceneMemberRow| -> (c: bool)
            ensures
                c == first_added_first()(a@, b@),
            { a.added_at <= b.added_at };
        let ghost g = |r: SceneMemberRowView| r.user_id;
        let mk = |r: &SceneMemberRow| -> (d: String)
            ensures
                d@ == g(r@),
            { r.user_id.clone() };
        Ok(
            list_where(
                &self.scene_members,
                f,
                l,
                mk,
                Ghost(roster_of(scene_id@)),
                Ghost(first_added_first()),
                Ghost(g),
            ),
        )
    }
}

} // verus!
