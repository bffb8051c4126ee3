//! Which members may reach which resources.
use crate::org::departments::{department_key, parent_of};
use crate::org::membership::member_key;
use crate::org::models::{DepartmentRow, DepartmentRowView, UserOrgRow};
use crate::platform::error::{bad_request, not_found, PlatformError, PlatformErrorView};
use crate::platform::models::{
    EffectiveGrantDto, EffectiveGrantDtoView, ResourceGrantDto, ResourceGrantDtoView,
    ResourceGrantRow, ResourceGrantRowView, SceneMemberRow, SceneMemberRowView,
};
use crate::platform::service::{PlatformService, PlatformState};
use crate::table::{
    answer, any, done, find_where, first, keep_where, lemma_first_push, list_where, lists, views,
};
use crate::text::{
    cat3, clone_opt, has_text, opt_str, opt_text, same, texts, trim, trimmed_text,
};
use vstd::prelude::*;

verus! {

/// The kinds of subjects of a grant.
pub const GRANT_SUBJECT_TYPES: [&'static str; 3] = ["member", "department", "scene"];

/// The types of resources that grants are kept for.
pub const GRANT_RESOURCE_TYPES: [&'static str; 4] = ["skill", "mcp", "model_channel", "knowledge"];

/// The resource id that stands for every resource of a type.
pub const GRANT_ALL_RESOURCES: &'static str = "*";

pub open spec fn subject_kind(kind: Seq<char>) -> bool {
    kind == "member"@ || kind == "department"@ || kind == "scene"@
}

pub open spec fn resource_kind(kind: Seq<char>) -> bool {
    kind == "skill"@ || kind == "mcp"@ || kind == "model_channel"@ || kind == "knowledge"@
}

fn is_resource_kind(kind: &str) -> (r: bool)
    ensures
        r == resource_kind(kind@),
{
    same(kind, "skill") || same(kind, "mcp") || same(kind, "model_channel") || same(
        kind,
        "knowledge",
    )
}

/// Why a grant of these kinds is refused.
pub open spec fn kinds_refusal(subject_type: Seq<char>, resource_type: Seq<char>) -> Option<
    PlatformErrorView,
> {
    if !subject_kind(subject_type) {
        Some(PlatformErrorView::BadRequest("unknown subject type '"@ + subject_type + "'"@))
    } else if resource_type == "employee"@ {
        Some(PlatformErrorView::BadRequest("resource type 'employee' is not supported yet"@))
    } else if !resource_kind(resource_type) {
        Some(PlatformErrorView::BadRequest("unknown resource type '"@ + resource_type + "'"@))
    } else {
        None
    }
}

pub fn validate_grant_kinds(subject_type: &str, resource_type: &str) -> (r: Result<
    (),
    PlatformError,
>)
    ensures
        match kinds_refusal(subject_type@, resource_type@) {
            Some(why) => r matches Err(e) && e@ == why,
            None => r is Ok,
        },
{
    if !same(subject_type, "member") && !same(subject_type, "department") && !same(
        subject_type,
        "scene",
    ) {
        return Err(PlatformError::BadRequest(cat3("unknown subject type '", subject_type, "'")));
    }
    if same(resource_type, "employee") {
        return Err(bad_request("resource type 'employee' is not supported yet"));
    }
    if !is_resource_kind(resource_type) {
        return Err(PlatformError::BadRequest(cat3("unknown resource type '", resource_type, "'")));
    }
    Ok(())
}

/// Why a grant is refused.
pub open spec fn grant_refusal(
    subject_type: Seq<char>,
    subject_id: Seq<char>,
    resource_type: Seq<char>,
    resource_id: Seq<char>,
) -> Option<PlatformErrorView> {
    match kinds_refusal(subject_type, resource_type) {
        Some(why) => Some(why),
        None => if trimmed_text(subject_id).len() == 0 {
            Some(PlatformErrorView::BadRequest("subject id must not be empty"@))
        } else if trimmed_text(resource_id).len() == 0 {
            Some(PlatformErrorView::BadRequest("resource id must not be empty"@))
        } else {
            None
        },
    }
}

/// A grant of a resource to a subject.
pub open spec fn same_grant(
    tenant_id: Seq<char>,
    subject_type: Seq<char>,
    subject_id: Seq<char>,
    resource_type: Seq<char>,
    resource_id: Seq<char>,
) -> spec_fn(ResourceGrantRowView) -> bool {
    |r: ResourceGrantRowView|
        r.tenant_id == tenant_id && r.subject_type == subject_type && r.subject_id == subject_id
            && r.resource_type == resource_type && r.resource_id == resource_id
}

pub open spec fn grant_key(tenant_id: Seq<char>, id: Seq<char>) -> spec_fn(
    ResourceGrantRowView,
) -> bool {
    |r: ResourceGrantRowView| r.tenant_id == tenant_id && r.id == id
}

pub open spec fn not_grant_key(tenant_id: Seq<char>, id: Seq<char>) -> spec_fn(
    ResourceGrantRowView,
) -> bool {
    |r: ResourceGrantRowView| !(r.tenant_id == tenant_id && r.id == id)
}

pub open spec fn grant_dto(r: ResourceGrantRowView) -> ResourceGrantDtoView {
    ResourceGrantDtoView {
        id: r.id,
        subject_type: r.subject_type,
        subject_id: r.subject_id,
        resource_type: r.resource_type,
        resource_id: r.resource_id,
        granted_by: r.granted_by,
        created_at: r.created_at,
    }
}

/// The grants after a resource was granted: as before where it already was.
pub open spec fn granted(grants: Seq<ResourceGrantRowView>, row: ResourceGrantRowView) -> Seq<
    ResourceGrantRowView,
> {
    if any(
        grants,
        same_grant(
            row.tenant_id,
            row.subject_type,
            row.subject_id,
            row.resource_type,
            row.resource_id,
        ),
    ) {
        grants
    } else {
        grants.push(row)
    }
}

/// A grant that passes the filters.
pub open spec fn grant_listed(
    tenant_id: Seq<char>,
    subject_type: Option<Seq<char>>,
    subject_id: Option<Seq<char>>,
    resource_type: Option<Seq<char>>,
) -> spec_fn(ResourceGrantRowView) -> bool {
    |r: ResourceGrantRowView|
        {
            &&& r.tenant_id == tenant_id
            &&& subject_type matches Some(v) ==> r.subject_type == v
            &&& subject_id matches Some(v) ==> r.subject_id == v
            &&& resource_type matches Some(v) ==> r.resource_type == v
        }
}

pub open spec fn newest_grant_first(
) -> spec_fn(ResourceGrantRowView, ResourceGrantRowView) -> bool {
    |a: ResourceGrantRowView, b: ResourceGrantRowView| a.created_at >= b.created_at
}

/// How many steps up from a member's department grants are looked for.
pub const ANCESTRY_LIMIT: usize = 64;

/// A department and those above it, up to a number of them.
pub open spec fn lineage(
    departments: Seq<DepartmentRowView>,
    tenant_id: Seq<char>,
    start: Option<Seq<char>>,
    limit: nat,
) -> Seq<Seq<char>>
    decreases limit,
{
    match start {
        Some(id) => if limit == 0 {
            Seq::empty()
        } else {
            seq![id] + lineage(
                departments,
                tenant_id,
                parent_of(departments, tenant_id, id),
                (limit - 1) as nat,
            )
        },
        None => Seq::empty(),
    }
}

/// The departments that a member belongs to: their own and those above it.
pub open spec fn departments_of_member(
    st: PlatformState,
    tenant_id: Seq<char>,
    user_id: Seq<char>,
) -> Seq<Seq<char>> {
    let own = match first(st.members, member_key(user_id, tenant_id)) {
        Some(m) => m.department_id,
        None => None,
    };
    lineage(st.departments, tenant_id, own, ANCESTRY_LIMIT as nat)
}

pub open spec fn in_scene(tenant_id: Seq<char>, user_id: Seq<char>, scene_id: Seq<char>) -> spec_fn(
    SceneMemberRowView,
) -> bool {
    |r: SceneMemberRowView|
        r.tenant_id == tenant_id && r.user_id == user_id && r.scene_id == scene_id
}

/// Whether a grant reaches a member: directly, through a department or through a scene.
pub open spec fn reaches(
    st: PlatformState,
    tenant_id: Seq<char>,
    user_id: Seq<char>,
    resource_type: Seq<char>,
) -> spec_fn(ResourceGrantRowView) -> bool {
    |r: ResourceGrantRowView|
        {
            &&& r.tenant_id == tenant_id
            &&& r.resource_type == resource_type
            &&& {
                ||| r.subject_type == "member"@ && r.subject_id == user_id
                ||| r.subject_type == "department"@ && departments_of_member(
                    st,
                    tenant_id,
                    user_id,
                ).contains(r.subject_id)
                ||| r.subject_type == "scene"@ && any(
                    st.scene_members,
                    in_scene(tenant_id, user_id, r.subject_id),
                )
            }
        }
}

/// A grant of one resource that reaches a member.
pub open spec fn reaches_resource(
    st: PlatformState,
    tenant_id: Seq<char>,
    user_id: Seq<char>,
    resource_type: Seq<char>,
    resource_id: Seq<char>,
) -> spec_fn(ResourceGrantRowView) -> bool {
    |r: ResourceGrantRowView|
        reaches(st, tenant_id, user_id, resource_type)(r) && r.resource_id == resource_id
}

/// Whether a member may reach every resource of a type.
pub open spec fn reaches_all(
    st: PlatformState,
    tenant_id: Seq<char>,
    user_id: Seq<char>,
    resource_type: Seq<char>,
) -> bool {
    any(
        st.grants,
        reaches_resource(st, tenant_id, user_id, resource_type, GRANT_ALL_RESOURCES@),
    )
}

/// What a member may reach of a type of resource.
pub open spec fn effective(
    st: PlatformState,
    tenant_id: Seq<char>,
    user_id: Seq<char>,
    resource_type: Seq<char>,
    all: bool,
    ids: Seq<Seq<char>>,
) -> bool {
    &&& all == reaches_all(st, tenant_id, user_id, resource_type)
    &&& all ==> ids.len() == 0
    &&& !all ==> ids.no_duplicates() && forall|id: Seq<char>| #[trigger]
        ids.contains(id) <==> any(
            st.grants,
            reaches_resource(st, tenant_id, user_id, resource_type, id),
        )
}

/// What granting a resource does and how it is answered.
pub open spec fn resource_granted(
    before: PlatformState,
    after: PlatformState,
    id: Seq<char>,
    tenant_id: Seq<char>,
    subject_type: Seq<char>,
    subject_id: Seq<char>,
    resource_type: Seq<char>,
    resource_id: Seq<char>,
    granted_by: Seq<char>,
    now: i64,
    r: Result<ResourceGrantDtoView, PlatformErrorView>,
) -> bool {
    match grant_refusal(subject_type, subject_id, resource_type, resource_id) {
        Some(why) => r == Err::<ResourceGrantDtoView, PlatformErrorView>(why) && after == before,
        None => {
            let row = ResourceGrantRowView {
                id,
                tenant_id,
                subject_type,
                subject_id: trimmed_text(subject_id),
                resource_type,
                resource_id: trimmed_text(resource_id),
                granted_by,
                created_at: now,
            };
            let tuple = same_grant(
                row.tenant_id,
                row.subject_type,
                row.subject_id,
                row.resource_type,
                row.resource_id,
            );
            &&& after == (PlatformState { grants: granted(before.grants, row), ..before })
            &&& r matches Ok(d) && first(after.grants, tuple) matches Some(g) && d == grant_dto(g)
        },
    }
}

/// What revoking a grant does and how it is answered.
pub open spec fn grant_revoked(
    before: PlatformState,
    after: PlatformState,
    tenant_id: Seq<char>,
    grant_id: Seq<char>,
    r: Result<(), PlatformErrorView>,
) -> bool {
    if any(before.grants, grant_key(tenant_id, grant_id)) {
        &&& r is Ok
        &&& after == (PlatformState {
            grants: before.grants.filter(not_grant_key(tenant_id, grant_id)),
            ..before
        })
    } else {
        &&& r == Err::<(), PlatformErrorView>(PlatformErrorView::NotFound("grant not found"@))
        &&& after == before
    }
}

/// The grants of a group that pass the filters as listed, newest first.
pub open spec fn grants_shown(
    st: PlatformState,
    tenant_id: Seq<char>,
    subject_type: Option<Seq<char>>,
    subject_id: Option<Seq<char>>,
    resource_type: Option<Seq<char>>,
    out: Seq<ResourceGrantDtoView>,
) -> bool {
    lists(
        out,
        st.grants,
        grant_listed(tenant_id, subject_type, subject_id, resource_type),
        newest_grant_first(),
        |r: ResourceGrantRowView| grant_dto(r),
    )
}

/// What a member is told they may reach of a type of resource.
pub open spec fn reach_told(
    st: PlatformState,
    tenant_id: Seq<char>,
    user_id: Seq<char>,
    resource_type: Seq<char>,
    r: Result<EffectiveGrantDtoView, PlatformErrorView>,
) -> bool {
    if resource_kind(resource_type) {
        r matches Ok(d) && effective(
            st,
            tenant_id,
            user_id,
            resource_type,
            d.all,
            d.resource_ids,
        )
    } else {
        r == Err::<EffectiveGrantDtoView, PlatformErrorView>(
            PlatformErrorView::BadRequest("unknown resource type '"@ + resource_type + "'"@),
        )
    }
}

impl ResourceGrantDto {
    pub fn of(r: &ResourceGrantRow) -> (d: Self)
        ensures
            d@ == grant_dto(r@),
    {
        ResourceGrantDto {
            id: r.id.clone(),
            subject_type: r.subject_type.clone(),
            subject_id: r.subject_id.clone(),
            resource_type: r.resource_type.clone(),
            resource_id: r.resource_id.clone(),
            granted_by: r.granted_by.clone(),
            created_at: r.created_at,
        }
    }
}

impl PlatformService {
    fn grant_at(&self, tenant_id: &str, id: &str) -> (r: Option<usize>)
        ensures
            match r {
                Some(i) => i < self.grants.len() && first(self@.grants, grant_key(tenant_id@, id@))
                    == Some(self.grants@[i as int]@),
                None => first(self@.grants, grant_key(tenant_id@, id@)) is None,
            },
            r is Some <==> any(self@.grants, grant_key(tenant_id@, id@)),
    {
        let f = |r: &ResourceGrantRow| -> (b: bool)
            ensures
                b == grant_key(tenant_id@, id@)(r@),
            { same(r.tenant_id.as_str(), tenant_id) && same(r.id.as_str(), id) };
        find_where(&self.grants, f, Ghost(grant_key(tenant_id@, id@)))
    }

    /// Grants a subject access to a resource, under the given identifier where it is new. Granting
    /// what is granted changes nothing.
    pub fn grant_resource(
        &mut self,
        id: String,
        tenant_id: &str,
        subject_type: &str,
        subject_id: &str,
        resource_type: &str,
        resource_id: &str,
        granted_by: &str,
        now: i64,
    ) -> (r: Result<ResourceGrantDto, PlatformError>)
        ensures
            resource_granted(
                old(self)@,
                final(self)@,
                id@,
                tenant_id@,
                subject_type@,
                subject_id@,
                resource_type@,
                resource_id@,
                granted_by@,
                now,
                answer(r),
            ),
    {
        if let Err(e) = validate_grant_kinds(subject_type, resource_type) {
            return Err(e);
        }
        let subject_id = trim(subject_id);
        let resource_id = trim(resource_id);
        if subject_id.as_str().is_empty() {
            return Err(bad_request("subject id must not be empty"));
        }
        if resource_id.as_str().is_empty() {
            return Err(bad_request("resource id must not be empty"));
        }
        let ghost p = same_grant(
            tenant_id@,
            subject_type@,
            subject_id@,
            resource_type@,
            resource_id@,
        );
        let f = |r: &ResourceGrantRow| -> (b: bool)
            ensures
                b == p(r@),
            {
                same(r.tenant_id.as_str(), tenant_id) && same(r.subject_type.as_str(), subject_type)
                    && same(r.subject_id.as_str(), subject_id.as_str()) && same(
                    r.resource_type.as_str(),
                    resource_type,
                ) && same(r.resource_id.as_str(), resource_id.as_str())
            };
        if let Some(i) = find_where(&self.grants, f, Ghost(p)) {
            return Ok(ResourceGrantDto::of(&self.grants[i]));
        }
        let row = ResourceGrantRow {
            id,
            tenant_id: tenant_id.to_owned(),
            subject_type: subject_type.to_owned(),
            subject_id,
            resource_type: resource_type.to_owned(),
            resource_id,
            granted_by: granted_by.to_owned(),
            created_at: now,
        };
        let d = ResourceGrantDto::of(&row);
        let ghost before = self@.grants;
        self.grants.push(row);
        proof {
            assert(self@.grants =~= before.push(row@));
            lemma_first_push(before, row@, p);
        }
        Ok(d)
    }

    /// Takes back a grant of a group.
    pub fn revoke_resource(&mut self, tenant_id: &str, grant_id: &str) -> (r: Result<
        (),
        PlatformError,
    >)
        ensures
            grant_revoked(old(self)@, final(self)@, tenant_id@, grant_id@, done(r)),
    {
        if self.grant_at(tenant_id, grant_id).is_none() {
            return Err(not_found("grant not found"));
        }
        let k = |r: &ResourceGrantRow| -> (b: bool)
            ensures
                b == not_grant_key(tenant_id@, grant_id@)(r@),
            { !(same(r.tenant_id.as_str(), tenant_id) && same(r.id.as_str(), grant_id)) };
        keep_where(&mut self.grants, k, Ghost(not_grant_key(tenant_id@, grant_id@)));
        Ok(())
    }

    /// The grants of a group that pass the filters, newest first.
    pub fn list_grants(
        &self,
        tenant_id: &str,
        subject_type: Option<&str>,
        subject_id: Option<&str>,
        resource_type: Option<&str>,
    ) -> (out: Vec<ResourceGrantDto>)
        ensures
            grants_shown(
                self@,
                tenant_id@,
                opt_str(subject_type),
                opt_str(subject_id),
                opt_str(resource_type),
                views(out@),
            ),
    {
        let ghost p = grant_listed(
            tenant_id@,
            opt_str(subject_type),
            opt_str(subject_id),
            opt_str(resource_type),
        );
        let f = |r: &ResourceGrantRow| -> (b: bool)
            ensures
                b == p(r@),
            {
                let by_type = match subject_type {
                    Some(v) => same(r.subject_type.as_str(), v),
                    None => true,
                };
                let by_subject = match subject_id {
                    Some(v) => same(r.subject_id.as_str(), v),
                    None => true,
                };
                let by_resource = match resource_type {
                    Some(v) => same(r.resource_type.as_str(), v),
                    None => true,
                };
                same(r.tenant_id.as_str(), tenant_id) && by_type && by_subject && by_resource
            };
        let l = |a: &ResourceGrantRow, b: &ResourceGrantRow| -> (c: bool)
            ensures
                c == newest_grant_first()(a@, b@),
            { a.created_at >= b.created_at };
        let mk = |r: &ResourceGrantRow| -> (d: ResourceGrantDto)
            ensures
                d@ == grant_dto(r@),
            { ResourceGrantDto::of(r) };
        list_where(
            &self.grants,
            f,
            l,
            mk,
            Ghost(p),
            Ghost(newest_grant_first()),
            Ghost(|r: ResourceGrantRowView| grant_dto(r)),
        )
    }

    /// A member's department and those above it.
    pub fn department_ancestry(&self, tenant_id: &str, user_id: &str) -> (chain: Vec<String>)
        ensures
            texts(chain@) == departments_of_member(self@, tenant_id@, user_id@),
    {
        let f = |r: &UserOrgRow| -> (b: bool)
            ensures
                b == member_key(user_id@, tenant_id@)(r@),
            { same(r.user_id.as_str(), user_id) && same(r.tenant_id.as_str(), tenant_id) };
        let mut current = match find_where(
            &self.members,
            f,
            Ghost(member_key(user_id@, tenant_id@)),
        ) {
            Some(i) => clone_opt(&self.members[i].department_id),
            None => None,
        };
        let mut chain: Vec<String> = Vec::new();
        let mut left: usize = ANCESTRY_LIMIT;
        let ghost whole = departments_of_member(self@, tenant_id@, user_id@);
        proof {
            assert(texts(chain@) =~= Seq::empty());
            assert(whole =~= texts(chain@) + whole);
        }
        loop
            invariant
                whole == texts(chain@) + lineage(
                    self@.departments,
                    tenant_id@,
                    opt_text(current),
                    left as nat,
                ),
            ensures
                whole == texts(chain@),
            decreases left,
        {
            let id = match current {
                Some(id) => id,
                None => {
                    proof {
                        assert(whole =~= texts(chain@));
                    }
                    break;
                },
            };
            if left == 0 {
                proof {
                    assert(whole =~= texts(chain@));
                }
                break;
            }
            let ghost before = texts(chain@);
            let d = |r: &DepartmentRow| -> (b: bool)
                ensures
                    b == department_key(id@, tenant_id@)(r@),
                { same(r.id.as_str(), id.as_str()) && same(r.tenant_id.as_str(), tenant_id) };
            let next = match find_where(
                &self.departments,
                d,
                Ghost(department_key(id@, tenant_id@)),
            ) {
                Some(i) => clone_opt(&self.departments[i].parent_id),
                None => None,
            };
            proof {
                let rest = lineage(
                    self@.departments,
                    tenant_id@,
                    opt_text(next),
                    (left - 1) as nat,
                );
                assert(before + (seq![id@] + rest) =~= before.push(id@) + rest);
            }
            chain.push(id);
            proof {
                assert(texts(chain@) =~= before.push(id@));
            }
            current = next;
            left = left - 1;
        }
        chain
    }

    fn belongs_to_scene(&self, tenant_id: &str, user_id: &str, scene_id: &str) -> (r: bool)
        ensures
            r == any(self@.scene_members, in_scene(tenant_id@, user_id@, scene_id@)),
    {
        let f = |r: &SceneMemberRow| -> (b: bool)
            ensures
                b == in_scene(tenant_id@, user_id@, scene_id@)(r@),
            {
                same(r.tenant_id.as_str(), tenant_id) && same(r.user_id.as_str(), user_id) && same(
                    r.scene_id.as_str(),
                    scene_id,
                )
            };
        crate::table::any_where(
            &self.scene_members,
            f,
            Ghost(in_scene(tenant_id@, user_id@, scene_id@)),
        )
    }

    fn grant_reaches(
        &self,
        tenant_id: &str,
        user_id: &str,
        resource_type: &str,
        departments: &Vec<String>,
        r: &ResourceGrantRow,
    ) -> (b: bool)
        requires
            texts(departments@) == departments_of_member(self@, tenant_id@, user_id@),
        ensures
            b == reaches(self@, tenant_id@, user_id@, resource_type@)(r@),
    {
        if !same(r.tenant_id.as_str(), tenant_id) || !same(
            r.resource_type.as_str(),
            resource_type,
        ) {
            return false;
        }
        let kind = r.subject_type.as_str();
        let subject = r.subject_id.as_str();
        (same(kind, "member") && same(subject, user_id)) || (same(kind, "department") && has_text(
            departments,
            subject,
        )) || (same(kind, "scene") && self.belongs_to_scene(tenant_id, user_id, subject))
    }

    /// What a member may reach of a type of resource.
    pub fn effective_resource_ids(&self, tenant_id: &str, user_id: &str, resource_type: &str) -> (r:
        Result<EffectiveGrantDto, PlatformError>)
        ensures
            reach_told(self@, tenant_id@, user_id@, resource_type@, answer(r)),
    {
        if !is_resource_kind(resource_type) {
            return Err(
                PlatformError::BadRequest(cat3("unknown resource type '", resource_type, "'")),
            );
        }
        let departments = self.department_ancestry(tenant_id, user_id);
        let ghost p = reaches(self@, tenant_id@, user_id@, resource_type@);
        let mut ids: Vec<String> = Vec::new();
        let mut i: usize = 0;
        while i < self.grants.len()
            invariant
                p == reaches(self@, tenant_id@, user_id@, resource_type@),
                texts(departments@) == departments_of_member(self@, tenant_id@, user_id@),
                resource_kind(resource_type@),
                i <= self.grants.len(),
                texts(ids@).no_duplicates(),
                forall|k: int|
                    0 <= k < texts(ids@).len() ==> any(
                        self@.grants,
                        reaches_resource(
                            self@,
                            tenant_id@,
                            user_id@,
                            resource_type@,
                            #[trigger] texts(ids@)[k],
                        ),
                    ),
                forall|k: int|
                    0 <= k < i && p(#[trigger] self@.grants[k]) ==> texts(ids@).contains(
                        self@.grants[k].resource_id,
                    ) && self@.grants[k].resource_id != GRANT_ALL_RESOURCES@,
            decreases self.grants.len() - i,
        {
            let g = &self.grants[i];
            proof {
                assert(self@.grants[i as int] == g@);
            }
            if self.grant_reaches(tenant_id, user_id, resource_type, &departments, g) {
                let rid = g.resource_id.as_str();
                proof {
                    assert(reaches_resource(self@, tenant_id@, user_id@, resource_type@, rid@)(
                        self@.grants[i as int],
                    ));
                }
                if same(rid, GRANT_ALL_RESOURCES) {
                    let none: Vec<String> = Vec::new();
                    proof {
                        assert(texts(none@).len() == 0);
                    }
                    return Ok(EffectiveGrantDto { all: true, resource_ids: none });
                }
                if !has_text(&ids, rid) {
                    let ghost before = texts(ids@);
                    ids.push(g.resource_id.clone());
                    proof {
                        let after = texts(ids@);
                        assert(after =~= before.push(rid@));
                        assert forall|a: int, b: int|
                            0 <= a < after.len() && 0 <= b < after.len() && a != b implies after[a]
                            != after[b] by {
                            if a == before.len() {
                                assert(before.contains(before[b]));
                            } else if b == before.len() {
                                assert(before.contains(before[a]));
                            }
                        }
                        assert forall|k: int|
                            0 <= k < i + 1 && p(#[trigger] self@.grants[k]) implies after.contains(
                            self@.grants[k].resource_id,
                        ) && self@.grants[k].resource_id != GRANT_ALL_RESOURCES@ by {
                            let want = self@.grants[k].resource_id;
                            if k < i {
                                let q = choose|q: int| 0 <= q < before.len() && before[q] == want;
                                assert(after[q] == want);
                            } else {
                                assert(after[before.len() as int] == want);
                            }
                        }
                    }
                }
            }
            i = i + 1;
        }
        proof {
            let st = self@;
            let all_ids = texts(ids@);
            assert(!reaches_all(st, tenant_id@, user_id@, resource_type@)) by {
                if reaches_all(st, tenant_id@, user_id@, resource_type@) {
                    let q = reaches_resource(
                        st,
                        tenant_id@,
                        user_id@,
                        resource_type@,
                        GRANT_ALL_RESOURCES@,
                    );
                    let k = choose|k: int| 0 <= k < st.grants.len() && q(#[trigger] st.grants[k]);
                    assert(p(st.grants[k]));
                }
            }
            assert forall|id: Seq<char>| #[trigger] all_ids.contains(id) <==> any(
                st.grants,
                reaches_resource(st, tenant_id@, user_id@, resource_type@, id),
            ) by {
                let q = reaches_resource(st, tenant_id@, user_id@, resource_type@, id);
                if all_ids.contains(id) {
                    let k = choose|k: int| 0 <= k < all_ids.len() && all_ids[k] == id;
                    assert(any(
                        st.grants,
                        reaches_resource(
                            st,
                            tenant_id@,
                            user_id@,
                            resource_type@,
                            all_ids[k],
                        ),
                    ));
                }
                if any(st.grants, q) {
                    let k = choose|k: int| 0 <= k < st.grants.len() && q(#[trigger] st.grants[k]);
                    assert(p(st.grants[k]));
                }
            }
        }
        Ok(EffectiveGrantDto { all: false, resource_ids: ids })
    }
}

} // verus!
