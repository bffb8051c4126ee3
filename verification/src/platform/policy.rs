//! The security policy of a group.
use crate::json::{render_texts, texts_json};
use crate::platform::error::{PlatformError, PlatformErrorView};
use crate::platform::models::{
    SecurityPolicyDto, SecurityPolicyDtoView, SecurityPolicyRow, SecurityPolicyRowView,
};
use crate::platform::scenes::{json_list, read_json_list};
use crate::platform::service::{PlatformService, PlatformState};
use crate::table::{
    answer, any, find_where, first, lemma_first, lemma_first_map, lemma_first_push, map_rows,
};
use crate::text::{cat3, clone_texts, same, texts};
use vstd::prelude::*;

verus! {

/// What commands are blocked by default.
pub open spec fn default_patterns() -> Seq<Seq<char>> {
    seq!["rm -rf"@, "shutdown"@, "mkfs"@, "sudo"@, "kubectl delete"@]
}

pub fn default_blocked_command_patterns() -> (r: Vec<String>)
    ensures
        texts(r@) == default_patterns(),
{
    let mut r: Vec<String> = Vec::new();
    r.push("rm -rf".to_owned());
    r.push("shutdown".to_owned());
    r.push("mkfs".to_owned());
    r.push("sudo".to_owned());
    r.push("kubectl delete".to_owned());
    proof {
        assert(texts(r@) =~= default_patterns());
    }
    r
}

/// The policy of a built-in tier: `relaxed` checks nothing, `standard` has terminal tools approved,
/// destructive commands blocked and sending limited, `strict` also denies the outside network and
/// scans messages.
pub open spec fn preset(tier: Seq<char>) -> Option<SecurityPolicyDtoView> {
    if tier == "relaxed"@ {
        Some(
            SecurityPolicyDtoView {
                tier,
                terminal_tools_require_approval: false,
                destructive_commands_blocked: false,
                blocked_command_patterns: Seq::empty(),
                external_network_denied_by_default: false,
                message_scan_enabled: false,
                message_redact_enabled: false,
                send_rate_limit_per_minute: None,
                updated_at: None,
            },
        )
    } else if tier == "standard"@ {
        Some(
            SecurityPolicyDtoView {
                tier,
                terminal_tools_require_approval: true,
                destructive_commands_blocked: true,
                blocked_command_patterns: default_patterns(),
                external_network_denied_by_default: false,
                message_scan_enabled: false,
                message_redact_enabled: false,
                send_rate_limit_per_minute: Some(30),
                updated_at: None,
            },
        )
    } else if tier == "strict"@ {
        Some(
            SecurityPolicyDtoView {
                tier,
                terminal_tools_require_approval: true,
                destructive_commands_blocked: true,
                blocked_command_patterns: default_patterns(),
                external_network_denied_by_default: true,
                message_scan_enabled: true,
                message_redact_enabled: true,
                send_rate_limit_per_minute: Some(20),
                updated_at: None,
            },
        )
    } else {
        None
    }
}

pub fn security_policy_preset(tier: &str) -> (r: Option<SecurityPolicyDto>)
    ensures
        match r {
            Some(d) => preset(tier@) == Some(d@),
            None => preset(tier@) is None,
        },
{
    let relaxed = same(tier, "relaxed");
    let standard = same(tier, "standard");
    let strict = same(tier, "strict");
    if !relaxed && !standard && !strict {
        return None;
    }
    let patterns = if relaxed {
        let none: Vec<String> = Vec::new();
        proof {
            assert(texts(none@) =~= Seq::empty());
        }
        none
    } else {
        default_blocked_command_patterns()
    };
    let checked = !relaxed;
    let limit: Option<i64> = if relaxed {
        None
    } else if standard {
        Some(30)
    } else {
        Some(20)
    };
    let tight = !relaxed && !standard;
    Some(
        SecurityPolicyDto {
            tier: tier.to_owned(),
            terminal_tools_require_approval: checked,
            destructive_commands_blocked: checked,
            blocked_command_patterns: patterns,
            external_network_denied_by_default: tight,
            message_scan_enabled: tight,
            message_redact_enabled: tight,
            send_rate_limit_per_minute: limit,
            updated_at: None,
        },
    )
}

pub open spec fn policy_of(tenant_id: Seq<char>) -> spec_fn(SecurityPolicyRowView) -> bool {
    |r: SecurityPolicyRowView| r.tenant_id == tenant_id
}

pub open spec fn policy_dto(r: SecurityPolicyRowView) -> SecurityPolicyDtoView {
    SecurityPolicyDtoView {
        tier: r.tier,
        terminal_tools_require_approval: r.terminal_tools_require_approval,
        destructive_commands_blocked: r.destructive_commands_blocked,
        blocked_command_patterns: json_list(r.blocked_command_patterns),
        external_network_denied_by_default: r.external_network_denied_by_default,
        message_scan_enabled: r.message_scan_enabled,
        message_redact_enabled: r.message_redact_enabled,
        send_rate_limit_per_minute: r.send_rate_limit_per_minute,
        updated_at: Some(r.updated_at),
    }
}

/// The policy of a group; one that never set any has the `relaxed` one.
pub open spec fn shown_policy(st: PlatformState, tenant_id: Seq<char>) -> SecurityPolicyDtoView {
    match first(st.policies, policy_of(tenant_id)) {
        Some(r) => policy_dto(r),
        None => preset("relaxed"@)->0,
    }
}

/// A policy as it is stored.
pub open spec fn policy_row(
    tenant_id: Seq<char>,
    d: SecurityPolicyDtoView,
    now: i64,
) -> SecurityPolicyRowView {
    SecurityPolicyRowView {
        tenant_id,
        tier: d.tier,
        terminal_tools_require_approval: d.terminal_tools_require_approval,
        destructive_commands_blocked: d.destructive_commands_blocked,
        blocked_command_patterns: texts_json(d.blocked_command_patterns),
        external_network_denied_by_default: d.external_network_denied_by_default,
        message_scan_enabled: d.message_scan_enabled,
        message_redact_enabled: d.message_redact_enabled,
        send_rate_limit_per_minute: d.send_rate_limit_per_minute,
        updated_at: now,
    }
}

/// The policies with one group's set.
pub open spec fn with_policy(rows: Seq<SecurityPolicyRowView>, row: SecurityPolicyRowView) -> Seq<
    SecurityPolicyRowView,
> {
    if any(rows, policy_of(row.tenant_id)) {
        rows.map_values(
            |r: SecurityPolicyRowView|
                if r.tenant_id == row.tenant_id {
                    row
                } else {
                    r
                },
        )
    } else {
        rows.push(row)
    }
}

/// What is stored for a group is what was set for it, and other groups keep theirs.
pub proof fn policy_read_back(rows: Seq<SecurityPolicyRowView>, row: SecurityPolicyRowView)
    ensures
        first(with_policy(rows, row), policy_of(row.tenant_id)) == Some(row),
        forall|t: Seq<char>|
            t != row.tenant_id ==> #[trigger] first(with_policy(rows, row), policy_of(t)) == first(
                rows,
                policy_of(t),
            ),
{
    let p = policy_of(row.tenant_id);
    let after = with_policy(rows, row);
    lemma_first(rows, p);
    if any(rows, p) {
        let g = |r: SecurityPolicyRowView|
            if r.tenant_id == row.tenant_id {
                row
            } else {
                r
            };
        assert(after == rows.map_values(g));
        lemma_first_map(rows, p, g);
        assert forall|t: Seq<char>| t != row.tenant_id implies #[trigger] first(after, policy_of(t))
            == first(rows, policy_of(t)) by {
            lemma_first_map(rows, policy_of(t), g);
            lemma_first(rows, policy_of(t));
        }
    } else {
        lemma_first_push(rows, row, p);
        assert forall|t: Seq<char>| t != row.tenant_id implies #[trigger] first(after, policy_of(t))
            == first(rows, policy_of(t)) by {
            lemma_first_push(rows, row, policy_of(t));
        }
    }
}

/// What setting a group's policy by hand does and how it is answered.
pub open spec fn policy_set(
    before: PlatformState,
    after: PlatformState,
    tenant_id: Seq<char>,
    terminal_tools_require_approval: bool,
    destructive_commands_blocked: bool,
    blocked_command_patterns: Seq<Seq<char>>,
    external_network_denied_by_default: bool,
    message_scan_enabled: bool,
    message_redact_enabled: bool,
    send_rate_limit_per_minute: Option<i64>,
    now: i64,
    d: SecurityPolicyDtoView,
) -> bool {
    let p = SecurityPolicyDtoView {
        tier: "custom"@,
        terminal_tools_require_approval,
        destructive_commands_blocked,
        blocked_command_patterns,
        external_network_denied_by_default,
        message_scan_enabled,
        message_redact_enabled,
        send_rate_limit_per_minute,
        updated_at: Some(now),
    };
    &&& d == p
    &&& after == (PlatformState {
        policies: with_policy(before.policies, policy_row(tenant_id, p, now)),
        ..before
    })
    &&& json_list(texts_json(blocked_command_patterns)) == blocked_command_patterns
}

/// What choosing a tier of policy for a group does and how it is answered.
pub open spec fn tier_applied(
    before: PlatformState,
    after: PlatformState,
    tenant_id: Seq<char>,
    tier: Seq<char>,
    now: i64,
    r: Result<SecurityPolicyDtoView, PlatformErrorView>,
) -> bool {
    match preset(tier) {
        Some(p) => {
            &&& after == (PlatformState {
                policies: with_policy(before.policies, policy_row(tenant_id, p, now)),
                ..before
            })
            &&& json_list(texts_json(p.blocked_command_patterns)) == p.blocked_command_patterns
            &&& r == Ok::<SecurityPolicyDtoView, PlatformErrorView>(
                SecurityPolicyDtoView { updated_at: Some(now), ..p },
            )
        },
        None => {
            &&& after == before
            &&& r == Err::<SecurityPolicyDtoView, PlatformErrorView>(
                PlatformErrorView::BadRequest("unknown tier '"@ + tier + "'"@),
            )
        },
    }
}

impl PlatformService {
    fn policy_at(&self, tenant_id: &str) -> (r: Option<usize>)
        ensures
            match r {
                Some(i) => i < self.policies.len() && first(self@.policies, policy_of(tenant_id@))
                    == Some(self.policies@[i as int]@),
                None => first(self@.policies, policy_of(tenant_id@)) is None,
            },
            r is Some <==> any(self@.policies, policy_of(tenant_id@)),
    {
        let f = |r: &SecurityPolicyRow| -> (b: bool)
            ensures
                b == policy_of(tenant_id@)(r@),
            { same(r.tenant_id.as_str(), tenant_id) };
        find_where(&self.policies, f, Ghost(policy_of(tenant_id@)))
    }

    pub fn get_security_policy(&self, tenant_id: &str) -> (d: SecurityPolicyDto)
        ensures
            d@ == shown_policy(self@, tenant_id@),
    {
        match self.policy_at(tenant_id) {
            Some(i) => {
                let r = &self.policies[i];
                SecurityPolicyDto {
                    tier: r.tier.clone(),
                    terminal_tools_require_approval: r.terminal_tools_require_approval,
                    destructive_commands_blocked: r.destructive_commands_blocked,
                    blocked_command_patterns: read_json_list(r.blocked_command_patterns.as_str()),
                    external_network_denied_by_default: r.external_network_denied_by_default,
                    message_scan_enabled: r.message_scan_enabled,
                    message_redact_enabled: r.message_redact_enabled,
                    send_rate_limit_per_minute: r.send_rate_limit_per_minute,
                    updated_at: Some(r.updated_at),
                }
            },
            None => {
                let none: Vec<String> = Vec::new();
                proof {
                    assert(texts(none@) =~= Seq::empty());
                }
                SecurityPolicyDto {
                    tier: "relaxed".to_owned(),
                    terminal_tools_require_approval: false,
                    destructive_commands_blocked: false,
                    blocked_command_patterns: none,
                    external_network_denied_by_default: false,
                    message_scan_enabled: false,
                    message_redact_enabled: false,
                    send_rate_limit_per_minute: None,
                    updated_at: None,
                }
            },
        }
    }

    fn upsert_security_policy(&mut self, tenant_id: &str, dto: &SecurityPolicyDto, now: i64) -> (d:
        SecurityPolicyDto)
        ensures
            final(self)@ == (PlatformState {
                policies: with_policy(old(self)@.policies, policy_row(tenant_id@, dto@, now)),
                ..old(self)@
            }),
            d@ == (SecurityPolicyDtoView { updated_at: Some(now), ..dto@ }),
            json_list(texts_json(dto@.blocked_command_patterns)) == dto@.blocked_command_patterns,
    {
        let row = SecurityPolicyRow {
            tenant_id: tenant_id.to_owned(),
            tier: dto.tier.clone(),
            terminal_tools_require_approval: dto.terminal_tools_require_approval,
            destructive_commands_blocked: dto.destructive_commands_blocked,
            blocked_command_patterns: render_texts(&dto.blocked_command_patterns),
            external_network_denied_by_default: dto.external_network_denied_by_default,
            message_scan_enabled: dto.message_scan_enabled,
            message_redact_enabled: dto.message_redact_enabled,
            send_rate_limit_per_minute: dto.send_rate_limit_per_minute,
            updated_at: now,
        };
        let ghost new = row@;
        if self.policy_at(tenant_id).is_some() {
            let ghost g = |r: SecurityPolicyRowView|
                if r.tenant_id == new.tenant_id {
                    new
                } else {
                    r
                };
            let u = |r: &SecurityPolicyRow| -> (y: SecurityPolicyRow)
                ensures
                    y@ == g(r@),
                {
                    if same(r.tenant_id.as_str(), tenant_id) {
                        row.copy()
                    } else {
                        r.copy()
                    }
                };
            map_rows(&mut self.policies, u, Ghost(g));
            proof {
                assert(self@.policies =~= with_policy(old(self)@.policies, new));
            }
        } else {
            let ghost before = self@.policies;
            self.policies.push(row);
            proof {
                assert(self@.policies =~= before.push(row@));
            }
        }
        proof {
            policy_read_back(old(self)@.policies, new);
        }
        self.get_security_policy(tenant_id)
    }

    /// Sets the policy of a group to that of a built-in tier.
    pub fn apply_security_policy_tier(
        &mut self,
        tenant_id: &str,
        tier: &str,
        now: i64,
    ) -> (r: Result<
        SecurityPolicyDto,
        PlatformError,
    >)
        ensures
            tier_applied(old(self)@, final(self)@, tenant_id@, tier@, now, answer(r)),
    {
        match security_policy_preset(tier) {
            Some(p) => Ok(self.upsert_security_policy(tenant_id, &p, now)),
            None => Err(PlatformError::BadRequest(cat3("unknown tier '", tier, "'"))),
        }
    }

    /// Sets the policy of a group field by field. Its tier is `custom` from then on, whatever the
    /// fields.
    pub fn set_security_policy(
        &mut self,
        tenant_id: &str,
        terminal_tools_require_approval: bool,
        destructive_commands_blocked: bool,
        blocked_command_patterns: &Vec<String>,
        external_network_denied_by_default: bool,
        message_scan_enabled: bool,
        message_redact_enabled: bool,
        send_rate_limit_per_minute: Option<i64>,
        now: i64,
    ) -> (d: SecurityPolicyDto)
        ensures
            policy_set(
                old(self)@,
                final(self)@,
                tenant_id@,
                terminal_tools_require_approval,
                destructive_commands_blocked,
                texts(blocked_command_patterns@),
                external_network_denied_by_default,
                message_scan_enabled,
                message_redact_enabled,
                send_rate_limit_per_minute,
                now,
                d@,
            ),
    {
        let dto = SecurityPolicyDto {
            tier: "custom".to_owned(),
            terminal_tools_require_approval,
            destructive_commands_blocked,
            blocked_command_patterns: clone_texts(blocked_command_patterns),
            external_network_denied_by_default,
            message_scan_enabled,
            message_redact_enabled,
            send_rate_limit_per_minute,
            updated_at: None,
        };
        self.upsert_security_policy(tenant_id, &dto, now)
    }
}

/// The tier that a policy template is said to come from unless a request says otherwise.
pub fn default_policy_template_tier() -> (r: String)
    ensures
        r@ == "custom"@,
{
    "custom".to_owned()
}

} // verus!
