//! What mail is written, and through which server.
use crate::org::email::{
    invite_email, sealed_password, shown_smtp, smtp_route, smtp_saved,
};
use crate::org::models::SmtpConfigDtoView;
use crate::org::rbac::{admin_refusal, assignable_role, OrgActorView};
use crate::org::service::OrgState;
use vstd::prelude::*;

verus! {

/// A mail is written from a good sender to a good recipient; it names the group and gives the
/// code. A bad address is named in the refusal, the sender's first.
pub proof fn mail_gives_the_code(
    from_ok: bool,
    to_ok: bool,
    from: Seq<char>,
    to: Seq<char>,
    code: Seq<char>,
    group: Seq<char>,
)
    ensures
        invite_email(from_ok, to_ok, from, to, code, group) is Ok <==> from_ok && to_ok,
        invite_email(from_ok, to_ok, from, to, code, group) matches Ok(mail) ==> {
            &&& mail.from == from
            &&& mail.to == to
            &&& mail.subject == "Invitation to join "@ + group
            &&& mail.body == "You have been invited to "@ + group + ".\n\nInvite code: "@ + code
                + "\n"@
        },
        invite_email(from_ok, to_ok, from, to, code, group) matches Err(why) ==> why.status
            == "error"@ && why.message == if !from_ok {
            "Invalid From address: "@ + from
        } else {
            "Invalid recipient: "@ + to
        },
{
}

/// The mail server that was saved is the one that is read, without its password, and the one that
/// mail goes through while it is enabled. A new password replaces the kept one.
pub proof fn saved_server_is_used(
    before: OrgState,
    after: OrgState,
    host: Seq<char>,
    port: i64,
    username: Option<Seq<char>>,
    password: Option<Seq<char>>,
    sealed: Seq<char>,
    from_address: Seq<char>,
    enabled: bool,
    now: i64,
    d: SmtpConfigDtoView,
)
    requires
        smtp_saved(
            before,
            after,
            host,
            port,
            username,
            password,
            sealed,
            from_address,
            enabled,
            now,
            d,
        ),
    ensures
        d == shown_smtp(after.smtp),
        d.host == Some(host),
        d.port == Some(port),
        d.username == username,
        d.from_address == Some(from_address),
        d.enabled == enabled,
        d.updated_at == Some(now),
        d.has_password <==> sealed_password(after) is Some,
        sealed_password(after) == if password is Some && password->0.len() > 0 {
            Some(sealed)
        } else {
            sealed_password(before)
        },
        smtp_route(after.smtp) == if enabled && host.len() > 0 && 0 <= port <= 65535 {
            Some((host, port as u16))
        } else {
            None
        },
        after == (OrgState { smtp: after.smtp, ..before }),
{
}

/// Without a saved server there is none to show and none to use.
pub proof fn no_server_is_no_route()
    ensures
        smtp_route(None) is None,
        shown_smtp(None).host is None,
        !shown_smtp(None).enabled,
        !shown_smtp(None).has_password,
{
}

/// Administration of a group is open to its administrators, in a group of an enterprise.
pub proof fn group_administration_is_for_administrators(actor: OrgActorView)
    ensures
        admin_refusal(actor) is None <==> actor.tenant_id.len() > 0 && actor.tenant_id
            != "default"@ && (actor.role == "system_admin"@ || actor.role == "org_admin"@
            || actor.role == "admin"@),
        (actor.tenant_id.len() == 0 || actor.tenant_id == "default"@) ==> admin_refusal(
            actor,
        ) is Some && admin_refusal(actor)->0 is NotInEnterprise,
{
}

/// The roles that can be given to a member.
pub proof fn three_roles_can_be_given(role: Seq<char>)
    ensures
        assignable_role(role) <==> role == "member"@ || role == "org_admin"@ || role
            == "system_admin"@,
{
}

} // verus!
