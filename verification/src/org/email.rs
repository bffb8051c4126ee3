//! Invite emails and the mail settings.
use crate::org::codes::{display_code, format_invite_code_for_display};
use crate::org::error::{OrgError, OrgErrorView};
use crate::org::integration::{keep_secret, kept_secret};
use crate::org::invites::invite_key;
use crate::org::membership::tenant_named;
use crate::org::models::{
    InviteRow, SmtpConfigDto, SmtpConfigDtoView, SmtpConfigRow, SmtpConfigRowView,
};
use crate::org::service::{OrgService, OrgState};
use crate::table::{find_where, first};
use crate::text::{cat, cat3, clone_opt, opt_str, opt_text, own_opt, same};
use vstd::prelude::*;

verus! {

/// What came of sending an email.
#[derive(Debug, Clone)]
pub struct SendEmailResult {
    /// `not_configured`, `sent` or `error`.
    pub status: String,
    pub message: String,
}

/// [`SendEmailResult`] as plain values.
pub struct SendEmailResultView {
    pub status: Seq<char>,
    pub message: Seq<char>,
}

impl View for SendEmailResult {
    type V = SendEmailResultView;

    open spec fn view(&self) -> SendEmailResultView {
        SendEmailResultView {
            status: self.status@,
            message: self.message@,
        }
    }
}

/// An invite email.
#[derive(Debug, Clone)]
pub struct InviteEmail {
    pub from: String,
    pub to: String,
    pub subject: String,
    pub body: String,
}

/// [`InviteEmail`] as plain values.
pub struct InviteEmailView {
    pub from: Seq<char>,
    pub to: Seq<char>,
    pub subject: Seq<char>,
    pub body: Seq<char>,
}

impl View for InviteEmail {
    type V = InviteEmailView;

    open spec fn view(&self) -> InviteEmailView {
        InviteEmailView {
            from: self.from@,
            to: self.to@,
            subject: self.subject@,
            body: self.body@,
        }
    }
}

/// A user name and a password for a mail server.
#[derive(Debug, Clone)]
pub struct SmtpLogin {
    pub username: String,
    pub password: String,
}

/// [`SmtpLogin`] as plain values.
pub struct SmtpLoginView {
    pub username: Seq<char>,
    pub password: Seq<char>,
}

impl View for SmtpLogin {
    type V = SmtpLoginView;

    open spec fn view(&self) -> SmtpLoginView {
        SmtpLoginView {
            username: self.username@,
            password: self.password@,
        }
    }
}

/// How a mail server is spoken to.
#[derive(Debug)]
pub struct SmtpPlan {
    /// TLS from the first byte, rather than after `STARTTLS`.
    pub implicit_tls: bool,
    pub login: Option<SmtpLogin>,
}

/// How long a mail server may take, in seconds.
pub const SMTP_TIMEOUT_SECS: u64 = 8;

/// Whether a text is an address that mail can be sent to or from.
pub uninterp spec fn mailbox_text(text: Seq<char>) -> bool;

/// `lettre::message::Mailbox` parsed from a text: whether that succeeds depends on the text alone.
#[verifier::external_body]
fn is_mailbox(text: &str) -> (r: bool)
    ensures
        r == mailbox_text(text@),
{
    text.parse::<lettre::message::Mailbox>().is_ok()
}

pub open spec fn mail_error(message: Seq<char>) -> SendEmailResultView {
    SendEmailResultView { status: "error"@, message }
}

/// The invite email to send, or why there is none, given which of its two addresses can be used.
pub open spec fn invite_email(
    from_ok: bool,
    to_ok: bool,
    from: Seq<char>,
    to: Seq<char>,
    invite_code: Seq<char>,
    tenant_name: Seq<char>,
) -> Result<InviteEmailView, SendEmailResultView> {
    if !from_ok {
        Err(mail_error("Invalid From address: "@ + from))
    } else if !to_ok {
        Err(mail_error("Invalid recipient: "@ + to))
    } else {
        Ok(
            InviteEmailView {
                from,
                to,
                subject: "Invitation to join "@ + tenant_name,
                body: "You have been invited to "@ + tenant_name + ".\n\nInvite code: "@
                    + invite_code + "\n"@,
            },
        )
    }
}

/// Writes an invite email, given which of its two addresses can be used.
pub fn write_invite_email(
    from_ok: bool,
    to_ok: bool,
    from: &str,
    to: &str,
    invite_code: &str,
    tenant_name: &str,
) -> (r: Result<InviteEmail, SendEmailResult>)
    ensures
        match invite_email(from_ok, to_ok, from@, to@, invite_code@, tenant_name@) {
            Ok(m) => r matches Ok(v) && v@ == m,
            Err(e) => r matches Err(v) && v@ == e,
        },
{
    if !from_ok {
        return Err(
            SendEmailResult {
                status: "error".to_owned(),
                message: cat("Invalid From address: ", from),
            },
        );
    }
    if !to_ok {
        return Err(
            SendEmailResult {
                status: "error".to_owned(),
                message: cat("Invalid recipient: ", to),
            },
        );
    }
    let head = cat3("You have been invited to ", tenant_name, ".\n\nInvite code: ");
    Ok(
        InviteEmail {
            from: from.to_owned(),
            to: to.to_owned(),
            subject: cat("Invitation to join ", tenant_name),
            body: cat3(head.as_str(), invite_code, "\n"),
        },
    )
}

/// Writes an invite email, or says which of its addresses cannot be used.
pub fn compose_invite_email(
    from: &str,
    to: &str,
    invite_code: &str,
    tenant_name: &str,
) -> (r: Result<
    InviteEmail,
    SendEmailResult,
>)
    ensures
        match invite_email(
            mailbox_text(from@),
            mailbox_text(to@),
            from@,
            to@,
            invite_code@,
            tenant_name@,
        ) {
            Ok(m) => r matches Ok(v) && v@ == m,
            Err(e) => r matches Err(v) && v@ == e,
        },
{
    let from_ok = is_mailbox(from);
    let to_ok = is_mailbox(to);
    write_invite_email(from_ok, to_ok, from, to, invite_code, tenant_name)
}

/// How to speak to a mail server: TLS from the start on port 465, and a login where both a user
/// name and a password are given.
pub fn build_transport(port: u16, username: Option<&str>, password: Option<&str>) -> (r: SmtpPlan)
    ensures
        r.implicit_tls == (port == 465),
        match (opt_str(username), opt_str(password)) {
            (Some(u), Some(p)) => if u.len() > 0 && p.len() > 0 {
                r.login matches Some(l) && l@ == (SmtpLoginView { username: u, password: p })
            } else {
                r.login is None
            },
            _ => r.login is None,
        },
{
    let mut login: Option<SmtpLogin> = None;
    if let Some(u) = username {
        if let Some(p) = password {
            if !u.is_empty() && !p.is_empty() {
                login = Some(SmtpLogin { username: u.to_owned(), password: p.to_owned() });
            }
        }
    }
    SmtpPlan { implicit_tls: port == 465, login }
}

/// What to report of an email that was handed to the mail server, or that could not be.
pub fn send_result(to: &str, sent: Result<(), String>) -> (r: SendEmailResult)
    ensures
        r@ == match sent {
            Ok(_) => SendEmailResultView {
                status: "sent"@,
                message: "Invite email sent to "@ + to@,
            },
            Err(why) => mail_error(why@),
        },
{
    match sent {
        Ok(_) => SendEmailResult {
            status: "sent".to_owned(),
            message: cat("Invite email sent to ", to),
        },
        Err(why) => SendEmailResult { status: "error".to_owned(), message: why },
    }
}

/// The sender that has no mail server.
pub struct StubEmailSender {}

impl StubEmailSender {
    pub fn send_invite(
        &self,
        to: &str,
        invite_code: &str,
        tenant_name: &str,
    ) -> (r: SendEmailResult)
        ensures
            r@ == (SendEmailResultView {
                status: "not_configured"@,
                message: "SMTP is not configured. Save and enable an SMTP host, or share the invite code directly."@,
            }),
    {
        SendEmailResult {
            status: "not_configured".to_owned(),
            message: "SMTP is not configured. Save and enable an SMTP host, or share the invite code directly.".to_owned(),
        }
    }
}

/// The mail settings as shown.
pub open spec fn shown_smtp(row: Option<SmtpConfigRowView>) -> SmtpConfigDtoView {
    match row {
        Some(r) => SmtpConfigDtoView {
            host: r.host,
            port: r.port,
            username: r.username,
            has_password: r.password_encrypted is Some,
            from_address: r.from_address,
            enabled: r.enabled,
            updated_at: Some(r.updated_at),
        },
        None => SmtpConfigDtoView {
            host: None,
            port: None,
            username: None,
            has_password: false,
            from_address: None,
            enabled: false,
            updated_at: None,
        },
    }
}

/// The stored mail password, encrypted.
pub open spec fn sealed_password(st: OrgState) -> Option<Seq<char>> {
    match st.smtp {
        Some(r) => r.password_encrypted,
        None => None,
    }
}

/// The mail server that enabled settings name.
pub open spec fn smtp_route(row: Option<SmtpConfigRowView>) -> Option<(Seq<char>, u16)> {
    match row {
        Some(r) => match (r.host, r.port) {
            (Some(host), Some(port)) => if r.enabled && host.len() > 0 && 0 <= port <= 65535 {
                Some((host, port as u16))
            } else {
                None
            },
            _ => None,
        },
        None => None,
    }
}

/// What saving the mail server does and how it is answered.
pub open spec fn smtp_saved(
    before: OrgState,
    after: OrgState,
    host: Seq<char>,
    port: i64,
    username: Option<Seq<char>>,
    password: Option<Seq<char>>,
    sealed: Seq<char>,
    from_address: Seq<char>,
    enabled: bool,
    now: i64,
    d: SmtpConfigDtoView,
) -> bool {
    let row = SmtpConfigRowView {
        host: Some(host),
        port: Some(port),
        username,
        password_encrypted: kept_secret(password, sealed, sealed_password(before)),
        from_address: Some(from_address),
        enabled,
        updated_at: now,
    };
    &&& after == (OrgState { smtp: Some(row), ..before })
    &&& d == shown_smtp(Some(row))
}

impl OrgService {
    pub fn get_smtp_config(&self) -> (d: SmtpConfigDto)
        ensures
            d@ == shown_smtp(self@.smtp),
    {
        match &self.smtp {
            Some(r) => SmtpConfigDto {
                host: clone_opt(&r.host),
                port: r.port,
                username: clone_opt(&r.username),
                has_password: r.password_encrypted.is_some(),
                from_address: clone_opt(&r.from_address),
                enabled: r.enabled,
                updated_at: Some(r.updated_at),
            },
            None => SmtpConfigDto {
                host: None,
                port: None,
                username: None,
                has_password: false,
                from_address: None,
                enabled: false,
                updated_at: None,
            },
        }
    }

    /// The stored mail password, encrypted.
    pub fn smtp_password(&self) -> (r: Option<String>)
        ensures
            opt_text(r) == sealed_password(self@),
    {
        match &self.smtp {
            Some(row) => clone_opt(&row.password_encrypted),
            None => None,
        }
    }

    /// Sets the mail settings. `sealed` is the encrypted form of the password; without a password,
    /// or with an empty one, the stored password stays.
    pub fn set_smtp_config(
        &mut self,
        host: &str,
        port: i64,
        username: Option<&str>,
        password: Option<&str>,
        sealed: &str,
        from_address: &str,
        enabled: bool,
        now: i64,
    ) -> (d: SmtpConfigDto)
        ensures
            smtp_saved(
                old(self)@,
                final(self)@,
                host@,
                port,
                opt_str(username),
                opt_str(password),
                sealed@,
                from_address@,
                enabled,
                now,
                d@,
            ),
    {
        let stored = self.smtp_password();
        self.smtp = Some(
            SmtpConfigRow {
                host: Some(host.to_owned()),
                port: Some(port),
                username: own_opt(username),
                password_encrypted: keep_secret(password, sealed, stored),
                from_address: Some(from_address.to_owned()),
                enabled,
                updated_at: now,
            },
        );
        self.get_smtp_config()
    }

    /// The host and the port of the mail server to send through, where the settings are enabled and
    /// name one.
    pub fn smtp_server(&self) -> (r: Option<(String, u16)>)
        ensures
            match smtp_route(self@.smtp) {
                Some(route) => r matches Some(v) && v.0@ == route.0 && v.1 == route.1,
                None => r is None,
            },
    {
        match &self.smtp {
            Some(row) => match (&row.host, row.port) {
                (Some(host), Some(port)) => if row.enabled && !host.as_str().is_empty() && 0 <= port
                    && port <= 65535 {
                    Some((host.clone(), port as u16))
                } else {
                    None
                },
                _ => None,
            },
            None => None,
        }
    }

    /// What an invite email says: the invite's display code and the group's name.
    pub fn send_invite_email(&self, tenant_id: &str, invite_id: &str) -> (r: Result<
        (String, String),
        OrgError,
    >)
        ensures
            match first(self@.invites, invite_key(invite_id@, tenant_id@)) {
                None => r matches Err(e) && e@ == OrgErrorView::InvalidCode,
                Some(invite) => match tenant_named(self@, tenant_id@) {
                    None => r matches Err(e) && e@ == OrgErrorView::TenantNotFound,
                    Some(t) => r matches Ok(v) && v.0@ == display_code(invite.code) && v.1@
                        == t.name,
                },
            },
    {
        let f = |r: &InviteRow| -> (b: bool)
            ensures
                b == invite_key(invite_id@, tenant_id@)(r@),
            { same(r.id.as_str(), invite_id) && same(r.tenant_id.as_str(), tenant_id) };
        let at: usize = match find_where(
            &self.invites,
            f,
            Ghost(invite_key(invite_id@, tenant_id@)),
        ) {
            Some(i) => i,
            None => {
                return Err(OrgError::InvalidCode);
            },
        };
        match self.tenant_at(tenant_id) {
            Some(i) => Ok(
                (
                    format_invite_code_for_display(self.invites[at].code.as_str()),
                    self.tenants[i].name.clone(),
                ),
            ),
            None => Err(OrgError::TenantNotFound),
        }
    }
}

} // verus!
