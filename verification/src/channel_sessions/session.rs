//! The life of a setup session, whoever provides it.

use vstd::prelude::*;

use crate::channel_sessions::ilink_qr;
use crate::channel_sessions::ilink_qr::{begun, expired, expired_poll, filled_keys, show, shown};
use crate::channel_sessions::ilink_qr::{has_code, ttl, QrCodeReply};
use crate::channel_sessions::types::{ConfigView, ExtensionError, IlinkQrConfig, IlinkQrSession};
use crate::channel_sessions::types::{ResultView, SessionView, SetupSessionPoll};
use crate::channel_sessions::types::{SetupSessionResult, SetupSessionState};
use crate::text::{concat2, concat3, texts};
use crate::timestamp::{Timestamp, LAST_SECOND};

verus! {

/// Who provides a session.
#[derive(Clone, Copy, Debug, PartialEq, Eq, Structural)]
pub enum SetupSessionProvider {
    IlinkQr,
}

/// How an extension has its channel set up: the provider, and its configuration
/// or why that cannot be read.
#[derive(Debug, PartialEq)]
pub struct SetupSessionSchema {
    pub provider: SetupSessionProvider,
    pub config: Result<IlinkQrConfig, String>,
}

/// A session that has been started.
#[derive(Debug, PartialEq)]
pub struct PendingSetupSession {
    pub user_id: String,
    pub extension_name: String,
    pub expires_at: Timestamp,
    pub provider: PendingSetupProvider,
}

/// What the provider keeps of a session.
#[derive(Debug, PartialEq)]
pub enum PendingSetupProvider {
    IlinkQr(IlinkQrSession),
}

impl PendingSetupSession {
    /// The session and its provider agree on when it ends, at a point that has
    /// a date.
    pub open spec fn wf(self) -> bool {
        match self.provider {
            PendingSetupProvider::IlinkQr(s) => s.wf() && s.expires_at == self.expires_at,
        }
    }
}

/// The setting that keeps a value of the channel's configuration.
pub open spec fn runtime_config_key(name: Seq<char>, key: Seq<char>) -> Seq<char> {
    "extensions."@ + name + ".runtime_config."@ + key
}

/// The setting that keeps a value of a session's metadata.
pub open spec fn metadata_key(name: Seq<char>, key: Seq<char>) -> Seq<char> {
    "extensions."@ + name + ".setup_session."@ + key
}

/// The setting that keeps a value of the channel's configuration.
pub fn setup_session_runtime_config_setting_key(name: &str, config_key: &str) -> (r: String)
    ensures
        r@ == runtime_config_key(name@, config_key@),
{
    let head = concat3("extensions.", name, ".runtime_config.");
    concat2(head.as_str(), config_key)
}

/// The setting that keeps a value of a session's metadata.
pub fn setup_session_metadata_setting_key(name: &str, metadata_key: &str) -> (r: String)
    ensures
        r@ == self::metadata_key(name@, metadata_key@),
{
    let head = concat3("extensions.", name, ".setup_session.");
    concat2(head.as_str(), metadata_key)
}

/// The settings of an extension's configuration and of its metadata do not
/// clash, and different keys give different settings.
pub proof fn law_setting_keys_are_apart(name: Seq<char>, a: Seq<char>, b: Seq<char>)
    ensures
        runtime_config_key(name, a) != metadata_key(name, b),
        runtime_config_key(name, a) == runtime_config_key(name, b) ==> a == b,
        metadata_key(name, a) == metadata_key(name, b) ==> a == b,
{
    reveal_strlit("extensions.");
    reveal_strlit(".runtime_config.");
    reveal_strlit(".setup_session.");
    let n = 11 + name.len() as int;
    assert(runtime_config_key(name, a)[n + 1] == 'r');
    assert(metadata_key(name, b)[n + 1] == 's');
    assert(runtime_config_key(name, a).skip(n + 16) =~= a);
    assert(runtime_config_key(name, b).skip(n + 16) =~= b);
    assert(metadata_key(name, a).skip(n + 15) =~= a);
    assert(metadata_key(name, b).skip(n + 15) =~= b);
}

/// The error for a configuration that cannot be read.
pub open spec fn config_error(e: Seq<char>) -> Seq<char> {
    "Invalid iLink QR setup session provider config: "@ + e
}

/// The configuration of a schema.
pub open spec fn config_of(schema: SetupSessionSchema) -> Result<ConfigView, Seq<char>> {
    match schema.config {
        Ok(c) => Ok(c@),
        Err(e) => Err(config_error(e@)),
    }
}

/// The configuration of a schema, or the error where it cannot be read.
pub fn parse_config(schema: &SetupSessionSchema) -> (r: Result<&IlinkQrConfig, ExtensionError>)
    ensures
        match r {
            Ok(c) => config_of(*schema) == Ok::<ConfigView, Seq<char>>(c@),
            Err(e) => config_of(*schema) == Err::<ConfigView, Seq<char>>(e.says()),
        },
{
    match &schema.config {
        Ok(c) => Ok(c),
        Err(e) => Err(
            ExtensionError::Other(
                concat2("Invalid iLink QR setup session provider config: ", e.as_str()),
            ),
        ),
    }
}

/// What the outcome of a question for names is.
pub open spec fn names_outcome(r: Result<Vec<String>, ExtensionError>) -> Result<
    Seq<Seq<char>>,
    Seq<char>,
> {
    match r {
        Ok(v) => Ok(texts(v@)),
        Err(e) => Err(e.says()),
    }
}

/// The names of the secrets that a session ends with.
pub fn required_secret_names(schema: &SetupSessionSchema) -> (r: Result<
    Vec<String>,
    ExtensionError,
>)
    ensures
        names_outcome(r) == match config_of(*schema) {
            Ok(c) => Ok(seq![c.token_secret_name]),
            Err(e) => Err(e),
        },
{
    match schema.provider {
        SetupSessionProvider::IlinkQr => match parse_config(schema) {
            Ok(c) => Ok(ilink_qr::required_secret_names(c)),
            Err(e) => Err(e),
        },
    }
}

/// The keys of the channel's configuration that a session may write, in the
/// order in which its own configuration lists them.
pub fn runtime_config_keys(schema: &SetupSessionSchema) -> (r: Result<Vec<String>, ExtensionError>)
    ensures
        names_outcome(r) == match config_of(*schema) {
            Ok(c) => Ok(filled_keys(c.runtime_config_writes)),
            Err(e) => Err(e),
        },
{
    match schema.provider {
        SetupSessionProvider::IlinkQr => match parse_config(schema) {
            Ok(c) => Ok(ilink_qr::runtime_config_keys(c)),
            Err(e) => Err(e),
        },
    }
}

/// Whether a text has the form of a UUID: five groups of lower-case hexadecimal
/// digits with hyphens between them.
pub open spec fn is_uuid_text(s: Seq<char>) -> bool {
    &&& s.len() == 36
    &&& forall|i: int|
        0 <= i < 36 ==> if i == 8 || i == 13 || i == 18 || i == 23 {
            #[trigger] s[i] == '-'
        } else {
            '0' <= s[i] <= '9' || 'a' <= s[i] <= 'f'
        }
}

/// `uuid::Uuid::new_v4` and its `to_string`: a text in the form of a UUID, a
/// random one.
#[verifier::external_body]
fn random_uuid() -> (r: String)
    ensures
        is_uuid_text(r@),
{
    uuid::Uuid::new_v4().to_string()
}

/// A session that has been started, and what is shown of it.
pub open spec fn opened(
    session_id: Seq<char>,
    extension_name: Seq<char>,
    user_id: Seq<char>,
    config: ConfigView,
    base_url: Seq<char>,
    reply: QrCodeReply,
    now: Timestamp,
) -> Result<(Seq<char>, PendingView, ResultView), Seq<char>> {
    match begun(extension_name, session_id, config, base_url, reply, now) {
        Err(e) => Err(e),
        Ok((s, result)) => Ok(
            (
                session_id,
                PendingView { user_id, extension_name, expires_at: s.expires_at, ilink: s },
                result,
            ),
        ),
    }
}

/// What a session that has been started is.
pub struct PendingView {
    pub user_id: Seq<char>,
    pub extension_name: Seq<char>,
    pub expires_at: Timestamp,
    pub ilink: SessionView,
}

impl View for PendingSetupSession {
    type V = PendingView;

    open spec fn view(&self) -> PendingView {
        PendingView {
            user_id: self.user_id@,
            extension_name: self.extension_name@,
            expires_at: self.expires_at,
            ilink: match self.provider {
                PendingSetupProvider::IlinkQr(s) => s@,
            },
        }
    }
}

/// What the outcome of starting a session is.
pub open spec fn opened_outcome(
    r: Result<(String, PendingSetupSession, SetupSessionResult), ExtensionError>,
) -> Result<(Seq<char>, PendingView, ResultView), Seq<char>> {
    match r {
        Ok(p) => Ok((p.0@, p.1@, p.2@)),
        Err(e) => Err(e.says()),
    }
}

/// Starts the session that has the name `session_id`, given what came of asking
/// for a code.
pub fn open_setup_session(
    session_id: String,
    extension_name: &str,
    user_id: &str,
    config: IlinkQrConfig,
    base_url: String,
    reply: QrCodeReply,
    now: Timestamp,
) -> (r: Result<(String, PendingSetupSession, SetupSessionResult), ExtensionError>)
    requires
        has_code(reply) ==> now.in_calendar() && now.secs + ttl(config@) <= LAST_SECOND,
    ensures
        opened_outcome(r) == opened(
            session_id@,
            extension_name@,
            user_id@,
            config@,
            base_url@,
            reply,
            now,
        ),
        r matches Ok(p) ==> p.1.wf(),
{
    match ilink_qr::begin(extension_name, session_id.as_str(), config, base_url, reply, now) {
        Err(e) => Err(e),
        Ok((session, result)) => {
            let pending = PendingSetupSession {
                user_id: user_id.to_owned(),
                extension_name: extension_name.to_owned(),
                expires_at: session.expires_at,
                provider: PendingSetupProvider::IlinkQr(session),
            };
            Ok((session_id, pending, result))
        },
    }
}

/// Starts a session under a new name, given what came of asking for a code.
pub fn begin_setup_session(
    extension_name: &str,
    user_id: &str,
    config: IlinkQrConfig,
    base_url: String,
    reply: QrCodeReply,
    now: Timestamp,
) -> (r: Result<(String, PendingSetupSession, SetupSessionResult), ExtensionError>)
    requires
        has_code(reply) ==> now.in_calendar() && now.secs + ttl(config@) <= LAST_SECOND,
    ensures
        exists|id: Seq<char>|
            is_uuid_text(id) && opened_outcome(r) == #[trigger] opened(
                id,
                extension_name@,
                user_id@,
                config@,
                base_url@,
                reply,
                now,
            ),
        r matches Ok(p) ==> p.1.wf() && is_uuid_text(p.0@),
{
    let session_id = random_uuid();
    open_setup_session(session_id, extension_name, user_id, config, base_url, reply, now)
}

/// What is done to learn the state of a session.
#[derive(Debug, PartialEq)]
pub enum PollStep {
    /// Nothing: the session is over.
    Over(SetupSessionPoll),
    /// Its provider is asked.
    Ask,
}

/// Whether a session is over by the clock alone: its provider is then not asked.
pub fn poll_setup_session(session_id: &str, session: &PendingSetupSession, now: Timestamp) -> (r:
    PollStep)
    requires
        session.wf(),
    ensures
        match r {
            PollStep::Over(p) => now.reached(session.expires_at) && p@ == expired(
                session_id@,
                session.extension_name@,
                session.expires_at,
            ),
            PollStep::Ask => !now.reached(session.expires_at),
        },
{
    if now.is_at_or_after(&session.expires_at) {
        PollStep::Over(
            expired_poll(session_id, session.extension_name.as_str(), session.expires_at),
        )
    } else {
        PollStep::Ask
    }
}

/// What is shown of a session that was called off.
pub fn cancelled_result(session_id: &str, session: &PendingSetupSession) -> (r: SetupSessionResult)
    requires
        session.wf(),
    ensures
        r@ == shown(
            session_id@,
            session.extension_name@,
            SetupSessionState::Cancelled,
            None,
            session.expires_at,
            "Setup session cancelled."@,
        ),
{
    show(
        session_id,
        session.extension_name.as_str(),
        SetupSessionState::Cancelled,
        None,
        session.expires_at,
        "Setup session cancelled.".to_owned(),
    )
}

/// A session that starts is open until its time has passed: it is over from
/// the moment that it was told to end, and not before.
pub proof fn law_sessions_last_their_time(
    session_id: Seq<char>,
    extension_name: Seq<char>,
    user_id: Seq<char>,
    config: ConfigView,
    base_url: Seq<char>,
    reply: QrCodeReply,
    start: Timestamp,
    later: Timestamp,
)
    requires
        start.in_calendar(),
        start.secs + ttl(config) <= LAST_SECOND,
        opened(session_id, extension_name, user_id, config, base_url, reply, start) is Ok,
    ensures
        ({
            let s = opened(
                session_id,
                extension_name,
                user_id,
                config,
                base_url,
                reply,
                start,
            )->Ok_0.1;
            later.reached(s.expires_at) == (later.secs - start.secs > ttl(config) || (later.secs
                - start.secs == ttl(config) && later.nanos >= start.nanos))
        }),
{
}

/// A session that is opened is kept under the identifier that was drawn for it, for
/// the user and the extension that it was opened for, as long as its code is good.
pub proof fn law_opened_sessions_are_kept(
    id: Seq<char>,
    name: Seq<char>,
    user: Seq<char>,
    config: ConfigView,
    base_url: Seq<char>,
    reply: QrCodeReply,
    now: Timestamp,
)
    ensures
        match begun(name, id, config, base_url, reply, now) {
            Ok((s, r)) => {
                &&& opened(id, name, user, config, base_url, reply, now) matches Ok((kept, p, shown))
                &&& kept == id
                &&& p.user_id == user
                &&& p.extension_name == name
                &&& p.expires_at == s.expires_at
                &&& p.ilink == s
                &&& shown == r
            },
            Err(e) => opened(id, name, user, config, base_url, reply, now) == Err::<
                (Seq<char>, PendingView, ResultView),
                Seq<char>,
            >(e),
        },
{
}

/// What a session writes is kept under keys of its extension.
pub proof fn law_writes_are_kept_by_extension(name: Seq<char>, key: Seq<char>)
    ensures
        runtime_config_key(name, key) == "extensions."@ + name + ".runtime_config."@ + key,
        metadata_key(name, key) == "extensions."@ + name + ".setup_session."@ + key,
{
}

/// A session that is kept is seen as it is, and ends when its code does.
pub proof fn law_kept_sessions_are_seen_as_they_are(p: PendingSetupSession)
    ensures
        p@.user_id == p.user_id@,
        p@.extension_name == p.extension_name@,
        p@.expires_at == p.expires_at,
        p.provider matches PendingSetupProvider::IlinkQr(s) && p@.ilink == s@,
        p.wf() ==> p@.ilink.expires_at == p.expires_at && p.expires_at.in_calendar(),
{
}

/// A configuration is taken where it can be read, and otherwise the error says why it
/// cannot.
pub proof fn law_configurations_are_read(schema: SetupSessionSchema)
    ensures
        match schema.config {
            Ok(c) => config_of(schema) == Ok::<ConfigView, Seq<char>>(c@),
            Err(e) => config_of(schema) == Err::<ConfigView, Seq<char>>(
                "Invalid iLink QR setup session provider config: "@ + e@,
            ),
        },
{
}

} // verus!
