//! Sessions in which a code is scanned to log in to iLink.

use vstd::prelude::*;

use crate::channel_sessions::address::{base_url_of, base_url_to_check, bare_base};
use crate::channel_sessions::address::{normalize_setup_base_url, percent_encoded, url_encode};
use crate::channel_sessions::address::{url_of, verdict};
use crate::channel_sessions::types::{keys_apart, pair_views, poll_outcome, secret_views, CompletionView};
use crate::channel_sessions::types::{ConfigView, ExtensionError, IlinkQrCodeResponse};
use crate::channel_sessions::types::{IlinkQrCodeStatusResponse, IlinkQrConfig, IlinkQrSession};
use crate::channel_sessions::types::{PollView, ResultView, SessionView, SetupSessionCompletion};
use crate::channel_sessions::types::{SetupSessionPoll, SetupSessionResult, SetupSessionSecret};
use crate::channel_sessions::types::{said, SetupSessionState, StatusView};
use crate::json::{entries_view, entry, put, Json, JsonView};
use crate::text::{concat2, concat3, is_blank, opt_str, opt_text, same_text, texts, trim};
use crate::timestamp::{format_system_time, rfc3339, Timestamp, LAST_SECOND};

verus! {

/// How long a code is good, in seconds, unless the configuration says otherwise.
pub const DEFAULT_QR_SESSION_TTL_SECS: u64 = 480;

/// A text that is not blank.
pub open spec fn filled(o: Option<Seq<char>>) -> Option<Seq<char>> {
    match o {
        Some(s) => if trim(s).len() > 0 {
            Some(s)
        } else {
            None
        },
        None => None,
    }
}

/// The field of a report that a name stands for.
pub open spec fn field_of(status: StatusView, field: Seq<char>) -> Option<Seq<char>> {
    if field == "ilink_bot_id"@ {
        status.ilink_bot_id
    } else if field == "ilink_user_id"@ {
        status.ilink_user_id
    } else if field == "baseurl"@ {
        status.baseurl
    } else if field == "bot_token"@ {
        status.bot_token
    } else if field == "status"@ {
        Some(status.status)
    } else {
        None
    }
}

/// The state that the server's word for it means.
pub open spec fn state_of(status: Seq<char>) -> SetupSessionState {
    if status == "wait"@ {
        SetupSessionState::WaitingScan
    } else if status == "scaned"@ {
        SetupSessionState::Scanned
    } else if status == "confirmed"@ {
        SetupSessionState::Confirmed
    } else if status == "expired"@ {
        SetupSessionState::Expired
    } else {
        SetupSessionState::Failed
    }
}

/// The text, where it is not blank.
fn keep_filled<'a>(o: Option<&'a str>) -> (r: Option<&'a str>)
    ensures
        opt_str(r) == filled(opt_str(o)),
{
    match o {
        Some(s) => if is_blank(s) {
            None
        } else {
            Some(s)
        },
        None => None,
    }
}

fn as_str_opt<'a>(o: &'a Option<String>) -> (r: Option<&'a str>)
    ensures
        opt_str(r) == opt_text(*o),
{
    match o {
        Some(s) => Some(s.as_str()),
        None => None,
    }
}

/// The field of a report that a name stands for.
pub fn status_response_field<'a>(status: &'a IlinkQrCodeStatusResponse, field: &str) -> (r: Option<
    &'a str,
>)
    ensures
        opt_str(r) == field_of(status@, field@),
{
    if same_text(field, "ilink_bot_id") {
        as_str_opt(&status.ilink_bot_id)
    } else if same_text(field, "ilink_user_id") {
        as_str_opt(&status.ilink_user_id)
    } else if same_text(field, "baseurl") {
        as_str_opt(&status.baseurl)
    } else if same_text(field, "bot_token") {
        as_str_opt(&status.bot_token)
    } else if same_text(field, "status") {
        Some(status.status.as_str())
    } else {
        None
    }
}

/// The state that the server's word for it means.
pub fn ilink_qr_setup_state(status: &str) -> (r: SetupSessionState)
    ensures
        r == state_of(status@),
{
    if same_text(status, "wait") {
        SetupSessionState::WaitingScan
    } else if same_text(status, "scaned") {
        SetupSessionState::Scanned
    } else if same_text(status, "confirmed") {
        SetupSessionState::Confirmed
    } else if same_text(status, "expired") {
        SetupSessionState::Expired
    } else {
        SetupSessionState::Failed
    }
}

/// The keys of the writes, without the blank ones.
pub open spec fn filled_keys(writes: Seq<(Seq<char>, Seq<char>)>) -> Seq<Seq<char>>
    decreases writes.len(),
{
    if writes.len() == 0 {
        seq![]
    } else {
        let front = filled_keys(writes.drop_last());
        if trim(writes.last().0).len() > 0 {
            front.push(writes.last().0)
        } else {
            front
        }
    }
}

/// The names of the secrets that a session ends with.
pub fn required_secret_names(config: &IlinkQrConfig) -> (r: Vec<String>)
    ensures
        texts(r@) == seq![config@.token_secret_name],
{
    let mut out: Vec<String> = Vec::new();
    out.push(config.token_secret_name.clone());
    assert(texts(out@) =~= seq![config@.token_secret_name]);
    out
}

/// The keys of the channel's configuration that a session may write.
pub fn runtime_config_keys(config: &IlinkQrConfig) -> (r: Vec<String>)
    ensures
        texts(r@) == filled_keys(config@.runtime_config_writes),
{
    let ghost all = config@.runtime_config_writes;
    let mut out: Vec<String> = Vec::new();
    let mut i: usize = 0;
    assert(texts(out@) =~= filled_keys(all.take(0)));
    while i < config.runtime_config_writes.len()
        invariant
            i <= config.runtime_config_writes@.len(),
            all == pair_views(config.runtime_config_writes@),
            texts(out@) == filled_keys(all.take(i as int)),
        decreases config.runtime_config_writes@.len() - i,
    {
        let key = &config.runtime_config_writes[i].0;
        assert(all.take(i + 1).drop_last() == all.take(i as int));
        assert(all.take(i + 1).last().0 == key@);
        if !is_blank(key.as_str()) {
            let ghost before = out@;
            out.push(key.clone());
            assert(texts(out@) =~= texts(before).push(key@));
        }
        i += 1;
    }
    assert(all.take(all.len() as int) == all);
    out
}

/// The value that the channel's configuration has under `key`, or else `other`.
pub open spec fn configured(
    channel: Map<Seq<char>, JsonView>,
    key: Seq<char>,
    other: Option<Seq<char>>,
) -> Option<Seq<char>> {
    match JsonView::Object(channel).str_at(key) {
        Some(s) => Some(s),
        None => other,
    }
}

/// The key of the base address.
pub open spec fn base_url_key(config: ConfigView) -> Seq<char> {
    match config.base_url_config_key {
        Some(k) => k,
        None => "base_url"@,
    }
}

/// The key of the bot's type.
pub open spec fn bot_type_key(config: ConfigView) -> Seq<char> {
    match config.bot_type_config_key {
        Some(k) => k,
        None => "bot_type"@,
    }
}

/// The base address that a session is to use.
pub open spec fn chosen_base(
    extension_name: Seq<char>,
    channel: Map<Seq<char>, JsonView>,
    config: ConfigView,
) -> Result<Seq<char>, Seq<char>> {
    match configured(channel, base_url_key(config), config.default_base_url) {
        Some(s) => Ok(s),
        None => Err(
            "Interactive setup for '"@ + extension_name + "' is missing a base URL"@,
        ),
    }
}

/// What is asked for to get a code.
pub open spec fn code_request(channel: Map<Seq<char>, JsonView>, config: ConfigView) -> Seq<char> {
    let bot_type = match configured(channel, bot_type_key(config), config.default_bot_type) {
        Some(s) => s,
        None => "3"@,
    };
    "ilink/bot/get_bot_qrcode?bot_type="@ + percent_encoded(bot_type)
}

/// What is asked for to learn what became of a code.
pub open spec fn status_request(session: SessionView) -> Seq<char> {
    "ilink/bot/get_qrcode_status?qrcode="@ + percent_encoded(session.qrcode)
}

fn lookup<'a>(channel: &'a Vec<(String, Json)>, key: &str, other: Option<&'a str>) -> (r: Option<
    &'a str,
>)
    ensures
        opt_str(r) == configured(entries_view(channel@), key@, opt_str(other)),
{
    match entry(channel, key) {
        Some(v) => match v.as_str() {
            Some(s) => Some(s),
            None => other,
        },
        None => other,
    }
}

/// The base address that a session is to use.
pub fn choose_base_url(
    extension_name: &str,
    channel_config: &Vec<(String, Json)>,
    config: &IlinkQrConfig,
) -> (r: Result<String, ExtensionError>)
    ensures
        said(r) == chosen_base(extension_name@, entries_view(channel_config@), config@),
{
    let key = match &config.base_url_config_key {
        Some(k) => k.as_str(),
        None => "base_url",
    };
    match lookup(channel_config, key, as_str_opt(&config.default_base_url)) {
        Some(s) => Ok(s.to_owned()),
        None => Err(
            ExtensionError::Other(
                concat3("Interactive setup for '", extension_name, "' is missing a base URL"),
            ),
        ),
    }
}

/// What is asked for to get a code.
pub fn qr_code_request(channel_config: &Vec<(String, Json)>, config: &IlinkQrConfig) -> (r: String)
    ensures
        r@ == code_request(entries_view(channel_config@), config@),
{
    let key = match &config.bot_type_config_key {
        Some(k) => k.as_str(),
        None => "bot_type",
    };
    let bot_type = match lookup(channel_config, key, as_str_opt(&config.default_bot_type)) {
        Some(s) => s,
        None => "3",
    };
    let encoded = url_encode(bot_type);
    concat2("ilink/bot/get_bot_qrcode?bot_type=", encoded.as_str())
}

/// What is asked for to learn what became of a code.
pub fn qr_status_request(session: &IlinkQrSession) -> (r: String)
    ensures
        r@ == status_request(session@),
{
    let encoded = url_encode(session.qrcode.as_str());
    concat2("ilink/bot/get_qrcode_status?qrcode=", encoded.as_str())
}

/// What came of asking for a code.
#[derive(Debug, PartialEq)]
pub enum QrCodeReply {
    /// There was no client to ask with.
    NoClient(String),
    /// The request failed.
    NotSent,
    /// The server refused, with this status.
    Refused(String),
    /// The answer could not be read.
    Unreadable,
    Code(IlinkQrCodeResponse),
}

/// Whether a reply carries a code.
pub open spec fn has_code(reply: QrCodeReply) -> bool {
    reply matches QrCodeReply::Code(qr) && trim(qr.qrcode@).len() > 0 && trim(
        qr.qrcode_img_content@,
    ).len() > 0
}

/// Whether a reply carries a code.
pub fn carries_code(reply: &QrCodeReply) -> (r: bool)
    ensures
        r == has_code(*reply),
{
    match reply {
        QrCodeReply::Code(qr) => !is_blank(qr.qrcode.as_str()) && !is_blank(
            qr.qrcode_img_content.as_str(),
        ),
        _ => false,
    }
}

/// A session at its start, and what is shown of it.
pub open spec fn begun(
    extension_name: Seq<char>,
    session_id: Seq<char>,
    config: ConfigView,
    base_url: Seq<char>,
    reply: QrCodeReply,
    now: Timestamp,
) -> Result<(SessionView, ResultView), Seq<char>> {
    match reply {
        QrCodeReply::NoClient(e) => Err(e@),
        QrCodeReply::NotSent => Err("iLink QR setup request failed"@),
        QrCodeReply::Refused(status) => Err("iLink QR setup request returned "@ + status@),
        QrCodeReply::Unreadable => Err("Failed to parse iLink QR setup response"@),
        QrCodeReply::Code(qr) => if trim(qr.qrcode@).len() == 0 || trim(
            qr.qrcode_img_content@,
        ).len() == 0 {
            Err("iLink QR setup response did not include a QR code"@)
        } else {
            let expires_at = Timestamp { secs: (now.secs + ttl(config)) as i64, nanos: now.nanos };
            Ok(
                (
                    SessionView {
                        expires_at,
                        config,
                        qrcode: qr.qrcode@,
                        qr_image_url: qr.qrcode_img_content@,
                        base_url,
                    },
                    ResultView {
                        session_id,
                        extension_name,
                        state: SetupSessionState::QrRequired,
                        qr_image_url: Some(qr.qrcode_img_content@),
                        expires_at: Some(rfc3339(expires_at.secs, expires_at.nanos)),
                        message: Some("Scan this QR code to continue to connect the channel."@),
                        account_id: None,
                    },
                ),
            )
        },
    }
}

/// How long a session's code is good, in seconds.
pub open spec fn ttl(config: ConfigView) -> int {
    match config.ttl_secs {
        Some(t) => t as int,
        None => DEFAULT_QR_SESSION_TTL_SECS as int,
    }
}

/// What the outcome of starting a session is.
pub open spec fn begin_outcome(
    r: Result<(IlinkQrSession, SetupSessionResult), ExtensionError>,
) -> Result<(SessionView, ResultView), Seq<char>> {
    match r {
        Ok(p) => Ok((p.0@, p.1@)),
        Err(e) => Err(e.says()),
    }
}

/// A session at its start, and what is shown of it, given what came of asking
/// for a code. A session that starts must end at a point that has a date.
pub fn begin(
    extension_name: &str,
    session_id: &str,
    config: IlinkQrConfig,
    base_url: String,
    reply: QrCodeReply,
    now: Timestamp,
) -> (r: Result<(IlinkQrSession, SetupSessionResult), ExtensionError>)
    requires
        has_code(reply) ==> now.in_calendar() && now.secs + ttl(config@) <= LAST_SECOND,
    ensures
        begin_outcome(r) == begun(extension_name@, session_id@, config@, base_url@, reply, now),
        r matches Ok(p) ==> p.0.wf(),
{
    let qr = match reply {
        QrCodeReply::NoClient(e) => {
            return Err(ExtensionError::Other(e));
        },
        QrCodeReply::NotSent => {
            return Err(ExtensionError::Other("iLink QR setup request failed".to_owned()));
        },
        QrCodeReply::Refused(status) => {
            return Err(
                ExtensionError::Other(
                    concat2("iLink QR setup request returned ", status.as_str()),
                ),
            );
        },
        QrCodeReply::Unreadable => {
            return Err(
                ExtensionError::Other("Failed to parse iLink QR setup response".to_owned()),
            );
        },
        QrCodeReply::Code(qr) => qr,
    };
    if is_blank(qr.qrcode.as_str()) || is_blank(qr.qrcode_img_content.as_str()) {
        return Err(
            ExtensionError::Other(
                "iLink QR setup response did not include a QR code".to_owned(),
            ),
        );
    }
    let ttl_secs: u64 = match config.ttl_secs {
        Some(t) => t,
        None => DEFAULT_QR_SESSION_TTL_SECS,
    };
    let end: i128 = now.secs as i128 + ttl_secs as i128;
    let expires_at = Timestamp { secs: end as i64, nanos: now.nanos };
    let result = SetupSessionResult {
        session_id: session_id.to_owned(),
        extension_name: extension_name.to_owned(),
        state: SetupSessionState::QrRequired,
        qr_image_url: Some(qr.qrcode_img_content.clone()),
        expires_at: Some(format_system_time(expires_at)),
        message: Some("Scan this QR code to continue to connect the channel.".to_owned()),
        account_id: None,
    };
    let session = IlinkQrSession {
        expires_at,
        config,
        qrcode: qr.qrcode,
        qr_image_url: qr.qrcode_img_content,
        base_url,
    };
    Ok((session, result))
}

/// What came of asking what became of a code.
#[derive(Debug, PartialEq)]
pub enum QrStatusReply {
    /// There was no client to ask with.
    NoClient(String),
    /// The request failed.
    NotSent,
    /// The server refused, with this status.
    Refused(String),
    /// The answer could not be read.
    Unreadable,
    Status(IlinkQrCodeStatusResponse),
}

/// A session as it is shown: with a state, a message, and when it ends.
pub open spec fn shown(
    session_id: Seq<char>,
    extension_name: Seq<char>,
    state: SetupSessionState,
    qr_image_url: Option<Seq<char>>,
    expires_at: Timestamp,
    message: Seq<char>,
) -> ResultView {
    ResultView {
        session_id,
        extension_name,
        state,
        qr_image_url,
        expires_at: Some(rfc3339(expires_at.secs, expires_at.nanos)),
        message: Some(message),
        account_id: None,
    }
}

/// A session as it is shown.
pub fn show(
    session_id: &str,
    extension_name: &str,
    state: SetupSessionState,
    qr_image_url: Option<String>,
    expires_at: Timestamp,
    message: String,
) -> (r: SetupSessionResult)
    requires
        expires_at.in_calendar(),
    ensures
        r@ == shown(
            session_id@,
            extension_name@,
            state,
            opt_text(qr_image_url),
            expires_at,
            message@,
        ),
{
    SetupSessionResult {
        session_id: session_id.to_owned(),
        extension_name: extension_name.to_owned(),
        state,
        qr_image_url,
        expires_at: Some(format_system_time(expires_at)),
        message: Some(message),
        account_id: None,
    }
}

/// What the writes put into the channel's configuration: the fields that the
/// report has and that are not blank, a base address only if it may be asked.
pub open spec fn runtime_entries(
    writes: Seq<(Seq<char>, Seq<char>)>,
    status: StatusView,
    guard: Result<(), Seq<char>>,
) -> Result<Map<Seq<char>, JsonView>, Seq<char>>
    decreases writes.len(),
{
    if writes.len() == 0 {
        Ok(Map::empty())
    } else {
        let (key, field) = writes.last();
        match runtime_entries(writes.drop_last(), status, guard) {
            Err(e) => Err(e),
            Ok(m) => match filled(field_of(status, field)) {
                None => Ok(m),
                Some(v) => if field == "baseurl"@ {
                    match base_url_of(v, guard) {
                        Ok(u) => Ok(m.insert(key, JsonView::Text(u))),
                        Err(e) => Err(e),
                    }
                } else {
                    Ok(m.insert(key, JsonView::Text(v)))
                },
            },
        }
    }
}

/// What the writes put into a session's metadata: the fields that the report has
/// and that are not blank.
pub open spec fn metadata_entries(writes: Seq<(Seq<char>, Seq<char>)>, status: StatusView) -> Map<
    Seq<char>,
    JsonView,
>
    decreases writes.len(),
{
    if writes.len() == 0 {
        Map::empty()
    } else {
        let (key, field) = writes.last();
        let m = metadata_entries(writes.drop_last(), status);
        match filled(field_of(status, field)) {
            None => m,
            Some(v) => m.insert(key, JsonView::Text(v)),
        }
    }
}

/// What becomes of a session whose login has been confirmed.
pub open spec fn confirmed(
    session_id: Seq<char>,
    extension_name: Seq<char>,
    session: SessionView,
    status: StatusView,
    guard: Result<(), Seq<char>>,
) -> Result<PollView, Seq<char>> {
    match filled(status.bot_token) {
        None => Err("iLink login confirmed but server did not return a bot token"@),
        Some(token) => match runtime_entries(session.config.runtime_config_writes, status, guard) {
            Err(e) => Err(e),
            Ok(runtime_config) => Ok(
                PollView {
                    result: ResultView {
                        session_id,
                        extension_name,
                        state: SetupSessionState::Ready,
                        qr_image_url: None,
                        expires_at: None,
                        message: Some("Channel connected."@),
                        account_id: status.ilink_bot_id,
                    },
                    completion: Some(
                        CompletionView {
                            secrets: seq![(session.config.token_secret_name, token)],
                            runtime_config,
                            metadata: metadata_entries(session.config.metadata_writes, status),
                        },
                    ),
                    remove_session: true,
                },
            ),
        },
    }
}

/// What becomes of a session, given what the server reports of its code.
pub open spec fn reported(
    session_id: Seq<char>,
    extension_name: Seq<char>,
    session: SessionView,
    status: StatusView,
    guard: Result<(), Seq<char>>,
) -> Result<PollView, Seq<char>> {
    let state = state_of(status.status);
    match state {
        SetupSessionState::WaitingScan | SetupSessionState::Scanned => Ok(
            PollView {
                result: shown(
                    session_id,
                    extension_name,
                    state,
                    Some(session.qr_image_url),
                    session.expires_at,
                    if state == SetupSessionState::Scanned {
                        "QR code scanned. Confirm login to continue."@
                    } else {
                        "Waiting for QR scan."@
                    },
                ),
                completion: None,
                remove_session: false,
            },
        ),
        SetupSessionState::Expired => Ok(
            expired(session_id, extension_name, session.expires_at),
        ),
        SetupSessionState::Confirmed => confirmed(
            session_id,
            extension_name,
            session,
            status,
            guard,
        ),
        _ => Ok(
            PollView {
                result: shown(
                    session_id,
                    extension_name,
                    SetupSessionState::Failed,
                    None,
                    session.expires_at,
                    "Unexpected iLink QR status: "@ + status.status,
                ),
                completion: None,
                remove_session: true,
            },
        ),
    }
}

/// What becomes of a session whose code is no longer good.
pub open spec fn expired(
    session_id: Seq<char>,
    extension_name: Seq<char>,
    expires_at: Timestamp,
) -> PollView {
    PollView {
        result: shown(
            session_id,
            extension_name,
            SetupSessionState::Expired,
            None,
            expires_at,
            "QR code expired. Start a new setup session."@,
        ),
        completion: None,
        remove_session: true,
    }
}

/// What becomes of a session, given what came of asking for its state.
pub open spec fn polled(
    session_id: Seq<char>,
    extension_name: Seq<char>,
    session: SessionView,
    reply: QrStatusReply,
    guard: Result<(), Seq<char>>,
) -> Result<PollView, Seq<char>> {
    match reply {
        QrStatusReply::NoClient(e) => Err(e@),
        QrStatusReply::NotSent => Err("iLink QR status request failed"@),
        QrStatusReply::Refused(status) => Err("iLink QR status request returned "@ + status@),
        QrStatusReply::Unreadable => Err("Failed to parse iLink QR status response"@),
        QrStatusReply::Status(status) => reported(
            session_id,
            extension_name,
            session,
            status@,
            guard,
        ),
    }
}

/// A session whose code is no longer good.
pub fn expired_poll(session_id: &str, extension_name: &str, expires_at: Timestamp) -> (r:
    SetupSessionPoll)
    requires
        expires_at.in_calendar(),
    ensures
        r@ == expired(session_id@, extension_name@, expires_at),
{
    SetupSessionPoll {
        result: show(
            session_id,
            extension_name,
            SetupSessionState::Expired,
            None,
            expires_at,
            "QR code expired. Start a new setup session.".to_owned(),
        ),
        completion: None,
        remove_session: true,
    }
}

/// The address that the guard is asked about before `poll`: the base address
/// that a confirmed login names. There is none where nothing uses it, or where
/// it is no address.
pub fn poll_url_to_check(session: &IlinkQrSession, reply: &QrStatusReply) -> (r: Option<String>)
    ensures
        opt_text(r) == match reply {
            QrStatusReply::Status(status) => match filled(status@.baseurl) {
                Some(v) => if state_of(status@.status) == SetupSessionState::Confirmed && filled(
                    status@.bot_token,
                ) is Some && uses_base_url(session@.config.runtime_config_writes) {
                    match url_of(bare_base(v)) {
                        Ok(u) => Some(u.text),
                        Err(_) => None,
                    }
                } else {
                    None
                },
                None => None,
            },
            _ => None,
        },
{
    let status = match reply {
        QrStatusReply::Status(s) => s,
        _ => {
            return None;
        },
    };
    let base = match keep_filled(as_str_opt(&status.baseurl)) {
        Some(v) => v,
        None => {
            return None;
        },
    };
    let state = ilink_qr_setup_state(status.status.as_str());
    if state != SetupSessionState::Confirmed || keep_filled(
        as_str_opt(&status.bot_token),
    ).is_none() {
        return None;
    }
    if !names_base_url(&session.config.runtime_config_writes) {
        return None;
    }
    match base_url_to_check(base) {
        Ok(t) => Some(t),
        Err(_) => None,
    }
}

/// Whether one of the writes takes the base address.
pub open spec fn uses_base_url(writes: Seq<(Seq<char>, Seq<char>)>) -> bool {
    exists|i: int| 0 <= i < writes.len() && (#[trigger] writes[i]).1 == "baseurl"@
}

fn names_base_url(writes: &Vec<(String, String)>) -> (r: bool)
    ensures
        r == uses_base_url(pair_views(writes@)),
{
    let ghost all = pair_views(writes@);
    let mut i: usize = 0;
    while i < writes.len()
        invariant
            i <= writes@.len(),
            all == pair_views(writes@),
            forall|j: int| 0 <= j < i ==> (#[trigger] all[j]).1 != "baseurl"@,
        decreases writes@.len() - i,
    {
        assert(all[i as int].1 == writes@[i as int].1@);
        if same_text(writes[i].1.as_str(), "baseurl") {
            return true;
        }
        i += 1;
    }
    false
}

/// What becomes of a session, given what came of asking for its state and what
/// the guard says of the base address in the report.
pub fn poll(
    session_id: &str,
    extension_name: &str,
    session: &IlinkQrSession,
    reply: QrStatusReply,
    guard: Result<(), String>,
) -> (r: Result<SetupSessionPoll, ExtensionError>)
    requires
        session.wf(),
    ensures
        poll_outcome(r) == polled(
            session_id@,
            extension_name@,
            session@,
            reply,
            verdict(guard),
        ),
{
    let status = match reply {
        QrStatusReply::NoClient(e) => {
            return Err(ExtensionError::Other(e));
        },
        QrStatusReply::NotSent => {
            return Err(ExtensionError::Other("iLink QR status request failed".to_owned()));
        },
        QrStatusReply::Refused(status) => {
            return Err(
                ExtensionError::Other(
                    concat2("iLink QR status request returned ", status.as_str()),
                ),
            );
        },
        QrStatusReply::Unreadable => {
            return Err(
                ExtensionError::Other("Failed to parse iLink QR status response".to_owned()),
            );
        },
        QrStatusReply::Status(status) => status,
    };
    let state = ilink_qr_setup_state(status.status.as_str());
    match state {
        SetupSessionState::WaitingScan | SetupSessionState::Scanned => {
            let message = if state == SetupSessionState::Scanned {
                "QR code scanned. Confirm login to continue."
            } else {
                "Waiting for QR scan."
            };
            Ok(
                SetupSessionPoll {
                    result: show(
                        session_id,
                        extension_name,
                        state,
                        Some(session.qr_image_url.clone()),
                        session.expires_at,
                        message.to_owned(),
                    ),
                    completion: None,
                    remove_session: false,
                },
            )
        },
        SetupSessionState::Expired => Ok(
            expired_poll(session_id, extension_name, session.expires_at),
        ),
        SetupSessionState::Confirmed => confirmed_result(
            session_id,
            extension_name,
            session,
            status,
            guard,
        ),
        _ => Ok(
            SetupSessionPoll {
                result: show(
                    session_id,
                    extension_name,
                    SetupSessionState::Failed,
                    None,
                    session.expires_at,
                    concat2("Unexpected iLink QR status: ", status.status.as_str()),
                ),
                completion: None,
                remove_session: true,
            },
        ),
    }
}

fn copy_verdict(guard: &Result<(), String>) -> (r: Result<(), String>)
    ensures
        verdict(r) == verdict(*guard),
{
    match guard {
        Ok(_) => Ok(()),
        Err(e) => Err(e.clone()),
    }
}

/// What the outcome of the writes is.
pub open spec fn entries_outcome(r: Result<Vec<(String, Json)>, ExtensionError>) -> Result<
    Map<Seq<char>, JsonView>,
    Seq<char>,
> {
    match r {
        Ok(v) => Ok(entries_view(v@)),
        Err(e) => Err(e.says()),
    }
}

proof fn lemma_runtime_failure(
    writes: Seq<(Seq<char>, Seq<char>)>,
    n: int,
    status: StatusView,
    guard: Result<(), Seq<char>>,
)
    requires
        0 <= n <= writes.len(),
        runtime_entries(writes.take(n), status, guard) is Err,
    ensures
        runtime_entries(writes, status, guard) == runtime_entries(writes.take(n), status, guard),
    decreases writes.len(),
{
    if n < writes.len() {
        assert(writes.drop_last().take(n) =~= writes.take(n));
        lemma_runtime_failure(writes.drop_last(), n, status, guard);
    } else {
        assert(writes.take(n) =~= writes);
    }
}

/// What the writes put into the channel's configuration.
fn runtime_writes(
    writes: &Vec<(String, String)>,
    status: &IlinkQrCodeStatusResponse,
    guard: &Result<(), String>,
) -> (r: Result<Vec<(String, Json)>, ExtensionError>)
    ensures
        entries_outcome(r) == runtime_entries(pair_views(writes@), status@, verdict(*guard)),
{
    let ghost all = pair_views(writes@);
    let mut out: Vec<(String, Json)> = Vec::new();
    let mut i: usize = 0;
    while i < writes.len()
        invariant
            i <= writes@.len(),
            all == pair_views(writes@),
            runtime_entries(all.take(i as int), status@, verdict(*guard)) == Ok::<
                Map<Seq<char>, JsonView>,
                Seq<char>,
            >(entries_view(out@)),
        decreases writes@.len() - i,
    {
        let key = &writes[i].0;
        let field = &writes[i].1;
        assert(all.take(i + 1).drop_last() == all.take(i as int));
        assert(all.take(i + 1).last() == (key@, field@));
        if let Some(v) = keep_filled(status_response_field(status, field.as_str())) {
            if same_text(field.as_str(), "baseurl") {
                match normalize_setup_base_url(v, copy_verdict(guard)) {
                    Ok(u) => {
                        put(&mut out, key.as_str(), Json::Text(u));
                    },
                    Err(e) => {
                        proof {
                            lemma_runtime_failure(all, i + 1, status@, verdict(*guard));
                        }
                        return Err(e);
                    },
                }
            } else {
                put(&mut out, key.as_str(), Json::text(v));
            }
        }
        i += 1;
    }
    assert(all.take(all.len() as int) == all);
    Ok(out)
}

/// What the writes put into a session's metadata.
fn metadata_writes(writes: &Vec<(String, String)>, status: &IlinkQrCodeStatusResponse) -> (r: Vec<
    (String, Json),
>)
    ensures
        entries_view(r@) == metadata_entries(pair_views(writes@), status@),
{
    let ghost all = pair_views(writes@);
    let mut out: Vec<(String, Json)> = Vec::new();
    let mut i: usize = 0;
    while i < writes.len()
        invariant
            i <= writes@.len(),
            all == pair_views(writes@),
            metadata_entries(all.take(i as int), status@) == entries_view(out@),
        decreases writes@.len() - i,
    {
        let key = &writes[i].0;
        let field = &writes[i].1;
        assert(all.take(i + 1).drop_last() == all.take(i as int));
        assert(all.take(i + 1).last() == (key@, field@));
        if let Some(v) = keep_filled(status_response_field(status, field.as_str())) {
            put(&mut out, key.as_str(), Json::text(v));
        }
        i += 1;
    }
    assert(all.take(all.len() as int) == all);
    out
}

/// What becomes of a session whose login has been confirmed.
pub fn confirmed_result(
    session_id: &str,
    extension_name: &str,
    session: &IlinkQrSession,
    status: IlinkQrCodeStatusResponse,
    guard: Result<(), String>,
) -> (r: Result<SetupSessionPoll, ExtensionError>)
    ensures
        poll_outcome(r) == confirmed(
            session_id@,
            extension_name@,
            session@,
            status@,
            verdict(guard),
        ),
{
    let token = match keep_filled(as_str_opt(&status.bot_token)) {
        Some(t) => t.to_owned(),
        None => {
            return Err(
                ExtensionError::Other(
                    "iLink login confirmed but server did not return a bot token".to_owned(),
                ),
            );
        },
    };
    let mut completion = SetupSessionCompletion::default();
    completion.secrets.push(
        SetupSessionSecret { name: session.config.token_secret_name.clone(), value: token },
    );
    completion.runtime_config = match runtime_writes(
        &session.config.runtime_config_writes,
        &status,
        &guard,
    ) {
        Ok(entries) => entries,
        Err(e) => {
            return Err(e);
        },
    };
    completion.metadata = metadata_writes(&session.config.metadata_writes, &status);
    assert(secret_views(completion.secrets@) =~= seq![
        (session@.config.token_secret_name, filled(status@.bot_token)->0),
    ]);
    Ok(
        SetupSessionPoll {
            result: SetupSessionResult {
                session_id: session_id.to_owned(),
                extension_name: extension_name.to_owned(),
                state: SetupSessionState::Ready,
                qr_image_url: None,
                expires_at: None,
                message: Some("Channel connected.".to_owned()),
                account_id: status.ilink_bot_id,
            },
            completion: Some(completion),
            remove_session: true,
        },
    )
}

/// A session is over exactly when it is no longer waiting for its code, and it
/// ends with something exactly when its channel is connected: one secret, not
/// blank, under the name that the configuration gives.
pub proof fn law_sessions_end_with_one_secret_or_none(
    session_id: Seq<char>,
    extension_name: Seq<char>,
    session: SessionView,
    reply: QrStatusReply,
    guard: Result<(), Seq<char>>,
)
    requires
        polled(session_id, extension_name, session, reply, guard) is Ok,
    ensures
        ({
            let p = polled(session_id, extension_name, session, reply, guard)->Ok_0;
            let waiting = p.result.state == SetupSessionState::WaitingScan || p.result.state
                == SetupSessionState::Scanned;
            &&& p.remove_session == !waiting
            &&& waiting == (p.result.qr_image_url is Some)
            &&& p.completion is Some == (p.result.state == SetupSessionState::Ready)
            &&& p.completion matches Some(c) ==> c.secrets.len() == 1 && c.secrets[0].0
                == session.config.token_secret_name && trim(c.secrets[0].1).len() > 0
        }),
{
}

/// Whether every value of a map is a text that is not blank.
pub open spec fn all_filled(m: Map<Seq<char>, JsonView>) -> bool {
    forall|k: Seq<char>|
        m.dom().contains(k) ==> ((#[trigger] m[k]) matches JsonView::Text(s) && trim(s).len() > 0)
}

/// The metadata that a session writes holds texts only, none of them blank,
/// and only under keys that the configuration names.
pub proof fn law_metadata_is_filled(writes: Seq<(Seq<char>, Seq<char>)>, status: StatusView)
    ensures
        all_filled(metadata_entries(writes, status)),
        forall|k: Seq<char>|
            #[trigger] metadata_entries(writes, status).dom().contains(k) ==> exists|i: int|
                0 <= i < writes.len() && (#[trigger] writes[i]).0 == k,
    decreases writes.len(),
{
    if writes.len() > 0 {
        law_metadata_is_filled(writes.drop_last(), status);
        let front = writes.drop_last();
        assert forall|k: Seq<char>| #[trigger]
            metadata_entries(writes, status).dom().contains(k) implies exists|i: int|
            0 <= i < writes.len() && (#[trigger] writes[i]).0 == k by {
            if metadata_entries(front, status).dom().contains(k) {
                let i = choose|i: int| 0 <= i < front.len() && (#[trigger] front[i]).0 == k;
                assert(writes[i].0 == k);
            } else {
                assert(writes[writes.len() - 1].0 == k);
            }
        }
    }
}

/// A session writes the channel's configuration only under keys that its own
/// configuration names.
pub proof fn law_runtime_keys_are_declared(
    writes: Seq<(Seq<char>, Seq<char>)>,
    status: StatusView,
    guard: Result<(), Seq<char>>,
)
    requires
        runtime_entries(writes, status, guard) is Ok,
    ensures
        forall|k: Seq<char>| #[trigger]
            runtime_entries(writes, status, guard)->Ok_0.dom().contains(k) ==> exists|i: int|
                0 <= i < writes.len() && (#[trigger] writes[i]).0 == k,
    decreases writes.len(),
{
    if writes.len() > 0 {
        let front = writes.drop_last();
        law_runtime_keys_are_declared(front, status, guard);
        assert forall|k: Seq<char>| #[trigger]
            runtime_entries(writes, status, guard)->Ok_0.dom().contains(k) implies exists|i: int|
            0 <= i < writes.len() && (#[trigger] writes[i]).0 == k by {
            if runtime_entries(front, status, guard)->Ok_0.dom().contains(k) {
                let i = choose|i: int| 0 <= i < front.len() && (#[trigger] front[i]).0 == k;
                assert(writes[i].0 == k);
            } else {
                assert(writes[writes.len() - 1].0 == k);
            }
        }
    }
}

/// What a write to the metadata notes of a field: the field, or nothing where the
/// report lacks it or it is blank.
pub open spec fn noted_field(status: StatusView, field: Seq<char>) -> Option<JsonView> {
    match filled(field_of(status, field)) {
        Some(v) => Some(JsonView::Text(v)),
        None => None,
    }
}

/// Where no key stands twice, what a session's metadata has under the key of a
/// write is what that write notes.
pub proof fn law_metadata_follows_each_write(
    writes: Seq<(Seq<char>, Seq<char>)>,
    status: StatusView,
    i: int,
)
    requires
        keys_apart(writes),
        0 <= i < writes.len(),
    ensures
        ({
            let m = metadata_entries(writes, status);
            match noted_field(status, writes[i].1) {
                Some(v) => m.dom().contains(writes[i].0) && m[writes[i].0] == v,
                None => !m.dom().contains(writes[i].0),
            }
        }),
    decreases writes.len(),
{
    let front = writes.drop_last();
    if i < front.len() {
        assert(front[i] == writes[i]);
        assert(writes[i].0 != writes[writes.len() - 1].0);
        law_metadata_follows_each_write(front, status, i);
    } else {
        law_metadata_is_filled(front, status);
        if metadata_entries(front, status).dom().contains(writes[i].0) {
            let k = choose|k: int| 0 <= k < front.len() && (#[trigger] front[k]).0 == writes[i].0;
            assert(writes[k].0 == writes[i].0);
        }
    }
}

/// What a write to the configuration stores of a field: the field, a base address
/// in the form in which it is used; nothing where the report lacks the field or it
/// is blank.
pub open spec fn stored_field(
    status: StatusView,
    field: Seq<char>,
    guard: Result<(), Seq<char>>,
) -> Option<JsonView> {
    match filled(field_of(status, field)) {
        None => None,
        Some(v) => if field == "baseurl"@ {
            match base_url_of(v, guard) {
                Ok(u) => Some(JsonView::Text(u)),
                Err(_) => None,
            }
        } else {
            Some(JsonView::Text(v))
        },
    }
}

/// Where no key stands twice, what the channel's configuration has under the key
/// of a write is what that write stores.
pub proof fn law_configuration_follows_each_write(
    writes: Seq<(Seq<char>, Seq<char>)>,
    status: StatusView,
    guard: Result<(), Seq<char>>,
    i: int,
)
    requires
        keys_apart(writes),
        0 <= i < writes.len(),
        runtime_entries(writes, status, guard) is Ok,
    ensures
        ({
            let m = runtime_entries(writes, status, guard)->Ok_0;
            match stored_field(status, writes[i].1, guard) {
                Some(v) => m.dom().contains(writes[i].0) && m[writes[i].0] == v,
                None => !m.dom().contains(writes[i].0),
            }
        }),
    decreases writes.len(),
{
    let front = writes.drop_last();
    if i < front.len() {
        assert(front[i] == writes[i]);
        assert(writes[i].0 != writes[writes.len() - 1].0);
        law_configuration_follows_each_write(front, status, guard, i);
    } else {
        law_runtime_keys_are_declared(front, status, guard);
        if runtime_entries(front, status, guard)->Ok_0.dom().contains(writes[i].0) {
            let k = choose|k: int| 0 <= k < front.len() && (#[trigger] front[k]).0 == writes[i].0;
            assert(writes[k].0 == writes[i].0);
        }
    }
}

/// A session that is confirmed under a well-formed configuration hands over, for
/// each write, what that write stores, and nothing under other keys.
pub proof fn law_completions_follow_the_writes(
    session_id: Seq<char>,
    extension_name: Seq<char>,
    session: SessionView,
    status: StatusView,
    guard: Result<(), Seq<char>>,
)
    requires
        session.config.wf(),
        confirmed(session_id, extension_name, session, status, guard) is Ok,
    ensures
        ({
            let done = confirmed(session_id, extension_name, session, status, guard)->Ok_0;
            &&& done.completion matches Some(c) && {
                &&& forall|k: Seq<char>, v: JsonView|
                    #![trigger c.runtime_config.contains_pair(k, v)]
                    c.runtime_config.contains_pair(k, v) <==> exists|i: int|
                        0 <= i < session.config.runtime_config_writes.len() && (
                        #[trigger] session.config.runtime_config_writes[i]).0 == k && stored_field(
                            status,
                            session.config.runtime_config_writes[i].1,
                            guard,
                        ) == Some(v)
                &&& forall|k: Seq<char>, v: JsonView|
                    #![trigger c.metadata.contains_pair(k, v)]
                    c.metadata.contains_pair(k, v) <==> exists|i: int|
                        0 <= i < session.config.metadata_writes.len() && (
                        #[trigger] session.config.metadata_writes[i]).0 == k && noted_field(
                            status,
                            session.config.metadata_writes[i].1,
                        ) == Some(v)
            }
        }),
{
    let done = confirmed(session_id, extension_name, session, status, guard)->Ok_0;
    let c = done.completion->Some_0;
    let rw = session.config.runtime_config_writes;
    let mw = session.config.metadata_writes;
    law_runtime_keys_are_declared(rw, status, guard);
    law_metadata_is_filled(mw, status);
    assert forall|k: Seq<char>, v: JsonView|
        #![trigger c.runtime_config.contains_pair(k, v)]
        c.runtime_config.contains_pair(k, v) <==> exists|i: int|
            0 <= i < rw.len() && (#[trigger] rw[i]).0 == k && stored_field(status, rw[i].1, guard)
                == Some(v) by {
        if c.runtime_config.contains_pair(k, v) {
            let i = choose|i: int| 0 <= i < rw.len() && (#[trigger] rw[i]).0 == k;
            law_configuration_follows_each_write(rw, status, guard, i);
        }
        if exists|i: int|
            0 <= i < rw.len() && (#[trigger] rw[i]).0 == k && stored_field(status, rw[i].1, guard)
                == Some(v) {
            let i = choose|i: int|
                0 <= i < rw.len() && (#[trigger] rw[i]).0 == k && stored_field(
                    status,
                    rw[i].1,
                    guard,
                ) == Some(v);
            law_configuration_follows_each_write(rw, status, guard, i);
        }
    }
    assert forall|k: Seq<char>, v: JsonView|
        #![trigger c.metadata.contains_pair(k, v)]
        c.metadata.contains_pair(k, v) <==> exists|i: int|
            0 <= i < mw.len() && (#[trigger] mw[i]).0 == k && noted_field(status, mw[i].1) == Some(v) by {
        if c.metadata.contains_pair(k, v) {
            let i = choose|i: int| 0 <= i < mw.len() && (#[trigger] mw[i]).0 == k;
            law_metadata_follows_each_write(mw, status, i);
        }
        if exists|i: int|
            0 <= i < mw.len() && (#[trigger] mw[i]).0 == k && noted_field(status, mw[i].1) == Some(v) {
            let i = choose|i: int|
                0 <= i < mw.len() && (#[trigger] mw[i]).0 == k && noted_field(status, mw[i].1) == Some(v);
            law_metadata_follows_each_write(mw, status, i);
        }
    }
}

/// The words of the server for what became of a code.
pub proof fn law_states_go_by_their_words(word: Seq<char>)
    ensures
        state_of("wait"@) == SetupSessionState::WaitingScan,
        state_of("scaned"@) == SetupSessionState::Scanned,
        state_of("confirmed"@) == SetupSessionState::Confirmed,
        state_of("expired"@) == SetupSessionState::Expired,
        word != "wait"@ && word != "scaned"@ && word != "confirmed"@ && word != "expired"@
            ==> state_of(word) == SetupSessionState::Failed,
{
    lemma_words_apart();
}

/// The fields of a report go by their names, and other names stand for none. A field
/// that is blank counts as none.
pub proof fn law_fields_go_by_their_names(status: StatusView, name: Seq<char>, s: Seq<char>)
    ensures
        field_of(status, "ilink_bot_id"@) == status.ilink_bot_id,
        field_of(status, "ilink_user_id"@) == status.ilink_user_id,
        field_of(status, "baseurl"@) == status.baseurl,
        field_of(status, "bot_token"@) == status.bot_token,
        field_of(status, "status"@) == Some(status.status),
        name != "ilink_bot_id"@ && name != "ilink_user_id"@ && name != "baseurl"@ && name
            != "bot_token"@ && name != "status"@ ==> field_of(status, name) is None,
        filled(None) is None,
        trim(s).len() > 0 ==> filled(Some(s)) == Some(s),
        trim(s).len() == 0 ==> filled(Some(s)) is None,
{
    lemma_fields_apart();
}

/// The base address and the kind of bot come from the channel's configuration, under
/// the keys that are named for them or the usual ones, or else from the defaults.
/// There is no session without a base address; a bot is of the kind `3` where none
/// is given.
pub proof fn law_sessions_are_configured(
    name: Seq<char>,
    channel: Map<Seq<char>, JsonView>,
    config: ConfigView,
    session: SessionView,
)
    ensures
        ({
            let key = match config.base_url_config_key {
                Some(k) => k,
                None => "base_url"@,
            };
            match JsonView::Object(channel).str_at(key) {
                Some(u) => chosen_base(name, channel, config) == Ok::<Seq<char>, Seq<char>>(u),
                None => match config.default_base_url {
                    Some(u) => chosen_base(name, channel, config) == Ok::<Seq<char>, Seq<char>>(u),
                    None => chosen_base(name, channel, config) == Err::<Seq<char>, Seq<char>>(
                        "Interactive setup for '"@ + name + "' is missing a base URL"@,
                    ),
                },
            }
        }),
        ({
            let key = match config.bot_type_config_key {
                Some(k) => k,
                None => "bot_type"@,
            };
            let kind = match JsonView::Object(channel).str_at(key) {
                Some(t) => t,
                None => match config.default_bot_type {
                    Some(t) => t,
                    None => "3"@,
                },
            };
            code_request(channel, config) == "ilink/bot/get_bot_qrcode?bot_type="@
                + percent_encoded(kind)
        }),
        status_request(session) == "ilink/bot/get_qrcode_status?qrcode="@ + percent_encoded(
            session.qrcode,
        ),
{
}

/// A session that is begun shows the code that the server gave, keeps it with the
/// address and the configuration, and lasts as long as is configured, or eight
/// minutes. Without a code there is none.
pub proof fn law_sessions_begin_with_their_code(
    name: Seq<char>,
    id: Seq<char>,
    config: ConfigView,
    base_url: Seq<char>,
    reply: QrCodeReply,
    now: Timestamp,
)
    ensures
        match reply {
            QrCodeReply::NoClient(e) => begun(name, id, config, base_url, reply, now) == Err::<
                (SessionView, ResultView),
                Seq<char>,
            >(e@),
            QrCodeReply::NotSent => begun(name, id, config, base_url, reply, now) == Err::<
                (SessionView, ResultView),
                Seq<char>,
            >("iLink QR setup request failed"@),
            QrCodeReply::Refused(s) => begun(name, id, config, base_url, reply, now) == Err::<
                (SessionView, ResultView),
                Seq<char>,
            >("iLink QR setup request returned "@ + s@),
            QrCodeReply::Unreadable => begun(name, id, config, base_url, reply, now) == Err::<
                (SessionView, ResultView),
                Seq<char>,
            >("Failed to parse iLink QR setup response"@),
            QrCodeReply::Code(qr) => {
                let there = trim(qr.qrcode@).len() > 0 && trim(qr.qrcode_img_content@).len() > 0;
                let life = match config.ttl_secs {
                    Some(t) => t as int,
                    None => 480,
                };
                &&& !there ==> begun(name, id, config, base_url, reply, now) is Err
                &&& there ==> {
                    &&& begun(name, id, config, base_url, reply, now) matches Ok((s, r))
                    &&& s.qrcode == qr.qrcode@
                    &&& s.qr_image_url == qr.qrcode_img_content@
                    &&& s.base_url == base_url
                    &&& s.config == config
                    &&& i64::MIN <= now.secs + life <= i64::MAX ==> s.expires_at.secs == now.secs
                        + life
                    &&& s.expires_at.nanos == now.nanos
                    &&& r.session_id == id
                    &&& r.extension_name == name
                    &&& r.state == SetupSessionState::QrRequired
                    &&& r.qr_image_url == Some(qr.qrcode_img_content@)
                    &&& r.expires_at == Some(rfc3339(s.expires_at.secs, s.expires_at.nanos))
                    &&& r.account_id is None
                }
            },
        },
{
}

/// What a poll says follows the word of the server: a session waits while its code
/// is to be scanned or confirmed, and shows it; it is over when the code has expired
/// or the word is unknown; and it ends with the channel connected when the login is
/// confirmed.
pub proof fn law_polls_follow_the_word(
    id: Seq<char>,
    name: Seq<char>,
    session: SessionView,
    status: StatusView,
    guard: Result<(), Seq<char>>,
)
    ensures
        status.status == "wait"@ || status.status == "scaned"@ ==> {
            &&& reported(id, name, session, status, guard) matches Ok(p)
            &&& !p.remove_session && p.completion is None
            &&& p.result.session_id == id && p.result.extension_name == name
            &&& p.result.qr_image_url == Some(session.qr_image_url)
            &&& p.result.expires_at == Some(
                rfc3339(session.expires_at.secs, session.expires_at.nanos),
            )
            &&& status.status == "wait"@ ==> p.result.state == SetupSessionState::WaitingScan
                && p.result.message == Some("Waiting for QR scan."@)
            &&& status.status == "scaned"@ ==> p.result.state == SetupSessionState::Scanned
                && p.result.message == Some("QR code scanned. Confirm login to continue."@)
        },
        status.status == "expired"@ ==> {
            &&& reported(id, name, session, status, guard) matches Ok(p)
            &&& p.remove_session && p.completion is None && p.result.qr_image_url is None
            &&& p.result.state == SetupSessionState::Expired
            &&& p.result.session_id == id && p.result.extension_name == name
        },
        status.status != "wait"@ && status.status != "scaned"@ && status.status != "confirmed"@
            && status.status != "expired"@ ==> {
            &&& reported(id, name, session, status, guard) matches Ok(p)
            &&& p.remove_session && p.completion is None && p.result.qr_image_url is None
            &&& p.result.state == SetupSessionState::Failed
            &&& p.result.message == Some("Unexpected iLink QR status: "@ + status.status)
            &&& p.result.session_id == id && p.result.extension_name == name
        },
        status.status == "confirmed"@ ==> {
            let done = reported(id, name, session, status, guard);
            let lacks = !(status.bot_token matches Some(t) && trim(t).len() > 0);
            let writes = runtime_entries(session.config.runtime_config_writes, status, guard);
            &&& lacks ==> done == Err::<PollView, Seq<char>>(
                "iLink login confirmed but server did not return a bot token"@,
            )
            &&& !lacks && writes is Err ==> done == Err::<PollView, Seq<char>>(writes->Err_0)
            &&& !lacks && writes is Ok ==> {
                &&& done matches Ok(p)
                &&& p.remove_session
                &&& p.result.state == SetupSessionState::Ready
                &&& p.result.session_id == id && p.result.extension_name == name
                &&& p.result.account_id == status.ilink_bot_id
                &&& p.result.qr_image_url is None && p.result.expires_at is None
                &&& p.completion matches Some(c)
                &&& c.secrets == seq![(session.config.token_secret_name, status.bot_token->0)]
                &&& c.runtime_config == writes->Ok_0
                &&& c.metadata == metadata_entries(session.config.metadata_writes, status)
            }
        },
{
    lemma_words_apart();
}

/// What comes of a poll is what the server reports, or why it reports nothing.
pub proof fn law_polls_tell_what_came(
    id: Seq<char>,
    name: Seq<char>,
    session: SessionView,
    reply: QrStatusReply,
    guard: Result<(), Seq<char>>,
)
    ensures
        match reply {
            QrStatusReply::NoClient(e) => polled(id, name, session, reply, guard) == Err::<
                PollView,
                Seq<char>,
            >(e@),
            QrStatusReply::NotSent => polled(id, name, session, reply, guard) == Err::<
                PollView,
                Seq<char>,
            >("iLink QR status request failed"@),
            QrStatusReply::Refused(s) => polled(id, name, session, reply, guard) == Err::<
                PollView,
                Seq<char>,
            >("iLink QR status request returned "@ + s@),
            QrStatusReply::Unreadable => polled(id, name, session, reply, guard) == Err::<
                PollView,
                Seq<char>,
            >("Failed to parse iLink QR status response"@),
            QrStatusReply::Status(s) => polled(id, name, session, reply, guard) == reported(
                id,
                name,
                session,
                s@,
                guard,
            ),
        },
{
}

/// The keys of writes that are not blank are given in their order.
pub proof fn law_filled_keys_are_given(
    a: Seq<(Seq<char>, Seq<char>)>,
    b: Seq<(Seq<char>, Seq<char>)>,
    w: (Seq<char>, Seq<char>),
)
    ensures
        filled_keys(a + b) == filled_keys(a) + filled_keys(b),
        filled_keys(seq![w]) == if trim(w.0).len() > 0 {
            seq![w.0]
        } else {
            seq![]
        },
    decreases b.len(),
{
    let none = Seq::<(Seq<char>, Seq<char>)>::empty();
    assert(filled_keys(none) =~= Seq::<Seq<char>>::empty());
    assert(seq![w].drop_last() =~= none);
    assert(seq![w].last() == w);
    assert(filled_keys(seq![w]) =~= if trim(w.0).len() > 0 {
        seq![w.0]
    } else {
        seq![]
    });
    if b.len() == 0 {
        assert(a + b =~= a);
        assert(filled_keys(a) + filled_keys(b) =~= filled_keys(a));
    } else {
        assert((a + b).drop_last() =~= a + b.drop_last());
        law_filled_keys_are_given(a, b.drop_last(), w);
        assert(filled_keys(a + b) =~= filled_keys(a) + filled_keys(b));
    }
}

/// A base address that is to be written is written in the form in which it is used,
/// and a write that cannot be made fails with the reason.
pub proof fn law_base_addresses_are_written_as_used(
    writes: Seq<(Seq<char>, Seq<char>)>,
    key: Seq<char>,
    status: StatusView,
    guard: Result<(), Seq<char>>,
)
    requires
        runtime_entries(writes, status, guard) is Ok,
        status.baseurl matches Some(u) && trim(u).len() > 0,
    ensures
        match base_url_of(status.baseurl->0, guard) {
            Ok(u) => runtime_entries(writes.push((key, "baseurl"@)), status, guard) == Ok::<
                Map<Seq<char>, JsonView>,
                Seq<char>,
            >(runtime_entries(writes, status, guard)->Ok_0.insert(key, JsonView::Text(u))),
            Err(e) => runtime_entries(writes.push((key, "baseurl"@)), status, guard) == Err::<
                Map<Seq<char>, JsonView>,
                Seq<char>,
            >(e),
        },
{
    lemma_fields_apart();
    assert(writes.push((key, "baseurl"@)).drop_last() =~= writes);
    assert(writes.push((key, "baseurl"@)).last() == (key, "baseurl"@));
}

proof fn lemma_words_apart()
    ensures
        "wait"@ != "scaned"@,
        "wait"@ != "confirmed"@,
        "wait"@ != "expired"@,
        "scaned"@ != "confirmed"@,
        "scaned"@ != "expired"@,
        "confirmed"@ != "expired"@,
{
    reveal_strlit("wait");
    reveal_strlit("scaned");
    reveal_strlit("confirmed");
    reveal_strlit("expired");
    assert("confirmed"@.len() == 9);
    assert("expired"@.len() == 7);
    assert("scaned"@.len() == 6);
    assert("wait"@.len() == 4);
}

proof fn lemma_fields_apart()
    ensures
        "ilink_bot_id"@ != "ilink_user_id"@,
        "ilink_bot_id"@ != "baseurl"@,
        "ilink_bot_id"@ != "bot_token"@,
        "ilink_bot_id"@ != "status"@,
        "ilink_user_id"@ != "baseurl"@,
        "ilink_user_id"@ != "bot_token"@,
        "ilink_user_id"@ != "status"@,
        "baseurl"@ != "bot_token"@,
        "baseurl"@ != "status"@,
        "bot_token"@ != "status"@,
{
    reveal_strlit("ilink_bot_id");
    reveal_strlit("ilink_user_id");
    reveal_strlit("baseurl");
    reveal_strlit("bot_token");
    reveal_strlit("status");
    assert("baseurl"@.len() == 7);
    assert("bot_token"@.len() == 9);
    assert("ilink_bot_id"@.len() == 12);
    assert("ilink_user_id"@.len() == 13);
    assert("status"@.len() == 6);
}

/// What a user reads of a session: to scan the code at its beginning, that the code
/// expired at its end, or that the channel is connected.
pub proof fn law_sessions_say_how_they_stand(
    name: Seq<char>,
    id: Seq<char>,
    config: ConfigView,
    base_url: Seq<char>,
    reply: QrCodeReply,
    at: Timestamp,
    session: SessionView,
    status: StatusView,
    guard: Result<(), Seq<char>>,
)
    ensures
        begun(name, id, config, base_url, reply, at) matches Ok((s, r)) ==> r.message == Some(
            "Scan this QR code to continue to connect the channel."@,
        ),
        reply matches QrCodeReply::Code(qr) && (trim(qr.qrcode@).len() == 0 || trim(
            qr.qrcode_img_content@,
        ).len() == 0) ==> begun(name, id, config, base_url, reply, at) == Err::<
            (SessionView, ResultView),
            Seq<char>,
        >("iLink QR setup response did not include a QR code"@),
        ({
            let p = expired(id, name, at);
            &&& p.remove_session
            &&& p.completion is None
            &&& p.result.session_id == id
            &&& p.result.extension_name == name
            &&& p.result.state == SetupSessionState::Expired
            &&& p.result.message == Some("QR code expired. Start a new setup session."@)
            &&& p.result.qr_image_url is None
            &&& p.result.account_id is None
            &&& p.result.expires_at == Some(rfc3339(at.secs, at.nanos))
        }),
        confirmed(id, name, session, status, guard) matches Ok(p) ==> p.result.message == Some(
            "Channel connected."@,
        ),
{
}

/// A base address is used where one of the writes is to be made from it.
pub proof fn law_base_addresses_are_used_where_written(
    a: Seq<(Seq<char>, Seq<char>)>,
    b: Seq<(Seq<char>, Seq<char>)>,
    w: (Seq<char>, Seq<char>),
)
    ensures
        uses_base_url(a + b) <==> uses_base_url(a) || uses_base_url(b),
        uses_base_url(seq![w]) <==> w.1 == "baseurl"@,
        !uses_base_url(seq![]),
{
    let n = a.len() as int;
    if uses_base_url(a) {
        let i = choose|i: int| 0 <= i < a.len() && (#[trigger] a[i]).1 == "baseurl"@;
        assert((a + b)[i] == a[i]);
    }
    if uses_base_url(b) {
        let i = choose|i: int| 0 <= i < b.len() && (#[trigger] b[i]).1 == "baseurl"@;
        assert((a + b)[n + i] == b[i]);
    }
    if uses_base_url(a + b) {
        let i = choose|i: int|
            0 <= i < (a + b).len() && (#[trigger] (a + b)[i]).1 == "baseurl"@;
        if i < n {
            assert(a[i].1 == "baseurl"@);
        } else {
            assert(b[i - n].1 == "baseurl"@);
        }
    }
    assert(seq![w][0] == w);
}

/// A session begins exactly where the reply carries a code.
pub proof fn law_codes_begin_sessions(
    name: Seq<char>,
    id: Seq<char>,
    config: ConfigView,
    base_url: Seq<char>,
    reply: QrCodeReply,
    now: Timestamp,
)
    ensures
        has_code(reply) <==> begun(name, id, config, base_url, reply, now) is Ok,
{
}

} // verus!
