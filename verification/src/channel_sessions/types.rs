//! What a setup session takes and gives.

use vstd::prelude::*;

use crate::json::{entries_view, Json, JsonView};
use crate::text::opt_text;
use crate::timestamp::Timestamp;

verus! {

/// Why a setup session failed.
#[derive(Debug, PartialEq)]
pub enum ExtensionError {
    Other(String),
}

impl ExtensionError {
    /// What the error says.
    pub open spec fn says(self) -> Seq<char> {
        match self {
            ExtensionError::Other(m) => m@,
        }
    }

    /// The message of the error.
    pub fn message(&self) -> (r: &str)
        ensures
            r@ == self.says(),
    {
        match self {
            ExtensionError::Other(m) => m.as_str(),
        }
    }
}

/// What the outcome of a step that gives a text is.
pub open spec fn said(r: Result<String, ExtensionError>) -> Result<Seq<char>, Seq<char>> {
    match r {
        Ok(s) => Ok(s@),
        Err(e) => Err(e.says()),
    }
}

/// Where a session stands.
#[derive(Clone, Copy, Debug, PartialEq, Eq, Structural)]
pub enum SetupSessionState {
    /// A code is to be scanned.
    QrRequired,
    /// The code has not been scanned yet.
    WaitingScan,
    /// The code has been scanned.
    Scanned,
    /// The login has been confirmed.
    Confirmed,
    /// The channel is connected.
    Ready,
    /// The code is no longer good.
    Expired,
    /// The session was called off.
    Cancelled,
    /// The session failed.
    Failed,
}

/// What is shown of a session.
#[derive(Debug, PartialEq)]
pub struct SetupSessionResult {
    pub session_id: String,
    pub extension_name: String,
    pub state: SetupSessionState,
    pub qr_image_url: Option<String>,
    pub expires_at: Option<String>,
    pub message: Option<String>,
    pub account_id: Option<String>,
}

/// What a result is.
pub struct ResultView {
    pub session_id: Seq<char>,
    pub extension_name: Seq<char>,
    pub state: SetupSessionState,
    pub qr_image_url: Option<Seq<char>>,
    pub expires_at: Option<Seq<char>>,
    pub message: Option<Seq<char>>,
    pub account_id: Option<Seq<char>>,
}

impl View for SetupSessionResult {
    type V = ResultView;

    open spec fn view(&self) -> ResultView {
        ResultView {
            session_id: self.session_id@,
            extension_name: self.extension_name@,
            state: self.state,
            qr_image_url: opt_text(self.qr_image_url),
            expires_at: opt_text(self.expires_at),
            message: opt_text(self.message),
            account_id: opt_text(self.account_id),
        }
    }
}

/// A secret that a session ends with.
#[derive(Debug, PartialEq)]
pub struct SetupSessionSecret {
    pub name: String,
    pub value: String,
}

/// What a list of secrets is: names and values.
pub open spec fn secret_views(s: Seq<SetupSessionSecret>) -> Seq<(Seq<char>, Seq<char>)> {
    s.map_values(|x: SetupSessionSecret| (x.name@, x.value@))
}

/// What a session ends with.
#[derive(Debug, PartialEq)]
pub struct SetupSessionCompletion {
    pub secrets: Vec<SetupSessionSecret>,
    pub runtime_config: Vec<(String, Json)>,
    pub metadata: Vec<(String, Json)>,
}

/// What a completion is.
pub struct CompletionView {
    pub secrets: Seq<(Seq<char>, Seq<char>)>,
    pub runtime_config: Map<Seq<char>, JsonView>,
    pub metadata: Map<Seq<char>, JsonView>,
}

impl View for SetupSessionCompletion {
    type V = CompletionView;

    open spec fn view(&self) -> CompletionView {
        CompletionView {
            secrets: secret_views(self.secrets@),
            runtime_config: entries_view(self.runtime_config@),
            metadata: entries_view(self.metadata@),
        }
    }
}

impl Default for SetupSessionCompletion {
    fn default() -> (r: SetupSessionCompletion)
        ensures
            r@.secrets == Seq::<(Seq<char>, Seq<char>)>::empty(),
            r@.runtime_config == Map::<Seq<char>, JsonView>::empty(),
            r@.metadata == Map::<Seq<char>, JsonView>::empty(),
    {
        SetupSessionCompletion {
            secrets: Vec::new(),
            runtime_config: Vec::new(),
            metadata: Vec::new(),
        }
    }
}

/// What came of asking for a session's state.
#[derive(Debug, PartialEq)]
pub struct SetupSessionPoll {
    pub result: SetupSessionResult,
    pub completion: Option<SetupSessionCompletion>,
    pub remove_session: bool,
}

/// What a poll is.
pub struct PollView {
    pub result: ResultView,
    pub completion: Option<CompletionView>,
    pub remove_session: bool,
}

impl View for SetupSessionPoll {
    type V = PollView;

    open spec fn view(&self) -> PollView {
        PollView {
            result: self.result@,
            completion: match self.completion {
                Some(c) => Some(c@),
                None => None,
            },
            remove_session: self.remove_session,
        }
    }
}

/// What the outcome of a poll is.
pub open spec fn poll_outcome(r: Result<SetupSessionPoll, ExtensionError>) -> Result<
    PollView,
    Seq<char>,
> {
    match r {
        Ok(p) => Ok(p@),
        Err(e) => Err(e.says()),
    }
}

/// How an iLink session is set up. Each of the writes names a key and the field
/// of the server's report that goes there.
#[derive(Debug, PartialEq)]
pub struct IlinkQrConfig {
    pub token_secret_name: String,
    pub base_url_config_key: Option<String>,
    pub bot_type_config_key: Option<String>,
    pub default_base_url: Option<String>,
    pub default_bot_type: Option<String>,
    pub runtime_config_writes: Vec<(String, String)>,
    pub metadata_writes: Vec<(String, String)>,
    pub ttl_secs: Option<u64>,
}

/// What a configuration is.
pub struct ConfigView {
    pub token_secret_name: Seq<char>,
    pub base_url_config_key: Option<Seq<char>>,
    pub bot_type_config_key: Option<Seq<char>>,
    pub default_base_url: Option<Seq<char>>,
    pub default_bot_type: Option<Seq<char>>,
    pub runtime_config_writes: Seq<(Seq<char>, Seq<char>)>,
    pub metadata_writes: Seq<(Seq<char>, Seq<char>)>,
    pub ttl_secs: Option<u64>,
}

/// What a list of pairs is.
pub open spec fn pair_views(s: Seq<(String, String)>) -> Seq<(Seq<char>, Seq<char>)> {
    s.map_values(|x: (String, String)| (x.0@, x.1@))
}

/// Whether no key stands twice in a list of writes.
pub open spec fn keys_apart(writes: Seq<(Seq<char>, Seq<char>)>) -> bool {
    forall|i: int, j: int|
        0 <= i < j < writes.len() ==> (#[trigger] writes[i]).0 != (#[trigger] writes[j]).0
}

impl ConfigView {
    /// The writes of a configuration are maps from keys to fields: each key has
    /// one field.
    pub open spec fn wf(self) -> bool {
        &&& keys_apart(self.runtime_config_writes)
        &&& keys_apart(self.metadata_writes)
    }
}

impl View for IlinkQrConfig {
    type V = ConfigView;

    open spec fn view(&self) -> ConfigView {
        ConfigView {
            token_secret_name: self.token_secret_name@,
            base_url_config_key: opt_text(self.base_url_config_key),
            bot_type_config_key: opt_text(self.bot_type_config_key),
            default_base_url: opt_text(self.default_base_url),
            default_bot_type: opt_text(self.default_bot_type),
            runtime_config_writes: pair_views(self.runtime_config_writes@),
            metadata_writes: pair_views(self.metadata_writes@),
            ttl_secs: self.ttl_secs,
        }
    }
}

/// A session that waits for a code to be scanned.
#[derive(Debug, PartialEq)]
pub struct IlinkQrSession {
    pub expires_at: Timestamp,
    pub config: IlinkQrConfig,
    pub qrcode: String,
    pub qr_image_url: String,
    pub base_url: String,
}

/// What a session is.
pub struct SessionView {
    pub expires_at: Timestamp,
    pub config: ConfigView,
    pub qrcode: Seq<char>,
    pub qr_image_url: Seq<char>,
    pub base_url: Seq<char>,
}

impl View for IlinkQrSession {
    type V = SessionView;

    open spec fn view(&self) -> SessionView {
        SessionView {
            expires_at: self.expires_at,
            config: self.config@,
            qrcode: self.qrcode@,
            qr_image_url: self.qr_image_url@,
            base_url: self.base_url@,
        }
    }
}

impl IlinkQrSession {
    /// The session ends at a point that has a date.
    pub open spec fn wf(self) -> bool {
        self.expires_at.in_calendar()
    }
}

/// The code that the server gives.
#[derive(Debug, PartialEq)]
pub struct IlinkQrCodeResponse {
    pub qrcode: String,
    pub qrcode_img_content: String,
}

/// What the server reports of a code.
#[derive(Debug, PartialEq)]
pub struct IlinkQrCodeStatusResponse {
    pub status: String,
    pub bot_token: Option<String>,
    pub ilink_bot_id: Option<String>,
    pub baseurl: Option<String>,
    pub ilink_user_id: Option<String>,
}

/// What a report is.
pub struct StatusView {
    pub status: Seq<char>,
    pub bot_token: Option<Seq<char>>,
    pub ilink_bot_id: Option<Seq<char>>,
    pub baseurl: Option<Seq<char>>,
    pub ilink_user_id: Option<Seq<char>>,
}

impl View for IlinkQrCodeStatusResponse {
    type V = StatusView;

    open spec fn view(&self) -> StatusView {
        StatusView {
            status: self.status@,
            bot_token: opt_text(self.bot_token),
            ilink_bot_id: opt_text(self.ilink_bot_id),
            baseurl: opt_text(self.baseurl),
            ilink_user_id: opt_text(self.ilink_user_id),
        }
    }
}

/// Sessions, their configuration and what they give are seen as they are.
pub proof fn law_sessions_are_seen_as_they_are(
    r: SetupSessionResult,
    c: SetupSessionCompletion,
    s: IlinkQrSession,
    st: IlinkQrCodeStatusResponse,
    g: IlinkQrConfig,
    i: int,
)
    ensures
        r@.session_id == r.session_id@ && r@.extension_name == r.extension_name@ && r@.state
            == r.state,
        r.qr_image_url matches Some(x) ==> r@.qr_image_url == Some(x@),
        r.qr_image_url is None ==> r@.qr_image_url is None,
        r.expires_at matches Some(x) ==> r@.expires_at == Some(x@),
        r.message matches Some(x) ==> r@.message == Some(x@),
        r.account_id matches Some(x) ==> r@.account_id == Some(x@),
        r.account_id is None ==> r@.account_id is None,
        c@.secrets.len() == c.secrets@.len(),
        0 <= i < c.secrets@.len() ==> c@.secrets[i].0 == c.secrets@[i].name@ && c@.secrets[i].1
            == c.secrets@[i].value@,
        s@.expires_at == s.expires_at && s@.config == s.config@ && s@.qrcode == s.qrcode@,
        s@.qr_image_url == s.qr_image_url@ && s@.base_url == s.base_url@,
        st@.status == st.status@,
        st.bot_token matches Some(x) ==> st@.bot_token == Some(x@),
        st.bot_token is None ==> st@.bot_token is None,
        st.ilink_bot_id matches Some(x) ==> st@.ilink_bot_id == Some(x@),
        st.baseurl matches Some(x) ==> st@.baseurl == Some(x@),
        st.ilink_user_id matches Some(x) ==> st@.ilink_user_id == Some(x@),
        g@.token_secret_name == g.token_secret_name@ && g@.ttl_secs == g.ttl_secs,
        g.default_base_url matches Some(x) ==> g@.default_base_url == Some(x@),
        g.default_bot_type matches Some(x) ==> g@.default_bot_type == Some(x@),
        g.base_url_config_key matches Some(x) ==> g@.base_url_config_key == Some(x@),
        g.bot_type_config_key matches Some(x) ==> g@.bot_type_config_key == Some(x@),
        g@.runtime_config_writes.len() == g.runtime_config_writes@.len(),
        0 <= i < g.runtime_config_writes@.len() ==> g@.runtime_config_writes[i].0
            == g.runtime_config_writes@[i].0@ && g@.runtime_config_writes[i].1
            == g.runtime_config_writes@[i].1@,
        g@.metadata_writes.len() == g.metadata_writes@.len(),
        0 <= i < g.metadata_writes@.len() ==> g@.metadata_writes[i].0 == g.metadata_writes@[i].0@
            && g@.metadata_writes[i].1 == g.metadata_writes@[i].1@,
{
}

} // verus!
