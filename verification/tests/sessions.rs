use ironclaw::channel_sessions::address::{
    base_url_to_check, ensure_trailing_slash, ilink_qr_setup_url, normalize_setup_base_url,
    setup_url_to_check,
};
use ironclaw::channel_sessions::ilink_qr::{
    begin, carries_code, choose_base_url, confirmed_result, ilink_qr_setup_state, poll, poll_url_to_check,
    qr_code_request, qr_status_request, status_response_field, QrCodeReply, QrStatusReply,
};
use ironclaw::channel_sessions::session::{
    begin_setup_session, cancelled_result, open_setup_session, parse_config, poll_setup_session,
    required_secret_names, runtime_config_keys, setup_session_metadata_setting_key,
    setup_session_runtime_config_setting_key, PendingSetupSession, PollStep, SetupSessionProvider,
    SetupSessionSchema,
};
use ironclaw::channel_sessions::types::{
    ExtensionError, IlinkQrCodeResponse, IlinkQrCodeStatusResponse, IlinkQrConfig, IlinkQrSession,
    SetupSessionState,
};
use ironclaw::json::Json;
use ironclaw::timestamp::Timestamp;

const NOW: Timestamp = Timestamp {
    secs: 1_700_000_000,
    nanos: 0,
};

fn other<T>(s: &str) -> Result<T, ExtensionError> {
    Err(ExtensionError::Other(s.to_string()))
}

fn config() -> IlinkQrConfig {
    IlinkQrConfig {
        token_secret_name: "ilink_token".to_string(),
        base_url_config_key: None,
        bot_type_config_key: None,
        default_base_url: Some("https://default.example".to_string()),
        default_bot_type: None,
        runtime_config_writes: vec![
            ("base_url".to_string(), "baseurl".to_string()),
            (" ".to_string(), "status".to_string()),
            ("user".to_string(), "ilink_user_id".to_string()),
        ],
        metadata_writes: vec![
            ("bot".to_string(), "ilink_bot_id".to_string()),
            ("none".to_string(), "unknown".to_string()),
        ],
        ttl_secs: None,
    }
}

fn code() -> QrCodeReply {
    QrCodeReply::Code(IlinkQrCodeResponse {
        qrcode: "code &1".to_string(),
        qrcode_img_content: "https://img".to_string(),
    })
}

fn session() -> IlinkQrSession {
    begin("ext", "id", config(), "https://b.example".to_string(), code(), NOW)
        .unwrap()
        .0
}

fn pending() -> PendingSetupSession {
    begin_setup_session("ext", "me", config(), "https://b.example".to_string(), code(), NOW)
        .unwrap()
        .1
}

fn status(word: &str) -> IlinkQrCodeStatusResponse {
    IlinkQrCodeStatusResponse {
        status: word.to_string(),
        bot_token: Some("secret".to_string()),
        ilink_bot_id: Some("bot-1".to_string()),
        baseurl: Some("https://new.example/ ".to_string()),
        ilink_user_id: Some("  ".to_string()),
    }
}

#[test]
fn setting_keys_are_apart() {
    assert_eq!(
        setup_session_runtime_config_setting_key("x", "k"),
        "extensions.x.runtime_config.k"
    );
    assert_eq!(
        setup_session_metadata_setting_key("x", "k"),
        "extensions.x.setup_session.k"
    );
}

#[test]
fn schemas_name_their_secrets_and_keys() {
    let schema = SetupSessionSchema {
        provider: SetupSessionProvider::IlinkQr,
        config: Ok(config()),
    };
    assert_eq!(
        required_secret_names(&schema),
        Ok(vec!["ilink_token".to_string()])
    );
    assert_eq!(
        runtime_config_keys(&schema),
        Ok(vec!["base_url".to_string(), "user".to_string()])
    );
    let broken = SetupSessionSchema {
        provider: SetupSessionProvider::IlinkQr,
        config: Err("missing field".to_string()),
    };
    let text = "Invalid iLink QR setup session provider config: missing field";
    assert_eq!(required_secret_names(&broken), other(text));
    assert_eq!(runtime_config_keys(&broken), other(text));
    assert_eq!(parse_config(&broken), other(text));
    assert_eq!(parse_config(&broken).unwrap_err().message(), text);
}

#[test]
fn base_urls_are_checked() {
    assert_eq!(
        normalize_setup_base_url(" https://a.example// ", Ok(())),
        Ok("https://a.example".to_string())
    );
    assert_eq!(
        base_url_to_check(" https://A.example// "),
        Ok("https://a.example/".to_string())
    );
    assert_eq!(
        normalize_setup_base_url("http://a.example", Ok(())),
        other("setup base URL must use HTTPS")
    );
    assert_eq!(
        normalize_setup_base_url("https://u@a.example", Ok(())),
        other("setup base URL must not contain embedded credentials")
    );
    assert_eq!(
        normalize_setup_base_url("https://:p@a.example", Ok(())),
        other("setup base URL must not contain embedded credentials")
    );
    assert_eq!(
        normalize_setup_base_url("https://a.example", Err("private".to_string())),
        other("SSRF blocked: private")
    );
    assert_eq!(
        normalize_setup_base_url("not a url", Err("private".to_string())),
        other("Invalid setup base URL: relative URL without a base")
    );
    assert_eq!(
        base_url_to_check("https://"),
        other("Invalid setup base URL: empty host")
    );
}

#[test]
fn setup_urls_are_checked() {
    assert_eq!(ensure_trailing_slash("a"), "a/");
    assert_eq!(ensure_trailing_slash("a/"), "a/");
    assert_eq!(
        ilink_qr_setup_url("https://a.example/x", "y?z=1", Ok(())),
        Ok("https://a.example/x/y?z=1".to_string())
    );
    assert_eq!(
        ilink_qr_setup_url("https://A.example/", "../y", Ok(())),
        Ok("https://a.example/y".to_string())
    );
    assert_eq!(
        setup_url_to_check("https://a.example", "y"),
        Ok("https://a.example/y".to_string())
    );
    assert_eq!(
        ilink_qr_setup_url("http://a.example", "y", Ok(())),
        other("setup URL must use HTTPS")
    );
    assert_eq!(
        ilink_qr_setup_url("https://u:p@a.example", "y", Ok(())),
        other("setup URL must not contain embedded credentials")
    );
    assert_eq!(
        ilink_qr_setup_url("https://a.example", "y", Err("no".to_string())),
        other("SSRF blocked: no")
    );
    assert_eq!(
        ilink_qr_setup_url("nowhere", "y", Ok(())),
        other("Invalid setup URL: relative URL without a base")
    );
    assert_eq!(
        setup_url_to_check("nowhere", "y"),
        other("Invalid setup URL: relative URL without a base")
    );
}

#[test]
fn base_urls_are_chosen() {
    let channel = vec![("base_url".to_string(), Json::Text("https://c.example".to_string()))];
    assert_eq!(
        choose_base_url("ext", &channel, &config()),
        Ok("https://c.example".to_string())
    );
    assert_eq!(
        choose_base_url("ext", &vec![("base_url".to_string(), Json::Null)], &config()),
        Ok("https://default.example".to_string())
    );
    let mut bare = config();
    bare.default_base_url = None;
    bare.base_url_config_key = Some("host".to_string());
    assert_eq!(
        choose_base_url("ext", &channel, &bare),
        other("Interactive setup for 'ext' is missing a base URL")
    );
}

#[test]
fn requests_are_encoded() {
    assert_eq!(
        qr_code_request(&vec![], &config()),
        "ilink/bot/get_bot_qrcode?bot_type=3"
    );
    let channel = vec![("bot_type".to_string(), Json::Text("a&b=c/é~".to_string()))];
    assert_eq!(
        qr_code_request(&channel, &config()),
        "ilink/bot/get_bot_qrcode?bot_type=a%26b%3Dc%2F%C3%A9~"
    );
    let mut keyed = config();
    keyed.bot_type_config_key = Some("kind".to_string());
    keyed.default_bot_type = Some("9".to_string());
    assert_eq!(
        qr_code_request(&channel, &keyed),
        "ilink/bot/get_bot_qrcode?bot_type=9"
    );
    assert_eq!(
        qr_status_request(&session()),
        "ilink/bot/get_qrcode_status?qrcode=code%20%261"
    );
}

#[test]
fn sessions_begin_with_a_code() {
    let (session, result) =
        begin("ext", "id", config(), "https://b.example".to_string(), code(), NOW).unwrap();
    assert_eq!(session.expires_at.secs, NOW.secs + 480);
    assert_eq!(session.qrcode, "code &1");
    assert_eq!(session.base_url, "https://b.example");
    assert_eq!(result.state, SetupSessionState::QrRequired);
    assert_eq!(result.session_id, "id");
    assert_eq!(result.qr_image_url, Some("https://img".to_string()));
    assert_eq!(
        result.expires_at,
        Some("2023-11-14T22:21:20+00:00".to_string())
    );
    assert_eq!(
        result.message,
        Some("Scan this QR code to continue to connect the channel.".to_string())
    );
    let mut short = config();
    short.ttl_secs = Some(5);
    let (session, _) = begin("e", "i", short, "b".to_string(), code(), NOW).unwrap();
    assert_eq!(session.expires_at.secs, NOW.secs + 5);
}

#[test]
fn sessions_fail_to_begin() {
    let fail = |reply: QrCodeReply| begin("e", "i", config(), "b".to_string(), reply, NOW);
    assert_eq!(fail(QrCodeReply::NoClient("tls".to_string())), other("tls"));
    assert_eq!(fail(QrCodeReply::NotSent), other("iLink QR setup request failed"));
    assert_eq!(
        fail(QrCodeReply::Refused("500 Internal Server Error".to_string())),
        other("iLink QR setup request returned 500 Internal Server Error")
    );
    assert_eq!(
        fail(QrCodeReply::Unreadable),
        other("Failed to parse iLink QR setup response")
    );
    assert_eq!(
        fail(QrCodeReply::Code(IlinkQrCodeResponse {
            qrcode: "x".to_string(),
            qrcode_img_content: " \n".to_string(),
        })),
        other("iLink QR setup response did not include a QR code")
    );
}

#[test]
fn replies_that_carry_no_code_need_no_clock() {
    assert!(carries_code(&code()));
    assert!(!carries_code(&QrCodeReply::NotSent));
    let mut long = config();
    long.ttl_secs = Some(u64::MAX);
    assert_eq!(
        begin("e", "i", long, "b".to_string(), QrCodeReply::NotSent, NOW),
        other("iLink QR setup request failed")
    );
}

#[test]
fn sessions_have_random_names() {
    let open = || {
        begin_setup_session("ext", "me", config(), "https://b.example".to_string(), code(), NOW)
            .unwrap()
    };
    let (id, pending, result) = open();
    assert_eq!(id.len(), 36);
    assert!(id.char_indices().all(|(i, c)| if [8, 13, 18, 23].contains(&i) {
        c == '-'
    } else {
        c.is_ascii_digit() || ('a'..='f').contains(&c)
    }));
    assert_eq!(result.session_id, id);
    assert_eq!(pending.user_id, "me");
    assert_eq!(pending.extension_name, "ext");
    assert_eq!(pending.expires_at.secs, NOW.secs + 480);
    assert_ne!(open().0, id);
    let named = open_setup_session(
        "s".to_string(),
        "ext",
        "me",
        config(),
        "b".to_string(),
        code(),
        NOW,
    );
    assert_eq!(named.unwrap().0, "s");
}

#[test]
fn sessions_last_their_time() {
    let session = pending();
    let just_before = Timestamp {
        secs: NOW.secs + 479,
        nanos: 999_999_999,
    };
    assert_eq!(poll_setup_session("id", &session, just_before), PollStep::Ask);
    let end = Timestamp {
        secs: NOW.secs + 480,
        nanos: 0,
    };
    match poll_setup_session("id", &session, end) {
        PollStep::Over(p) => {
            assert!(p.remove_session);
            assert_eq!(p.completion, None);
            assert_eq!(p.result.state, SetupSessionState::Expired);
            assert_eq!(
                p.result.message,
                Some("QR code expired. Start a new setup session.".to_string())
            );
        }
        other => panic!("{other:?}"),
    }
}

#[test]
fn sessions_can_be_called_off() {
    let result = cancelled_result("id", &pending());
    assert_eq!(result.state, SetupSessionState::Cancelled);
    assert_eq!(result.message, Some("Setup session cancelled.".to_string()));
    assert_eq!(result.extension_name, "ext");
    assert_eq!(
        result.expires_at,
        Some("2023-11-14T22:21:20+00:00".to_string())
    );
}

#[test]
fn states_follow_the_word_of_the_server() {
    assert_eq!(ilink_qr_setup_state("wait"), SetupSessionState::WaitingScan);
    assert_eq!(ilink_qr_setup_state("scaned"), SetupSessionState::Scanned);
    assert_eq!(ilink_qr_setup_state("confirmed"), SetupSessionState::Confirmed);
    assert_eq!(ilink_qr_setup_state("expired"), SetupSessionState::Expired);
    assert_eq!(ilink_qr_setup_state("scanned"), SetupSessionState::Failed);
}

#[test]
fn fields_of_a_report_have_names() {
    let s = status("wait");
    assert_eq!(status_response_field(&s, "status"), Some("wait"));
    assert_eq!(status_response_field(&s, "bot_token"), Some("secret"));
    assert_eq!(status_response_field(&s, "ilink_bot_id"), Some("bot-1"));
    assert_eq!(status_response_field(&s, "ilink_user_id"), Some("  "));
    assert_eq!(status_response_field(&s, "baseurl"), Some("https://new.example/ "));
    assert_eq!(status_response_field(&s, "x"), None);
}

#[test]
fn polls_follow_the_report() {
    let ask = |word: &str| {
        poll("id", "ext", &session(), QrStatusReply::Status(status(word)), Ok(())).unwrap()
    };
    let waiting = ask("wait");
    assert!(!waiting.remove_session);
    assert_eq!(waiting.result.message, Some("Waiting for QR scan.".to_string()));
    assert_eq!(waiting.result.qr_image_url, Some("https://img".to_string()));
    let scanned = ask("scaned");
    assert!(!scanned.remove_session);
    assert_eq!(
        scanned.result.message,
        Some("QR code scanned. Confirm login to continue.".to_string())
    );
    let expired = ask("expired");
    assert!(expired.remove_session);
    assert_eq!(expired.result.state, SetupSessionState::Expired);
    let odd = ask("odd");
    assert!(odd.remove_session);
    assert_eq!(odd.result.state, SetupSessionState::Failed);
    assert_eq!(
        odd.result.message,
        Some("Unexpected iLink QR status: odd".to_string())
    );
}

#[test]
fn polls_fail() {
    let fail = |reply: QrStatusReply| poll("id", "ext", &session(), reply, Ok(()));
    assert_eq!(fail(QrStatusReply::NoClient("tls".to_string())), other("tls"));
    assert_eq!(fail(QrStatusReply::NotSent), other("iLink QR status request failed"));
    assert_eq!(
        fail(QrStatusReply::Refused("404 Not Found".to_string())),
        other("iLink QR status request returned 404 Not Found")
    );
    assert_eq!(
        fail(QrStatusReply::Unreadable),
        other("Failed to parse iLink QR status response")
    );
}

#[test]
fn confirmed_sessions_end_with_a_secret() {
    let reply = QrStatusReply::Status(status("confirmed"));
    assert_eq!(
        poll_url_to_check(&session(), &reply),
        Some("https://new.example/".to_string())
    );
    let done = poll("id", "ext", &session(), reply, Ok(())).unwrap();
    assert!(done.remove_session);
    assert_eq!(done.result.state, SetupSessionState::Ready);
    assert_eq!(done.result.account_id, Some("bot-1".to_string()));
    assert_eq!(done.result.expires_at, None);
    assert_eq!(done.result.message, Some("Channel connected.".to_string()));
    let completion = done.completion.unwrap();
    assert_eq!(completion.secrets.len(), 1);
    assert_eq!(completion.secrets[0].name, "ilink_token");
    assert_eq!(completion.secrets[0].value, "secret");
    assert_eq!(
        completion.runtime_config,
        vec![
            (
                "base_url".to_string(),
                Json::Text("https://new.example".to_string())
            ),
            (" ".to_string(), Json::Text("confirmed".to_string())),
        ]
    );
    assert_eq!(
        completion.metadata,
        vec![("bot".to_string(), Json::Text("bot-1".to_string()))]
    );
}

#[test]
fn every_write_stores_its_own_field() {
    let mut waiting = session();
    waiting.config.metadata_writes = vec![
        ("word".to_string(), "status".to_string()),
        ("bot".to_string(), "ilink_bot_id".to_string()),
        ("again".to_string(), "ilink_bot_id".to_string()),
    ];
    let finish = |session: &IlinkQrSession| {
        poll("id", "ext", session, QrStatusReply::Status(status("confirmed")), Ok(()))
            .unwrap()
            .completion
            .unwrap()
    };
    let mut completion = finish(&waiting);
    waiting.config.metadata_writes.reverse();
    waiting.config.runtime_config_writes.reverse();
    let mut turned = finish(&waiting);
    for c in [&mut completion, &mut turned] {
        c.metadata.sort_by(|a, b| a.0.cmp(&b.0));
        c.runtime_config.sort_by(|a, b| a.0.cmp(&b.0));
    }
    assert_eq!(completion.metadata, turned.metadata);
    assert_eq!(completion.runtime_config, turned.runtime_config);
    assert_eq!(
        completion.metadata,
        vec![
            ("again".to_string(), Json::Text("bot-1".to_string())),
            ("bot".to_string(), Json::Text("bot-1".to_string())),
            ("word".to_string(), Json::Text("confirmed".to_string())),
        ]
    );
}

#[test]
fn confirmed_sessions_need_a_token_and_a_good_address() {
    let mut no_token = status("confirmed");
    no_token.bot_token = Some(" ".to_string());
    assert_eq!(
        poll_url_to_check(&session(), &QrStatusReply::Status(status("wait"))),
        None
    );
    assert_eq!(
        confirmed_result("id", "ext", &session(), no_token, Ok(())),
        other("iLink login confirmed but server did not return a bot token")
    );
    let mut plain = status("confirmed");
    plain.baseurl = Some("http://new.example".to_string());
    assert_eq!(
        confirmed_result("id", "ext", &session(), plain, Ok(())),
        other("setup base URL must use HTTPS")
    );
    assert_eq!(
        confirmed_result(
            "id",
            "ext",
            &session(),
            status("confirmed"),
            Err("private".to_string())
        ),
        other("SSRF blocked: private")
    );
}
