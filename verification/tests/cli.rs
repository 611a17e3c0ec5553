use lmt::cli::errors::{
    doctor_exit_code, doctor_outcome, exit_code_for_status, unkept_credential, CliError,
};
use lmt::cli::files::{belongs, bundle, bundle_path, prepare};
use lmt::cli::logs::{chunk_line, Chunk, LogStream};
use lmt::cli::output::render;
use lmt::cli::query::{query_fits, with_query};
use lmt::cli::requests::{request, Command, Payload, RunFilter};
use lmt::cli::settings::{ClientSettings, ClientToml, OutputMode, SettingsFile};
use lmt::domain::config::BundleFile;
use lmt::domain::schedule::RunTrigger;
use lmt::protocol::DoctorResponse;

#[test]
fn documented_http_exit_categories_are_stable() {
    assert_eq!(exit_code_for_status(401), 3);
    assert_eq!(exit_code_for_status(404), 4);
    assert_eq!(exit_code_for_status(409), 5);
    assert_eq!(exit_code_for_status(503), 7);
}

#[test]
fn unhealthy_doctor_has_documented_exit_code() {
    assert_eq!(doctor_exit_code(&DoctorResponse { healthy: false, checks: vec![] }), 8);
    assert_eq!(doctor_exit_code(&DoctorResponse { healthy: true, checks: vec![] }), 0);
}

#[test]
fn an_unhealthy_diagnosis_ends_the_command() {
    assert_eq!(doctor_outcome(&DoctorResponse { healthy: true, checks: vec![] }), Ok(()));
    assert_eq!(
        doctor_outcome(&DoctorResponse { healthy: false, checks: vec![] }),
        Err(CliError { exit_code: 8, message: "doctor found unhealthy conditions".into() })
    );
}

#[test]
fn json_output_is_machine_readable_and_human_output_is_compact() {
    let input = br#"{"runs_pending":2,"healthy":true}"#;
    let json = render(input, OutputMode::Json);
    assert_eq!(serde_json::from_str::<serde_json::Value>(&json).expect("machine JSON")["runs_pending"], 2);
    assert!(json.contains('\n'));
    let human = render(input, OutputMode::Human);
    assert!(human.contains("runs_pending\t2"));
    assert!(human.contains("healthy\ttrue"));
}

#[test]
fn rows_values_and_plain_text_are_printed() {
    assert_eq!(render(br#"[{"a": 1}, "two"]"#, OutputMode::Human), "{\"a\":1}\ntwo");
    assert_eq!(render(b"\"text\"", OutputMode::Human), "text");
    assert_eq!(render(b"12", OutputMode::Human), "12");
    assert_eq!(render(b"[]", OutputMode::Human), "");
    assert_eq!(render(b"not json", OutputMode::Human), "not json");
    assert_eq!(render(b"say \"hi\"", OutputMode::Json), "\"say \\\"hi\\\"\"");
    assert_eq!(render(b"a\xff", OutputMode::Human), "a\u{fffd}");
}

#[test]
fn flags_override_visible_client_toml() {
    let file = || {
        SettingsFile::Read(Ok(ClientToml {
            server: "http://file".into(),
            token_file: "/file-token".into(),
            output: Some(OutputMode::Json),
        }))
    };
    let resolved = ClientSettings::resolve(
        file(),
        true,
        Some("http://flag".into()),
        Some("/flag-token".into()),
        Some(OutputMode::Human),
    )
    .expect("resolve");
    assert_eq!(resolved.server, "http://flag");
    assert_eq!(resolved.token_file, "/flag-token");
    assert!(matches!(resolved.output, OutputMode::Human));
    let filed = ClientSettings::resolve(file(), true, None, None, None).expect("resolve");
    assert_eq!(
        filed,
        ClientSettings { server: "http://file".into(), token_file: "/file-token".into(), output: OutputMode::Json }
    );
}

#[test]
fn settings_need_a_token_and_a_readable_file() {
    let missing = |missing: bool| SettingsFile::Unread {
        path: "/c.toml".into(),
        missing,
        error: "no such file".into(),
    };
    let local = ClientSettings::resolve(missing(true), false, None, Some("/t".into()), None).expect("resolve");
    assert_eq!(local.server, "http://127.0.0.1:8080");
    assert_eq!(local.base(), "http://127.0.0.1:8080/api/v1alpha1");
    assert_eq!(
        ClientSettings::resolve(missing(true), true, None, None, None),
        Err("read /c.toml: no such file".into())
    );
    assert_eq!(
        ClientSettings::resolve(missing(false), false, None, None, None),
        Err("read /c.toml: no such file".into())
    );
    assert_eq!(
        ClientSettings::resolve(SettingsFile::Read(Err("bad".into())), true, None, None, None),
        Err("bad".into())
    );
    assert_eq!(
        ClientSettings::resolve(SettingsFile::Nowhere, false, None, None, None),
        Err("token_file is required in client TOML or --token-file".into())
    );
    let slashed = ClientSettings { server: "http://x//".into(), token_file: String::new(), output: OutputMode::Human };
    assert_eq!(slashed.base(), "http://x/api/v1alpha1");
}

#[test]
fn failed_local_credential_publication_revokes_or_gives_manual_cleanup_id() {
    for cleanup_confirmed in [true, false] {
        let error = unkept_credential("credential-a", "File exists", cleanup_confirmed);
        assert!(error.message.contains("credential-a"));
        assert!(!error.message.contains("raw_secret"));
        assert_eq!(error.message.contains("manually revoke"), !cleanup_confirmed);
        assert_eq!(error.exit_code, 2);
    }
}

#[test]
fn errors_carry_their_category() {
    assert_eq!(CliError::local("a".into()).exit_code, 2);
    assert_eq!(CliError::transport("a".into()).exit_code, 6);
    assert_eq!(CliError::unreadable("a".into()).exit_code, 7);
    assert_eq!(
        CliError::refused(404, "404 Not Found", "gone"),
        CliError { exit_code: 4, message: "server returned 404 Not Found: gone".into() }
    );
}

#[test]
fn completed_logs_stream_every_chunk_with_bounded_callback_memory() {
    let log = vec![b'x'; 1024 * 1024 + 17];
    let mut stream = LogStream::begin("http://h/api/v1alpha1", "run-a", None, false);
    let (mut total, mut max_chunk, mut chunks) = (0, 0, 0);
    loop {
        assert!(stream.fits());
        let address = stream.next_address().expect("address");
        assert_eq!(
            address,
            format!("http://h/api/v1alpha1/runs/run-a/logs?offset={}&limit=65536", stream.offset)
        );
        let start = stream.offset as usize;
        let end = (start + 65_536).min(log.len());
        let complete = if end == log.len() { "true" } else { "false" };
        let chunk = stream.take(Some(&end.to_string()), Some(complete), end - start).expect("chunk");
        total += end - start;
        max_chunk = max_chunk.max(end - start);
        chunks += 1;
        if chunk.last {
            break;
        }
    }
    assert_eq!(total, log.len());
    assert!(chunks > 1);
    assert!(max_chunk <= 65_536);
}

#[test]
fn log_answers_must_say_where_they_end() {
    let mut stream = LogStream::begin("http://h", "r", Some(2), true);
    assert_eq!(
        stream.next_address().expect("address"),
        "http://h/runs/r/logs?offset=0&limit=65536&wait=20s&attempt=2"
    );
    for next in [None, Some("x")] {
        assert_eq!(
            stream.take(next, None, 0).expect_err("offset").message,
            "log response omitted a valid next offset"
        );
    }
    assert_eq!(
        stream.take(Some("4"), None, 3).expect_err("length").message,
        "log response offset did not match its chunk length"
    );
    assert!(!stream.take(Some("0"), None, 0).expect("waiting").last);
    let mut plain = LogStream::begin("http://h", "r", None, false);
    assert!(plain.take(Some("0"), None, 0).expect("nothing").last);
    let broken = LogStream::begin("no address", "r", None, false);
    assert_eq!(broken.next_address().expect_err("address").exit_code, 2);
}

#[test]
fn commands_are_requests() {
    let base = "http://h/api/v1alpha1";
    let sent = |command: Command| {
        assert!(command.fits(base));
        let request = request(base, command).expect("request");
        (request.address.strip_prefix(base).expect("base").to_owned(), request.payload)
    };
    let files = || vec![BundleFile { path: "a".into(), contents: "b".into() }];
    let (address, payload) = sent(Command::ConfigValidate { files: files() });
    assert_eq!(address, "/config/validate");
    assert!(matches!(payload, Payload::Files(request) if request.files == files()));
    assert_eq!(sent(Command::ConfigPlan { files: files() }).0, "/config/plan");
    let (address, payload) =
        sent(Command::ConfigApply { files: files(), base_revision: 3, acknowledge_moves: true });
    assert_eq!(address, "/config/apply");
    assert!(matches!(payload, Payload::Apply(request) if request.base_revision == 3 && request.acknowledge_moves));
    assert_eq!(sent(Command::MirrorList), ("/mirrors".into(), Payload::Get));
    assert_eq!(sent(Command::MirrorShow { name: "m".into() }), ("/mirrors/m".into(), Payload::Get));
    let (address, payload) = sent(Command::MirrorSync { name: "m".into(), request_id: "r".into() });
    assert_eq!(address, "/mirrors/m/runs");
    assert!(matches!(
        payload,
        Payload::Manual(request) if request.request_id == "r" && request.trigger == RunTrigger::Manual
    ));
    assert_eq!(sent(Command::NodeList), ("/nodes".into(), Payload::Get));
    assert_eq!(sent(Command::NodeShow { name: "n".into() }), ("/nodes/n".into(), Payload::Get));
    let (address, payload) = sent(Command::BindingReplace {
        name: "n".into(),
        agent_id: "a".into(),
        acknowledge_execution_risk: true,
    });
    assert_eq!(address, "/nodes/n/binding");
    assert!(matches!(payload, Payload::Binding(request) if request.agent_id == "a"));
    let (address, payload) = sent(Command::CredentialIssue { name: "n".into(), label: Some("l".into()) });
    assert_eq!(address, "/nodes/n/credentials");
    assert!(matches!(payload, Payload::Issue(request) if request.label.as_deref() == Some("l")));
    assert_eq!(sent(Command::CredentialList { name: "n".into() }), ("/nodes/n/credentials".into(), Payload::Get));
    assert_eq!(
        sent(Command::CredentialRevoke { name: "n".into(), id: "i".into() }),
        ("/nodes/n/credentials/i/revoke".into(), Payload::Empty)
    );
    assert_eq!(sent(Command::RunShow { id: "i".into() }), ("/runs/i".into(), Payload::Get));
    assert_eq!(sent(Command::RunCancel { id: "i".into() }), ("/runs/i/cancel".into(), Payload::Empty));
    assert_eq!(sent(Command::LogsPlan), ("/maintenance/logs/plan".into(), Payload::Get));
    assert_eq!(sent(Command::LogsRun), ("/maintenance/logs/run".into(), Payload::Empty));
    assert_eq!(sent(Command::BackupCreate), ("/backups".into(), Payload::Empty));
    assert_eq!(sent(Command::BackupList), ("/backups".into(), Payload::Get));
    assert_eq!(sent(Command::BackupVerify { id: "i".into() }), ("/backups/i/verify".into(), Payload::Empty));
    assert_eq!(sent(Command::Status), ("/status".into(), Payload::Get));
    assert_eq!(sent(Command::Doctor), ("/doctor".into(), Payload::Get));
    let filter = RunFilter {
        mirror: Some("a b&c".into()),
        node: None,
        state: Some("failed".into()),
        trigger: None,
        limit: Some(5),
        before: Some("x".into()),
    };
    assert_eq!(sent(Command::RunList { filter }).0, "/runs?mirror=a+b%26c&state=failed&limit=5&before=x");
}

#[test]
fn addresses_must_parse() {
    assert!(query_fits("http://h", &vec![]));
    assert_eq!(with_query("http://h/runs", &vec![]), Ok("http://h/runs?".into()));
    assert_eq!(
        with_query("http://h/runs?x=1", &vec![("y".into(), "é".into())]),
        Ok("http://h/runs?x=1&y=%C3%A9".into())
    );
    assert_eq!(with_query("relative", &vec![]).expect_err("relative").message, "relative URL without a base");
}

#[test]
fn configuration_files_are_sent_by_path() {
    let file = |path: &str| BundleFile { path: path.into(), contents: String::new() };
    let sorted = bundle(vec![file("b"), file("a/c"), file("a")]);
    assert_eq!(sorted.iter().map(|file| file.path.as_str()).collect::<Vec<_>>(), ["a", "a/c", "b"]);
    assert!(belongs("/c/nodes/x.toml"));
    assert!(!belongs("/c/nodes/toml"));
    assert_eq!(bundle_path("nodes\\a\\b.toml"), "nodes/a/b.toml");
}

#[test]
fn secrets_are_never_overwritten() {
    assert_eq!(prepare("/d/t", false, true, "ID"), Ok("/d/.lmt-token-ID.tmp".into()));
    assert_eq!(
        prepare("/d/t", true, true, "ID"),
        Err("refusing to overwrite existing token file /d/t".into())
    );
    assert_eq!(prepare("/", false, true, "ID"), Err("token file has no parent".into()));
    assert_eq!(
        prepare("/d/t", false, false, "ID"),
        Err("token file parent does not exist or is not a directory: /d".into())
    );
}

#[test]
fn parts_of_a_log_are_shown_as_json_lines() {
    let chunk = Chunk { offset: 7, next: 11, complete: false, last: false };
    assert_eq!(
        chunk_line(chunk, b"a\"\n\xff"),
        "{\"complete\":false,\"data\":\"a\\\"\\n\u{fffd}\",\"next_offset\":11,\"offset\":7}"
    );
    let last = Chunk { offset: 11, next: u64::MAX, complete: true, last: true };
    let line: serde_json::Value = serde_json::from_str(&chunk_line(last, "\u{e9}\u{0}".as_bytes())).expect("json");
    assert_eq!(line["offset"], 11);
    assert_eq!(line["next_offset"], u64::MAX);
    assert_eq!(line["complete"], true);
    assert_eq!(line["data"], "\u{e9}\u{0}");
    assert_eq!(chunk_line(last, "\u{e9}\u{0}".as_bytes()), line.to_string());
}
