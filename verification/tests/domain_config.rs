use lmt::domain::bundle::canonicalize_bundle;
use lmt::domain::compile::{compile_process_run_spec, RunSpecContext};
use lmt::domain::config::{
    atomic_rsync_long_option, canonicalize_file, locate_bundle_file, publication_mode_from_toml, seal_mirror,
    validate_atomic_rsync_args, validate_document, validate_placeholders, AtomicRsyncOptionKind, BundleFile,
    CanonicalBundle, CanonicalMirror, ConfigBundle, ConfigError, MirrorConfig, MirrorDocument, ProcessRunner,
    PublicationConfig, PublicationMode, RunPolicy, SyncConfig,
};
use lmt::domain::ids::{AttemptNo, MirrorName, NodeName, RunId};
use lmt::domain::schedule::ScheduleConfig;

fn text(table: &toml::Table, key: &str) -> Option<String> {
    table.get(key).and_then(|value| value.as_str()).map(str::to_owned)
}

fn texts(table: &toml::Table, key: &str) -> Vec<String> {
    match table.get(key).and_then(|value| value.as_array()) {
        Some(values) => values.iter().map(|value| value.as_str().expect("text").to_owned()).collect(),
        None => Vec::new(),
    }
}

fn document(source: &str) -> Result<MirrorDocument, String> {
    let table: toml::Table = source.parse().map_err(|error: toml::de::Error| error.to_string())?;
    let mirror = table.get("mirror").and_then(|value| value.as_table()).ok_or("missing mirror")?;
    let sync = table.get("sync").and_then(|value| value.as_table()).ok_or("missing sync")?;
    let name = MirrorName::new(&text(mirror, "name").ok_or("missing name")?).map_err(|error| error.message())?;
    let schedule = table.get("schedule").and_then(|value| value.as_table()).map(|schedule| {
        match text(schedule, "interval") {
            Some(interval) => ScheduleConfig::Interval { interval },
            None => ScheduleConfig::Cron {
                cron: text(schedule, "cron").expect("cron"),
                timezone: text(schedule, "timezone").expect("timezone"),
            },
        }
    });
    let mut run = RunPolicy::default();
    if let Some(policy) = table.get("run").and_then(|value| value.as_table()) {
        if let Some(value) = policy.get("timeout_seconds").and_then(|value| value.as_integer()) {
            run.timeout_seconds = value as u64;
        }
        if let Some(value) = policy.get("max_attempts").and_then(|value| value.as_integer()) {
            run.max_attempts = value as u32;
        }
        if let Some(value) = policy.get("retry_delay_seconds").and_then(|value| value.as_integer()) {
            run.retry_delay_seconds = value as u64;
        }
    }
    Ok(MirrorDocument {
        mirror: MirrorConfig {
            name,
            enabled: mirror.get("enabled").and_then(|value| value.as_bool()).unwrap_or(true),
            description: text(mirror, "description").unwrap_or_default(),
            target: text(mirror, "target").ok_or("missing target")?,
        },
        schedule,
        sync: if text(sync, "type").as_deref() == Some("rsync") {
            SyncConfig::Rsync { source: text(sync, "source").ok_or("missing source")?, args: texts(sync, "args") }
        } else {
            SyncConfig::Command {
                program: text(sync, "program").ok_or("missing program")?,
                args: texts(sync, "args"),
                cwd: text(sync, "cwd"),
            }
        },
        publication: table.get("publication").and_then(|value| value.as_table()).map(|publication| {
            PublicationConfig {
                mode: if text(publication, "mode").as_deref() == Some("atomic") {
                    PublicationMode::Atomic
                } else {
                    PublicationMode::Direct
                },
            }
        }),
        runner: ProcessRunner::default(),
        run,
    })
}

fn canonical_form(document: &MirrorDocument) -> String {
    let mut mirror = toml::Table::new();
    mirror.insert("name".into(), document.mirror.name.as_str().into());
    mirror.insert("target".into(), document.mirror.target.as_str().into());
    let mut table = toml::Table::new();
    table.insert("mirror".into(), mirror.into());
    if let Some(ScheduleConfig::Interval { interval }) = &document.schedule {
        let mut schedule = toml::Table::new();
        schedule.insert("interval".into(), interval.as_str().into());
        table.insert("schedule".into(), schedule.into());
    }
    let mut sync = toml::Table::new();
    match &document.sync {
        SyncConfig::Command { program, .. } => sync.insert("program".into(), program.as_str().into()),
        SyncConfig::Rsync { source, .. } => sync.insert("source".into(), source.as_str().into()),
    };
    table.insert("sync".into(), sync.into());
    table.to_string()
}

fn mirror_of(file: &BundleFile) -> Result<CanonicalMirror, ConfigError> {
    let (node, document) = canonicalize_file(file, document(&file.contents))?;
    let written = canonical_form(&document);
    seal_mirror(file, node, document, Ok(written))
}

fn canonicalize(bundle: &ConfigBundle) -> Result<CanonicalBundle, Vec<ConfigError>> {
    canonicalize_bundle(bundle.files.iter().map(mirror_of).collect())
}

fn bundle(contents: &str) -> ConfigBundle {
    ConfigBundle {
        files: vec![BundleFile { path: "nodes/node-a/mirrors/example.toml".into(), contents: contents.into() }],
    }
}

#[test]
fn canonicalization_ignores_formatting() {
    let a = canonicalize(&bundle(
        "[mirror]\nname='example'\ntarget='example'\n[sync]\ntype='command'\nprogram='/bin/true'\n",
    ))
    .expect("valid");
    let b = canonicalize(&bundle(
        "[mirror]\nname = \"example\"\ntarget = \"example\"\n\n[sync]\ntype = \"command\"\nprogram = \"/bin/true\"\n",
    ))
    .expect("valid");
    assert_eq!(a.bundle_hash, b.bundle_hash);
    assert_eq!(a.bundle_hash.len(), 71);
}

#[test]
fn target_traversal_is_rejected() {
    let errors = canonicalize(&bundle(
        "[mirror]\nname='example'\ntarget='../outside'\n[sync]\ntype='command'\nprogram='/bin/true'\n",
    ))
    .expect_err("unsafe");
    assert!(matches!(errors[0], ConfigError::UnsafeTarget(_)));
}

#[test]
fn empty_target_and_malformed_placeholders_are_rejected() {
    for contents in [
        "[mirror]\nname='example'\ntarget=''\n[sync]\ntype='command'\nprogram='/bin/true'\n",
        "[mirror]\nname='example'\ntarget='example'\n[sync]\ntype='command'\nprogram='/bin/{unknown}'\n",
        "[mirror]\nname='example'\ntarget='example'\n[sync]\ntype='command'\nprogram='/bin/true}'\n",
    ] {
        assert!(canonicalize(&bundle(contents)).is_err());
    }
}

#[test]
fn schedule_and_retry_policy_are_strict_and_canonical() {
    let first = canonicalize(&bundle(
        "[mirror]\nname='example'\ntarget='example'\n[schedule]\ninterval='60m'\n[sync]\ntype='command'\nprogram='/bin/true'\n[run]\nmax_attempts=10\nretry_delay_seconds=86400\n",
    ))
    .expect("valid");
    let equivalent = canonicalize(&bundle(
        "[mirror]\nname='example'\ntarget='example'\n[schedule]\ninterval='1h'\n[sync]\ntype='command'\nprogram='/bin/true'\n[run]\nmax_attempts=10\nretry_delay_seconds=86400\n",
    ))
    .expect("valid");
    assert_eq!(first.bundle_hash, equivalent.bundle_hash);

    for run in ["max_attempts=0\n", "max_attempts=11\n", "retry_delay_seconds=86401\n"] {
        assert!(canonicalize(&bundle(&format!(
            "[mirror]\nname='example'\ntarget='example'\n[sync]\ntype='command'\nprogram='/bin/true'\n[run]\n{run}"
        )))
        .is_err());
    }
}

#[test]
fn rsync_compiles_to_the_generic_process_runner() {
    let canonical = canonicalize(&bundle(
        "[mirror]\nname='example'\ntarget='example'\n[sync]\ntype='rsync'\nsource='local/source/'\nargs=['--archive','--delete']\n",
    ))
    .expect("valid");
    let document = &canonical.mirrors.first().expect("mirror").document;
    let mirror = MirrorName::new("example").expect("name");
    let node = NodeName::new("node-a").expect("node");
    let spec = compile_process_run_spec(
        document,
        &RunSpecContext {
            mirror_name: &mirror,
            run_id: RunId::new(),
            attempt_no: AttemptNo::new(1).expect("attempt"),
            node_name: &node,
            mirror_root: "/srv/mirrors",
            publication_root: None,
        },
    )
    .expect("compile direct spec");
    assert_eq!(spec.program, "rsync");
    assert_eq!(spec.args, ["--archive", "--delete", "--", "local/source/", "/srv/mirrors/example/"]);
    assert_eq!(spec.publication, None);
}

#[test]
fn atomic_config_compiles_a_fresh_private_candidate_and_published_placeholder() {
    let canonical = canonicalize(&bundle(
        "[mirror]\nname='example'\ntarget='example'\n[sync]\ntype='command'\nprogram='/bin/sync'\nargs=['{target_dir}','{published_dir}']\n[publication]\nmode='atomic'\n",
    ))
    .expect("valid Atomic config");
    let document = &canonical.mirrors.first().expect("mirror").document;
    let mirror = MirrorName::new("example").expect("name");
    let node = NodeName::new("node-a").expect("node");
    let run_id = RunId::new();
    let context = RunSpecContext {
        mirror_name: &mirror,
        run_id,
        attempt_no: AttemptNo::new(2).expect("attempt"),
        node_name: &node,
        mirror_root: "/srv/mirrors",
        publication_root: Some("/srv/publication"),
    };
    let spec = compile_process_run_spec(document, &context).expect("compile Atomic spec");
    let publication = spec.publication.as_ref().expect("publication extension");
    assert_eq!(publication.published_dir, "/srv/mirrors/example");
    assert_eq!(spec.target_dir, publication.candidate_dir);
    assert_eq!(spec.args, [publication.candidate_dir.as_str(), "/srv/mirrors/example"]);
    assert!(publication.candidate_dir.ends_with(&format!("{}-2/root", run_id.to_text())));
    assert_eq!(publication.exchange_dir, "/srv/publication/example/exchange");
    assert_eq!(publication.gc_dir, "/srv/publication/example/gc");

    let rootless = RunSpecContext { publication_root: None, ..context };
    assert_eq!(compile_process_run_spec(document, &rootless), Err(ConfigError::MissingPublicationRoot));
}

#[test]
fn same_node_targets_cannot_overlap_but_cross_node_targets_may_match() {
    for second_target in ["archive", "archive/pool"] {
        let overlapping = ConfigBundle {
            files: vec![
                BundleFile {
                    path: "nodes/node-a/mirrors/first.toml".into(),
                    contents: "[mirror]\nname='first'\ntarget='archive'\n[sync]\ntype='command'\nprogram='/bin/true'\n"
                        .into(),
                },
                BundleFile {
                    path: "nodes/node-a/mirrors/second.toml".into(),
                    contents: format!(
                        "[mirror]\nname='second'\ntarget='{second_target}'\n[sync]\ntype='command'\nprogram='/bin/true'\n"
                    ),
                },
            ],
        };
        assert!(canonicalize(&overlapping)
            .expect_err("overlap")
            .iter()
            .any(|error| matches!(error, ConfigError::TargetOverlap { .. })));
    }

    let separate_nodes = ConfigBundle {
        files: vec![
            BundleFile {
                path: "nodes/node-a/mirrors/first.toml".into(),
                contents: "[mirror]\nname='first'\ntarget='archive'\n[sync]\ntype='command'\nprogram='/bin/true'\n"
                    .into(),
            },
            BundleFile {
                path: "nodes/node-b/mirrors/second.toml".into(),
                contents: "[mirror]\nname='second'\ntarget='archive'\n[sync]\ntype='command'\nprogram='/bin/true'\n"
                    .into(),
            },
        ],
    };
    assert!(canonicalize(&separate_nodes).is_ok());
}

#[test]
fn atomic_rsync_profile_is_allowlisted_and_rejects_history_or_owned_options() {
    let accepted = [
        "-aH",
        "--numeric-ids",
        "--exclude=tmp/***",
        "--files-from",
        "manifest.txt",
        "--bwlimit=10m",
        "--timeout",
        "60",
        "--checksum",
        "--stats",
    ]
    .map(str::to_owned);
    validate_atomic_rsync_args(&accepted).expect("audited profile");

    for option in ["--delete", "--inplace", "--link-dest=/old", "--mystery", "-an", "source/"] {
        let error = validate_atomic_rsync_args(&[option.into()]).expect_err("rejected option");
        assert!(matches!(error, ConfigError::AtomicRsyncOption { .. }));
    }
    assert!(
        validate_atomic_rsync_args(&["--timeout".into(), "--delete".into()]).is_err(),
        "an option requiring a value consumed a rejected option"
    );
}

#[test]
fn every_error_of_a_bundle_file_is_told() {
    let plain = "[mirror]\nname='example'\ntarget='example'\n[sync]\ntype='command'\nprogram='/bin/true'\n";
    let at = |path: &str, contents: &str| mirror_of(&BundleFile { path: path.into(), contents: contents.into() });
    for path in ["example.toml", "nodes/node-a/mirrors/example.json", "nodes/bad name/mirrors/example.toml"] {
        let error = at(path, plain).expect_err("path");
        assert_eq!(error, ConfigError::InvalidPath { path: path.into() });
        assert_eq!(
            error.message(),
            format!("invalid bundle path {path:?}: expected nodes/<node>/mirrors/<name>.toml")
        );
    }
    let path = "nodes/node-a/mirrors/example.toml";
    assert!(matches!(at(path, "[mirror"), Err(ConfigError::InvalidToml { .. })));
    let other = at("nodes/node-a/mirrors/other.toml", plain).expect_err("stem");
    assert_eq!(other.message(), "mirror file stem \"other\" does not match mirror.name example");
    let empty = plain.replace("/bin/true", "");
    assert_eq!(at(path, &empty), Err(ConfigError::EmptyProgram));
    let timeout = format!("{plain}[run]\ntimeout_seconds=0\n");
    assert_eq!(at(path, &timeout), Err(ConfigError::InvalidTimeout));
    let attempts = format!("{plain}[run]\nmax_attempts=11\n");
    assert_eq!(at(path, &attempts), Err(ConfigError::InvalidMaxAttempts));
    let delay = format!("{plain}[run]\nretry_delay_seconds=86401\n");
    assert_eq!(at(path, &delay), Err(ConfigError::InvalidRetryDelay));
    let schedule = format!("{plain}[schedule]\ninterval='59s'\n");
    assert_eq!(
        at(path, &schedule).expect_err("schedule").message(),
        "invalid schedule: interval must be between 1m and 365d"
    );
    let rsync = "[mirror]\nname='example'\ntarget='example'\n[sync]\ntype='rsync'\nsource=''\n";
    assert_eq!(at(path, rsync), Err(ConfigError::EmptyRsyncSource));
    let twice = canonicalize_bundle(vec![at(path, plain), at("nodes/node-b/mirrors/example.toml", plain)]);
    assert!(twice
        .expect_err("duplicate")
        .iter()
        .any(|error| matches!(error, ConfigError::DuplicateMirror { name } if name.as_str() == "example")));
    let located = locate_bundle_file(path).expect("path");
    assert_eq!((located.0.as_str(), located.1.as_str()), ("node-a", "example"));
}

#[test]
fn a_failed_write_and_a_damaged_generation_are_told() {
    let file = BundleFile {
        path: "nodes/node-a/mirrors/example.toml".into(),
        contents: "[mirror]\nname='example'\ntarget='example'\n[sync]\ntype='command'\nprogram='/bin/true'\n".into(),
    };
    let (node, canonical) = canonicalize_file(&file, document(&file.contents)).expect("valid");
    let error = seal_mirror(&file, node, canonical, Err("no".into())).expect_err("unwritten");
    assert_eq!(error.message(), "invalid TOML in nodes/node-a/mirrors/example.toml: no");
    let damaged = publication_mode_from_toml(&Err("bad".into())).expect_err("damaged");
    assert_eq!(damaged.message(), "invalid TOML in <stored mirror generation>: bad");
    assert_eq!(publication_mode_from_toml(&document(&file.contents)), Ok(PublicationMode::Direct));
}

#[test]
fn the_order_of_files_does_not_change_a_bundle() {
    let file = |name: &str, target: &str| BundleFile {
        path: format!("nodes/node-a/mirrors/{name}.toml"),
        contents: format!(
            "[mirror]\nname='{name}'\ntarget='{target}'\n[sync]\ntype='command'\nprogram='/bin/true'\n"
        ),
    };
    let forth = canonicalize(&ConfigBundle { files: vec![file("b", "bb"), file("a", "aa")] }).expect("valid");
    let back = canonicalize(&ConfigBundle { files: vec![file("a", "aa"), file("b", "bb")] }).expect("valid");
    assert_eq!(forth.bundle_hash, back.bundle_hash);
    assert_eq!(forth.mirrors[0].document.mirror.name.as_str(), "a");
}

#[test]
fn placeholders_are_checked_one_after_the_other() {
    assert_eq!(validate_placeholders("a{run_id}b{target_dir}"), Ok(()));
    assert_eq!(
        validate_placeholders("{run_id}{open"),
        Err(ConfigError::UnsupportedPlaceholder("open".into()))
    );
    assert_eq!(validate_placeholders("a}b"), Err(ConfigError::UnsupportedPlaceholder("}b".into())));
    assert_eq!(
        validate_placeholders("{other}").expect_err("unknown").message(),
        "unsupported placeholder other"
    );
    assert_eq!(atomic_rsync_long_option("stats"), Some(AtomicRsyncOptionKind::Flag));
    assert_eq!(atomic_rsync_long_option("timeout"), Some(AtomicRsyncOptionKind::Value));
    assert!(matches!(atomic_rsync_long_option("delete"), Some(AtomicRsyncOptionKind::Rejected(_))));
    assert_eq!(atomic_rsync_long_option("mystery"), None);
    let atomic = "[mirror]\nname='example'\ntarget='example'\n[sync]\ntype='rsync'\nsource='s/'\nargs=['--delete']\n[publication]\nmode='atomic'\n";
    assert!(matches!(
        validate_document(&document(atomic).expect("document")),
        Err(ConfigError::AtomicRsyncOption { .. })
    ));
}

#[test]
fn further_rsync_arguments_are_judged_by_themselves() {
    let list = |args: &[&str]| args.iter().map(|&argument| argument.to_owned()).collect::<Vec<String>>();
    let accepted = list(&["-avH", "--timeout", "30", "--exclude=*.tmp"]);
    assert_eq!(validate_atomic_rsync_args(&accepted), Ok(()));
    for more in [&["--delete"][..], &["-z"], &["--inplace"], &["source"], &["--timeout"], &["--unheard-of"], &[]] {
        let more = list(more);
        let all = [accepted.clone(), more.clone()].concat();
        assert_eq!(validate_atomic_rsync_args(&all), validate_atomic_rsync_args(&more), "{more:?}");
    }
}

#[test]
fn attempts_share_no_private_directory() {
    let canonical = canonicalize(&bundle(
        "[mirror]\nname='example'\ntarget='example'\n[sync]\ntype='command'\nprogram='/bin/sync'\n[publication]\nmode='atomic'\n",
    ))
    .expect("valid Atomic config");
    let document = &canonical.mirrors.first().expect("mirror").document;
    let mirror = MirrorName::new("example").expect("name");
    let node = NodeName::new("node-a").expect("node");
    let run_id = RunId::new();
    let publication = |attempt: u32| {
        let context = RunSpecContext {
            mirror_name: &mirror,
            run_id,
            attempt_no: AttemptNo::new(attempt).expect("attempt"),
            node_name: &node,
            mirror_root: "/srv/mirrors",
            publication_root: Some("/srv/publication"),
        };
        compile_process_run_spec(document, &context).expect("spec").publication.expect("publication")
    };
    let (first, second) = (publication(1), publication(2));
    assert_ne!(first.candidate_dir, second.candidate_dir);
    assert_ne!(first.basis_dir, second.basis_dir);
    assert_ne!(first.candidate_dir, first.basis_dir);
    assert_eq!(first.published_dir, second.published_dir);
    assert_eq!(first.exchange_dir, second.exchange_dir);
    assert_eq!(first.gc_dir, second.gc_dir);
    assert_eq!(first.publication_root, second.publication_root);
}
