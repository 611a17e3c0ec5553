use chrono::{DateTime, TimeZone, Utc};
use lmt::domain::ids::{AgentInstanceId, AttemptNo, MirrorName, NodeName, RequestId, RunId};
use lmt::domain::schedule::{
    activate_schedule, decide_retry, evaluate_schedule_due, fingerprint_of, parse_interval, read_duration,
    rearm_interval, DueEvaluation, RetryContext, RetryDecision, ScheduleConfig, ScheduleRuntime,
};
use lmt::domain::state::{
    project_attempt_event, validate_attempt_transition, AttemptEvent, AttemptState, RunState, TransitionError,
};
use lmt::outside::RunIdError;

#[test]
fn names_are_path_and_api_safe() {
    assert!(MirrorName::new("ubuntu-24.04").is_ok());
    for invalid in ["", "../x", "/root", "a/b", " space"] {
        assert!(MirrorName::new(invalid).is_err(), "accepted {invalid:?}");
    }
}

#[test]
fn attempt_numbers_start_at_one() {
    assert!(AttemptNo::new(0).is_err());
    assert_eq!(AttemptNo::new(1).expect("one is valid").get(), 1);
}

#[test]
fn intervals_are_bounded_and_canonical() {
    assert!(ScheduleConfig::Interval { interval: "59s".into() }.validate().is_err());
    assert!(ScheduleConfig::Interval { interval: "366d".into() }.validate().is_err());
    let hour = ScheduleConfig::Interval { interval: "60m".into() }.canonicalized().expect("interval");
    let equivalent = ScheduleConfig::Interval { interval: "1h".into() }.canonicalized().expect("interval");
    assert_eq!(hour, equivalent);
    assert_eq!(hour.semantic_hash(), equivalent.semantic_hash());
    assert_eq!(hour, ScheduleConfig::Interval { interval: "3600s".into() });
}

#[test]
fn strict_cron_and_timezone_validation() {
    for invalid in ["@hourly", "0 0 * *", "0 0 L * *", "0 0 1W * *", "0 0 * * MON#2", "0 0 ? * *"] {
        assert!(
            ScheduleConfig::Cron { cron: invalid.into(), timezone: "UTC".into() }.validate().is_err(),
            "accepted {invalid}"
        );
    }
    assert!(ScheduleConfig::Cron { cron: "15 * * JAN-MAR MON-FRI".into(), timezone: "Asia/Shanghai".into() }
        .validate()
        .is_ok());
}

#[test]
fn cron_dst_gap_and_overlap_follow_contract() {
    let fixed = ScheduleConfig::Cron { cron: "30 2 * * *".into(), timezone: "America/New_York".into() };
    let before_gap = Utc.with_ymd_and_hms(2025, 3, 9, 6, 59, 0).unwrap().timestamp_millis();
    let after_gap = fixed.next_after_ms(before_gap).expect("gap occurrence");
    assert_eq!(
        DateTime::<Utc>::from_timestamp_millis(after_gap).expect("time"),
        Utc.with_ymd_and_hms(2025, 3, 9, 7, 0, 0).unwrap()
    );

    let overlap = ScheduleConfig::Cron { cron: "30 1 * * *".into(), timezone: "America/New_York".into() };
    let before_overlap = Utc.with_ymd_and_hms(2025, 11, 2, 4, 59, 0).unwrap().timestamp_millis();
    let first = overlap.next_after_ms(before_overlap).expect("overlap occurrence");
    assert_eq!(
        DateTime::<Utc>::from_timestamp_millis(first).expect("time"),
        Utc.with_ymd_and_hms(2025, 11, 2, 5, 30, 0).unwrap()
    );
    assert!(
        overlap.next_after_ms(first).expect("next occurrence")
            > Utc.with_ymd_and_hms(2025, 11, 2, 6, 30, 0).unwrap().timestamp_millis()
    );
}

#[test]
fn due_intent_coalesces_and_retry_stays_in_run() {
    let cron = ScheduleConfig::Cron { cron: "* * * * *".into(), timezone: "UTC".into() };
    let runtime = activate_schedule(&cron, 0).expect("activate");
    let first = evaluate_schedule_due(&cron, runtime, 600_000, false).expect("due");
    assert!(first.runtime.catch_up_pending);
    assert_eq!(first.runtime.catch_up_since_ms, Some(60_000));
    let again = evaluate_schedule_due(&cron, first.runtime, 1_200_000, false).expect("coalesce");
    assert_eq!(again.runtime.catch_up_since_ms, Some(60_000));

    assert_eq!(
        decide_retry(RetryContext {
            outcome: AttemptState::Failed,
            attempt_no: 1,
            max_attempts: 3,
            retry_delay_seconds: 5,
            cancel_requested: false,
            mirror_eligible: true,
            owner_unchanged: true,
            server_now_ms: 10_000,
        }),
        RetryDecision::Schedule { retry_due_at_ms: 15_000 }
    );
}

#[test]
fn terminal_attempts_never_regress() {
    for state in [
        AttemptState::Succeeded,
        AttemptState::Failed,
        AttemptState::TimedOut,
        AttemptState::Cancelled,
        AttemptState::Interrupted,
        AttemptState::Rejected,
    ] {
        assert!(!state.allows(AttemptState::Running));
    }
}

#[test]
fn terminal_snapshot_may_skip_running() {
    assert!(AttemptState::Accepted.allows(AttemptState::Succeeded));
    assert!(!AttemptState::Queued.allows(AttemptState::Succeeded));
}

#[test]
fn refused_transitions_are_named() {
    assert_eq!(
        validate_attempt_transition(AttemptState::Succeeded, AttemptState::Running),
        Err(TransitionError { from: AttemptState::Succeeded, to: AttemptState::Running })
    );
    assert_eq!(validate_attempt_transition(AttemptState::Queued, AttemptState::Accepted), Ok(()));
    let event = AttemptEvent {
        event_sequence: 1,
        state: AttemptState::TimedOut,
        agent_instance_id: "agent".into(),
        accepted_at_ms: Some(1),
        started_at_ms: Some(2),
        finished_at_ms: Some(3),
        exit_code: None,
        failure_kind: None,
        failure_message: None,
    };
    let projection = project_attempt_event(AttemptState::Queued, &event).expect("skipped reports");
    assert_eq!(projection.run_state, Some(RunState::TimedOut));
    assert_eq!(projection.run_started_at_ms, Some(2));
    assert_eq!(projection.run_finished_at_ms, Some(3));
    assert!(project_attempt_event(AttemptState::Rejected, &event).is_err());
}

#[test]
fn run_identifiers_round_trip() {
    let id = RunId::new();
    let text = id.to_text();
    assert_eq!(text.len(), 26);
    assert_eq!(RunId::parse(&text), Ok(id));
    assert_eq!(RunId::parse(&text.to_lowercase()), Ok(id));
    assert_ne!(RunId::new(), id);
    assert_eq!(RunId::parse("short"), Err(RunIdError::InvalidLength));
    assert_eq!(RunId::parse("01K0000000000000000000000U"), Err(RunIdError::InvalidChar));
    assert_eq!(RunId::parse("01K00000000000000000000001").expect("valid").to_text(), "01K00000000000000000000001");
}

#[test]
fn refused_identifiers_name_their_kind() {
    assert_eq!(NodeName::new("a b").expect_err("space").message(), "invalid node name: \"a b\"");
    assert!(AgentInstanceId::new("").is_err());
    assert!(RequestId::new("").is_err());
    assert_eq!(RequestId::new("request-1").expect("valid").as_str(), "request-1");
}

#[test]
fn fingerprints_are_of_the_bytes() {
    assert_eq!(
        fingerprint_of(b"abc"),
        "sha256:ba7816bf8f01cfea414140de5dae2223b00361a396177a9cb410ff61f20015ad"
    );
}

#[test]
fn schedules_tell_what_is_wrong_with_them() {
    let cron = |cron: &str, zone: &str| ScheduleConfig::Cron { cron: cron.into(), timezone: zone.into() };
    assert_eq!(cron("0 0 * *", "UTC").validate(), Err("cron must contain exactly five fields".into()));
    assert_eq!(cron("0 0 * * *", "Mars").validate(), Err("unknown IANA timezone \"Mars\"".into()));
    assert!(cron("99 0 * * *", "UTC").validate().is_err());
    assert_eq!(parse_interval("1m 1ms"), Err("interval must use whole seconds".into()));
    assert_eq!(parse_interval("2h"), Ok(7200));
    assert!(parse_interval("soon").is_err());
    assert_eq!(parse_interval("1000000000000s"), Err("interval must be between 1m and 365d".into()));
    let hour = ScheduleConfig::Interval { interval: "1h".into() };
    assert_eq!(hour.interval_seconds(), Some(3600));
    assert_eq!(hour.next_after_ms(1_000), Ok(3_601_000));
    assert_eq!(hour.next_after_ms(i64::MAX), Err("interval timestamp overflow".into()));
    assert_eq!(rearm_interval(&hour, 4_000_000), Ok(Some(7_600_000)));
    let minutely = cron("* * * * *", "UTC");
    assert_eq!(rearm_interval(&minutely, 0), Ok(None));
    assert_eq!(minutely.canonicalized(), Ok(cron("* * * * *", "UTC")));
    assert_ne!(hour.semantic_hash(), cron("* * * * *", "UTC").semantic_hash());
}

#[test]
fn a_due_mirror_with_an_active_run_is_skipped() {
    let cron = ScheduleConfig::Cron { cron: "* * * * *".into(), timezone: "UTC".into() };
    let runtime = activate_schedule(&cron, 0).expect("activate");
    let busy = evaluate_schedule_due(&cron, runtime, 600_000, true).expect("busy");
    assert!(busy.skipped_while_active);
    assert!(!busy.became_due);
    assert_eq!(
        busy.runtime,
        ScheduleRuntime {
            next_due_at_ms: Some(660_000),
            last_evaluated_at_ms: Some(600_000),
            catch_up_pending: false,
            catch_up_since_ms: None,
        }
    );
}

#[test]
fn a_retry_needs_an_eligible_mirror_and_attempts_left() {
    let context = RetryContext {
        outcome: AttemptState::Failed,
        attempt_no: 3,
        max_attempts: 3,
        retry_delay_seconds: 5,
        cancel_requested: false,
        mirror_eligible: true,
        owner_unchanged: true,
        server_now_ms: 0,
    };
    assert_eq!(decide_retry(context), RetryDecision::Final(RunState::Failed));
    assert_eq!(
        decide_retry(RetryContext { attempt_no: 1, cancel_requested: true, ..context }),
        RetryDecision::Final(RunState::Failed)
    );
    assert_eq!(
        decide_retry(RetryContext { outcome: AttemptState::TimedOut, ..context }),
        RetryDecision::Final(RunState::TimedOut)
    );
    assert_eq!(
        decide_retry(RetryContext { outcome: AttemptState::Succeeded, ..context }),
        RetryDecision::Final(RunState::Succeeded)
    );
}

#[test]
fn fingerprints_of_schedules_are_of_their_toml_form() {
    let hour = ScheduleConfig::Interval { interval: "3600s".into() };
    assert_eq!(hour.semantic_hash(), fingerprint_of(b"interval = \"3600s\"\n"));
    let minutely = ScheduleConfig::Cron { cron: "* * * * *".into(), timezone: "UTC".into() };
    assert_eq!(minutely.semantic_hash(), fingerprint_of(b"cron = \"* * * * *\"\ntimezone = \"UTC\"\n"));
}

#[test]
fn names_of_months_and_days_are_read_in_either_case() {
    let mixed = ScheduleConfig::Cron { cron: "15 * * jan-Mar mon-FRI".into(), timezone: "UTC".into() };
    assert_eq!(mixed.validate(), Ok(()));
}

#[test]
fn refused_texts_are_shown_in_quotes() {
    let error = MirrorName::new("a\"b").expect_err("name");
    assert_eq!(error.message(), "invalid mirror name: \"a\\\"b\"");
    let nowhere = ScheduleConfig::Cron { cron: "* * * * *".into(), timezone: "Mars/Base".into() };
    assert_eq!(nowhere.validate(), Err("unknown IANA timezone \"Mars/Base\"".into()));
}

#[test]
fn durations_are_read_up_to_the_longest() {
    let longest = u64::MAX;
    assert_eq!(read_duration("1000000000000s"), Ok((1_000_000_000_000, 0)));
    assert_eq!(read_duration("500000000001years"), Ok((500_000_000_001 * 31_557_600, 0)));
    assert_eq!(read_duration("1.5h 2min 3ms"), Ok((5_520, 3_000_000)));
    assert_eq!(read_duration(&format!("{longest}s")), Ok((longest, 0)));
    assert_eq!(read_duration(&format!("{longest}s 999ms 999999ns")), Ok((longest, 999_999_999)));
    let too_large = humantime::parse_duration(&format!("{longest}s 1s")).expect_err("overflow").to_string();
    assert_eq!(read_duration(&format!("{longest}s 1s")), Err(too_large.clone()));
    assert_eq!(read_duration(&format!("{longest}s 1001ms")), Err(too_large.clone()));
    assert_eq!(read_duration("9000000000000y"), Err(too_large.clone()));
    assert_eq!(parse_interval("9000000000000y"), Err(too_large));
}

#[test]
fn a_duration_that_fills_the_last_second_is_too_long() {
    let longest = u64::MAX;
    for rest in ["1000ms", "1000000us", "1000000000 ns", "500ms 500ms", "999ms 1.5ms", "0.5s 500ms"] {
        let value = format!("{longest}s {rest}");
        assert_eq!(read_duration(&value), Err("duration is too long".into()), "{value}");
        assert_eq!(parse_interval(&value), Err("interval must be between 1m and 365d".into()), "{value}");
    }
    let value = format!("{}s 1s 1000ms", longest - 1);
    assert_eq!(read_duration(&value), Err("duration is too long".into()));
}

#[test]
fn occurrences_are_sought_from_every_moment_that_can_be_held() {
    const FIRST: i64 = -8_334_601_228_800_000;
    const LAST: i64 = 8_210_266_876_799_999;
    let every_minute = |zone: &str| ScheduleConfig::Cron { cron: "* * * * *".into(), timezone: zone.into() };
    let outside = Err("timestamp outside supported range".to_owned());
    let year_one = Utc.with_ymd_and_hms(1, 1, 1, 0, 0, 0).unwrap().timestamp_millis();
    assert_eq!(every_minute("UTC").next_after_ms(FIRST), Ok(year_one));
    assert_eq!(every_minute("UTC").next_after_ms(FIRST - 1), outside);
    assert_eq!(every_minute("UTC").next_after_ms(LAST + 1), outside);
    for moment in [8_210_266_704_000_001, LAST - 1_000, LAST] {
        let start = DateTime::<Utc>::from_timestamp_millis(moment).expect("moment");
        let parser = croner::parser::CronParser::builder()
            .seconds(croner::parser::Seconds::Disallowed)
            .year(croner::parser::Year::Disallowed)
            .build();
        let refused = parser.parse("* * * * *").expect("cron").find_next_occurrence(&start, false).expect_err("late");
        assert_eq!(every_minute("UTC").next_after_ms(moment), Err(refused.to_string()));
    }
    assert!(every_minute("Asia/Shanghai").next_after_ms(FIRST).is_ok());
    assert_eq!(every_minute("Asia/Shanghai").next_after_ms(LAST), outside);
    assert_eq!(every_minute("America/New_York").next_after_ms(FIRST), outside);
    assert_ne!(every_minute("America/New_York").next_after_ms(LAST), outside);
}

#[test]
fn canonical_schedules_are_their_own_form() {
    for interval in ["60m", "1h", "3600s", "30m 1800s"] {
        let once = ScheduleConfig::Interval { interval: interval.into() }.canonicalized().expect("interval");
        assert_eq!(once, ScheduleConfig::Interval { interval: "3600s".into() });
        assert_eq!(once.interval_seconds(), Some(3600));
        assert_eq!(once.clone().canonicalized(), Ok(once));
    }
    let cron = |cron: &str| ScheduleConfig::Cron { cron: cron.into(), timezone: "UTC".into() };
    let once = cron("  15\t*/2 *  jan-Mar\u{3000}mon,fri ").canonicalized().expect("cron");
    assert_eq!(once, cron("15 */2 * JAN-MAR MON,FRI"));
    assert_eq!(once.clone().canonicalized(), Ok(once));
}

#[test]
fn a_second_look_at_one_moment_does_nothing() {
    let schedules = [
        ScheduleConfig::Interval { interval: "1h".into() },
        ScheduleConfig::Cron { cron: "*/5 * * * *".into(), timezone: "UTC".into() },
    ];
    for schedule in schedules {
        let runtime = activate_schedule(&schedule, 0).expect("activated");
        for (active, again) in [(false, false), (false, true), (true, false), (true, true)] {
            let first = evaluate_schedule_due(&schedule, runtime, 7_200_000, active).expect("due");
            assert_eq!((first.became_due, first.skipped_while_active), (!active, active));
            assert_eq!(
                evaluate_schedule_due(&schedule, first.runtime, 7_200_000, again),
                Ok(DueEvaluation { runtime: first.runtime, became_due: false, skipped_while_active: false })
            );
        }
    }
}

#[test]
fn letters_outside_ascii_make_no_names() {
    for field in ["\u{17f}un", "fr\u{131}", "\u{17f}at", "\u{fb06}", "mon\u{17f}", "\u{df}", "\u{fb02}", "\u{131}"] {
        for cron in [format!("0 0 * * {field}"), format!("0 0 * {field} *"), format!("0 0 {field} * *")] {
            let schedule = ScheduleConfig::Cron { cron, timezone: "UTC".into() };
            assert!(schedule.validate().is_err(), "{schedule:?}");
            assert!(schedule.clone().canonicalized().is_err(), "{schedule:?}");
        }
    }
}

#[test]
fn names_with_one_letter_outside_ascii_are_refused() {
    let names = [
        "jan", "feb", "mar", "apr", "may", "jun", "jul", "aug", "sep", "oct", "nov", "dec", "sun", "mon", "tue", "wed",
        "thu", "fri", "sat", "1", "",
    ];
    let strange = ['\u{df}', '\u{131}', '\u{17f}', '\u{fb00}', '\u{fb01}', '\u{fb02}', '\u{fb03}', '\u{fb04}', '\u{fb05}', '\u{fb06}'];
    for before in names {
        for letter in strange {
            for after in names {
                let field = format!("{before}{letter}{after}");
                for cron in [format!("0 0 * * {field}"), format!("0 0 * {field} *"), format!("0 0 {field} * *")] {
                    let schedule = ScheduleConfig::Cron { cron, timezone: "UTC".into() };
                    assert!(schedule.validate().is_err(), "{schedule:?}");
                }
            }
        }
    }
}
