use amo::clock::{current_date_val, date_val};
use amo::error::ErrorKind;
use amo::plan::{
    apply_plan, end_commit, finished_json, local_debs, summary_plan, updates_plan, worth_committing, PlanStep,
};
use amo::progress::{
    is_whitespace, parse_line, splitn, trim, LineKind, ProgressMeter,
};
use amo::refresh::{
    begin_refresh, lists_files_state, rebuild_failed, update_mode, FileMeta, IndexInputs,
    IndexRecord, RebuildOutcome, RebuildStage, RefreshStep, UpdateMode,
};
use amo::request::RequestIds;
use amo::service::{
    description, require_authorized, require_root, require_sender, step_failed, RequestStep,
};
use amo::shutdown::{decide_exit, Exit};

fn strings(items: &[&str]) -> Vec<String> {
    items.iter().map(|s| s.to_string()).collect()
}

fn shown(plan: &[PlanStep]) -> Vec<String> {
    plan.iter()
        .map(|step| match step {
            PlanStep::Open(debs) => format!("open {}", debs.join(" ")),
            PlanStep::Install(names) => format!("install {}", names.join(" ")),
            PlanStep::Remove(names) => format!("remove {}", names.join(" ")),
            PlanStep::UpgradeAll => "upgrade".to_string(),
        })
        .collect()
}

#[test]
fn changes_are_marked_in_order() {
    assert_eq!(shown(&apply_plan(vec![], vec![], false)), vec!["open "]);
    assert_eq!(
        shown(&apply_plan(strings(&["fish"]), strings(&["vim"]), true)),
        vec!["open ", "install fish", "remove vim", "upgrade"]
    );
    assert_eq!(
        shown(&apply_plan(strings(&["/tmp/a.deb", "fish", "b.deb"]), vec![], false)),
        vec!["open ", "open /tmp/a.deb b.deb", "install /tmp/a.deb fish b.deb"]
    );
    assert_eq!(
        shown(&summary_plan(strings(&["/tmp/a.deb"]), strings(&["x"]), true)),
        vec!["open ", "install /tmp/a.deb", "remove x", "upgrade"]
    );
    assert_eq!(shown(&updates_plan()), vec!["open ", "upgrade"]);
}

#[test]
fn package_files_are_told_by_their_suffix() {
    assert_eq!(
        local_debs(&strings(&["a.deb", ".deb", "deb", "a.deb.xz", "a.DEB", "ü.deb"])),
        strings(&["a.deb", ".deb", "ü.deb"])
    );
    assert!(!worth_committing(0, 0));
    assert!(worth_committing(1, 0) && worth_committing(0, 1));
    assert_eq!(finished_json(3), "{\"request_id\":3,\"status\":\"finished\"}");
}

fn percent(line: &str, meter: &mut ProgressMeter) -> f32 {
    let line = parse_line(line);
    let parsed = line.percent.parse::<f32>().ok().map(f32::to_bits);
    f32::from_bits(meter.report(line, parsed).percent)
}

#[test]
fn progress_lines_are_taken_apart() {
    let line = parse_line("pmstatus:testing:20.0000:Unpacking: testing (amd64)");
    assert_eq!(line.kind, LineKind::Status);
    assert_eq!(line.subject, "testing");
    assert_eq!(line.percent, "20.0000");
    assert_eq!(line.description, "Unpacking: testing (amd64)");

    let mut meter = ProgressMeter::new();
    let report = |text: &str, meter: &mut ProgressMeter| {
        let r = meter.report(parse_line(text), None);
        (r.status, r.stage, r.package_or_dpkg_exec, r.description)
    };
    assert_eq!(
        report("pmerror:testing:40.0000:error message...", &mut meter),
        ("pmerror", "dpkg", "testing".to_string(), "error message...".to_string())
    );
    assert_eq!(
        report("pmconffile:testing:40.0000:'/etc/foo'...", &mut meter),
        ("pmconffile", "dpkg", "testing".to_string(), "'/etc/foo'...".to_string())
    );
    assert_eq!(
        report("dlstatus:1:100.0000:Retrieving file 1 of 1", &mut meter),
        ("dlstatus", "download", "1".to_string(), "Retrieving file 1 of 1".to_string())
    );
    assert_eq!(
        report("media-change: cdrom:/media/cdrom:Please insert...", &mut meter),
        (
            "dpkg_raw",
            "dpkg_raw",
            "cdrom".to_string(),
            "media-change: cdrom:/media/cdrom:Please insert...".to_string()
        )
    );
    assert_eq!(
        report("", &mut meter),
        ("dpkg_raw", "dpkg_raw", String::new(), String::new())
    );
    assert_eq!(
        report(" pmstatus :  a", &mut meter),
        ("pmstatus", "dpkg", "a".to_string(), String::new())
    );
}

#[test]
fn the_meter_never_goes_back() {
    let mut meter = ProgressMeter::new();
    assert_eq!(percent("pmstatus:dpkg-exec:0.0000:Running dpkg", &mut meter), 0.0);
    assert_eq!(percent("pmstatus:a:20.0000:Unpacking", &mut meter), 20.0);
    assert_eq!(percent("pmstatus:dpkg-exec:0.0000:Running dpkg", &mut meter), 20.0);
    assert_eq!(percent("pmerror:a:90.0000:no", &mut meter), 20.0);
    assert_eq!(percent("dlstatus:a:100.0000:no", &mut meter), 20.0);
    assert_eq!(percent("pmstatus:a:20.5:Unpacking", &mut meter), 20.5);
    for bad in ["-5", "NaN", "-NaN", "nothing", "", "-inf", "-0"] {
        assert_eq!(percent(&format!("pmstatus:a:{bad}:x"), &mut meter), 20.5);
    }
    assert_eq!(percent("pmstatus:a:99.99999:x", &mut meter), 99.99999);
    assert_eq!(percent("pmstatus:a:inf:x", &mut meter), 100.0);
    let mut meter = ProgressMeter::new();
    assert_eq!(percent("pmstatus:a:1000:x", &mut meter), 100.0);
    assert_eq!(percent("pmstatus:a:40:x", &mut meter), 100.0);
}

#[test]
fn the_meter_agrees_with_single_precision_arithmetic() {
    let mut meter = ProgressMeter::new();
    let mut overall: f32 = 0.0;
    let mut bits: u32 = 1;
    for _ in 0..20_000 {
        bits = bits.wrapping_mul(1_664_525).wrapping_add(1_013_904_223);
        let p = f32::from_bits(bits) % 128.0;
        overall = overall.max(p.clamp(0.0, 100.0));
        let line = parse_line("pmstatus:a:0:x");
        assert_eq!(f32::from_bits(meter.report(line, Some(p.to_bits())).percent), overall);
    }
}

#[test]
fn white_space_is_unicodes() {
    for n in 0..=0x10ffffu32 {
        if let Some(c) = char::from_u32(n) {
            assert_eq!(is_whitespace(c), c.is_whitespace(), "{n:x}");
        }
    }
    for s in ["", " ", " a ", "\u{3000}a b\u{85}", "a", "\t\n", "ü "] {
        assert_eq!(trim(s), s.trim());
    }
}

#[test]
fn splitting_agrees_with_std() {
    for s in ["", ":", "a", "a:b", "a:b:c:d:e", "::::", "ä:ö", "a:", ":a"] {
        for n in 1..6usize {
            let expected: Vec<String> = s.splitn(n, ':').map(|p| p.to_string()).collect();
            assert_eq!(splitn(s, ':', n), expected, "{s} {n}");
        }
    }
}

#[test]
fn request_numbers_name_the_day() {
    let today = date_val(2026, 1, 9);
    assert_eq!(today, 20260109);
    let mut ids = RequestIds::new(today);
    let first = ids.next_on(today);
    assert_eq!((first >> 32, first & 0xffff_ffff), (today, 1));
    let second = ids.next_on(today);
    assert_eq!((second >> 32, second & 0xffff_ffff), (today, 2));
    let tomorrow = date_val(2026, 1, 10);
    let third = ids.next_on(tomorrow);
    assert_eq!((third >> 32, third & 0xffff_ffff), (tomorrow, 1));
    assert!(first < second && second < third);
}

#[test]
fn todays_requests_are_numbered() {
    let before = current_date_val();
    let mut ids = RequestIds::new(0);
    let a = ids.generate_next_request_id();
    let b = ids.generate_next_request_id();
    let after = current_date_val();
    assert!(before <= a >> 32 && b >> 32 <= after);
    assert!(a < b);
    assert!(before > 20200101 && before < 29991231);
    assert!((1..=12).contains(&(before / 100 % 100)));
    assert!((1..=31).contains(&(before % 100)));
}

#[test]
fn list_files_are_found_and_sorted() {
    let meta = |len: u64, mtime: Option<u64>| Some(FileMeta { len, mtime });
    let state = lists_files_state(vec![
        ("b".to_string(), meta(1, Some(9))),
        ("missing".to_string(), None),
        ("a".to_string(), meta(2, Some(5))),
        ("ancient".to_string(), meta(3, None)),
        ("a".to_string(), meta(1, Some(7))),
        ("a".to_string(), meta(2, Some(4))),
    ]);
    assert_eq!(
        state,
        vec![
            ("a".to_string(), 1, 7),
            ("a".to_string(), 2, 4),
            ("a".to_string(), 2, 5),
            ("b".to_string(), 1, 9),
        ]
    );
}

fn inputs(name: &str, mtime: Option<i128>) -> IndexInputs {
    IndexInputs { lists: vec![(name.to_string(), 1, 2)], status_mtime: mtime }
}

#[test]
fn the_index_is_rebuilt_until_it_is_in_step() {
    let mut record = IndexRecord::new(None);
    assert_eq!(record.next_step(&inputs("a", None)), RefreshStep::Rebuild);
    // While it was built the lists changed.
    assert!(record.rebuilt(RebuildOutcome::Built(inputs("a", Some(1)))).is_ok());
    assert_eq!(record.next_step(&inputs("b", Some(1))), RefreshStep::Rebuild);
    assert!(record.rebuilt(RebuildOutcome::Built(inputs("b", Some(1)))).is_ok());
    assert_eq!(record.next_step(&inputs("b", Some(1))), RefreshStep::Done);
    assert!(record.is_fresh(&inputs("b", Some(1))));
    assert!(!record.is_fresh(&inputs("b", Some(2))));
    assert!(!record.is_fresh(&inputs("b", None)));

    assert_eq!(record.rebuilt(RebuildOutcome::Failed("disk".into())), Err("disk".to_string()));
    assert!(record.is_fresh(&inputs("b", Some(1))), "a failure leaves the record as it was");
    assert_eq!(
        record.rebuilt(RebuildOutcome::Lost("panic".into())),
        Err("Cache refresh task failed to join: panic".to_string())
    );
    assert!(record.is_fresh(&inputs("b", Some(1))));
}

#[test]
fn no_refresh_begins_once_the_service_can_exit() {
    let mut exit = Exit::default();
    assert_eq!(begin_refresh(&exit), Ok(()));
    exit.mark_stopping();
    assert!(decide_exit(true, true, &mut exit));
    assert_eq!(begin_refresh(&exit), Err(Exit::STOPPING_REASON));
    exit.mark_replaced();
    assert_eq!(begin_refresh(&exit), Err(Exit::REASON));
}

#[test]
fn admitted_work_is_followed_by_its_refresh() {
    for replaced in [false, true] {
        let mut exit = Exit::default();
        if replaced {
            exit.mark_replaced();
        } else {
            exit.mark_stopping();
        }
        // The work still holds its lock.
        assert!(!decide_exit(false, true, &mut exit));
        assert_eq!(begin_refresh(&exit), Ok(()));
        // The refresh holds its own.
        assert!(!decide_exit(false, false, &mut exit));
        assert!(decide_exit(true, true, &mut exit));
        assert!(begin_refresh(&exit).is_err());
    }
}

#[test]
fn requests_are_refused_with_a_reason() {
    assert_eq!(require_sender(Some(":1.2".into())).unwrap(), ":1.2");
    let e = require_sender(None).unwrap_err();
    assert_eq!((e.kind, e.message.as_str()), (ErrorKind::AccessDenied, "Unknown sender!"));
    assert!(require_authorized(true).is_ok());
    let e = require_authorized(false).unwrap_err();
    assert_eq!((e.kind, e.message.as_str()), (ErrorKind::AccessDenied, "Authorized failed!"));
    assert!(require_root(0).is_ok());
    let e = require_root(1000).unwrap_err();
    assert_eq!(e.message, "Only root may invalidate the package cache");
    assert_eq!(description(Some("text".into())), "text");
    assert_eq!(description(None), "No description available.");
    for (step, message) in [
        (RequestStep::EnsureFresh, "Failed to refresh package cache: why"),
        (RequestStep::Invalidate, "Cache refresh failed: why"),
        (RequestStep::Join, "Task failed: why"),
        (RequestStep::WriteSearch, "Search serialization error: why"),
        (RequestStep::RemoveObject, "Failed to destroy transaction: why"),
        (RequestStep::Plain, "why"),
    ] {
        let e = step_failed(step, "why");
        assert_eq!((e.kind, e.message.as_str()), (ErrorKind::Failed, message));
    }
}

#[test]
fn the_history_is_told_how_a_change_went() {
    let end = end_commit(7, Some(3), Ok(()));
    assert_eq!(end.record, Some((3, true)));
    assert_eq!(end.finished.as_deref(), Some("{\"request_id\":7,\"status\":\"finished\"}"));
    assert_eq!(end.outcome, Ok(()));
    let end = end_commit(7, Some(3), Err("dpkg".into()));
    assert_eq!(end.record, Some((3, false)));
    assert!(end.finished.is_none());
    assert_eq!(end.outcome, Err("dpkg".to_string()));
    let end = end_commit(7, None, Ok(()));
    assert!(end.record.is_none());
    assert!(end.finished.is_some());
}

#[test]
fn an_update_that_broke_off_is_done_over() {
    assert_eq!(update_mode(false), UpdateMode::Incremental);
    assert_eq!(update_mode(true), UpdateMode::Full);
    for (stage, message) in [
        (RebuildStage::Lists, "Failed to rebuild oma package database: why"),
        (RebuildStage::Status, "Failed to read dpkg status: why"),
        (RebuildStage::Index, "Failed to rebuild search index: why"),
    ] {
        assert_eq!(rebuild_failed(stage, "why"), message);
    }
}

#[test]
fn the_order_in_which_files_are_found_does_not_matter() {
    let file = |name: &str, len: u64| (name.to_string(), Some(FileMeta { len, mtime: Some(1) }));
    let a = lists_files_state(vec![file("x", 1), file("y", 2), file("z", 3)]);
    let b = lists_files_state(vec![file("z", 3), file("x", 1), file("y", 2)]);
    assert_eq!(a, b);
    let a = IndexInputs { lists: a, status_mtime: None };
    let b = IndexInputs { lists: b, status_mtime: None };
    assert!(a.same_as(&b));
}

#[test]
fn a_days_numbers_reach_the_end_of_the_low_half() {
    let mut ids = RequestIds::new(20260102 << 32 | 0xffff_fffe);
    assert_eq!(ids.next_on(20260102), 20260102 << 32 | 0xffff_ffff);
    assert_eq!(ids.next_on(20260103), 20260103 << 32 | 1);
}

#[test]
fn later_dates_have_larger_numbers() {
    let days = [(1999, 12, 31), (2000, 1, 1), (2000, 1, 31), (2000, 2, 1), (2026, 11, 15)];
    let numbers: Vec<u64> = days.iter().map(|&(y, m, d)| date_val(y, m, d)).collect();
    assert_eq!(numbers, vec![19991231, 20000101, 20000131, 20000201, 20261115]);
    assert!(numbers.windows(2).all(|w| w[0] < w[1]));
}
