use amo::manifest::matching::matching_updates;
use amo::manifest::ManifestEntry;
use amo::self_update::{
    digest, digests_differ, installed_name, replaced, watch_step, WatchStep, DELETED_SUFFIX,
    IDLE_RECHECK_INTERVAL,
};
use amo::shutdown::{begin_activity, decide_exit, grace_left, Exit};
use amo::tum::{list_updates, tum_entry, updates_list_response, TopicUpdate, TumEntry};
use oma_pm_operation_type::{
    InstallEntry, InstallOperation, OmaOperation, PackageUrl, RemoveEntry,
};
use oma_tum::TopicUpdateEntry;

const MOVED_TO: u32 = 0x80;
const CLOSE_WRITE: u32 = 0x8;
const Q_OVERFLOW: u32 = 0x4000;

#[test]
fn installed_path_strips_the_deleted_suffix() {
    assert!("amo (deleted)".ends_with(DELETED_SUFFIX));
    assert!(!"amo".ends_with(DELETED_SUFFIX));
    assert_eq!(installed_name("amo (deleted)"), "amo");
    assert_eq!(installed_name("amo"), "amo");
    assert_eq!(installed_name("ämö (deleted) (deleted)"), "ämö (deleted)");
    assert_eq!(installed_name(" (deleted)"), "");
    assert_eq!(installed_name(""), "");
}

#[test]
fn rename_replacement_is_detected() {
    assert_eq!(watch_step(Some(b"amo"), MOVED_TO, b"amo"), WatchStep::Landed);
}

#[test]
fn in_place_rewrite_is_detected() {
    assert_eq!(watch_step(Some(b"amo"), CLOSE_WRITE, b"amo"), WatchStep::Landed);
}

#[test]
fn unrelated_files_in_directory_are_ignored() {
    assert_eq!(watch_step(Some(b"other"), MOVED_TO, b"amo"), WatchStep::Wait);
    assert_eq!(watch_step(Some(b"amo2"), CLOSE_WRITE, b"amo"), WatchStep::Wait);
    assert_eq!(watch_step(Some(b"amo"), 0x40, b"amo"), WatchStep::Wait);
    assert_eq!(watch_step(None, MOVED_TO, b"amo"), WatchStep::Wait);
}

#[test]
fn lost_events_call_for_a_comparison() {
    assert_eq!(watch_step(None, Q_OVERFLOW, b"amo"), WatchStep::Compare);
    assert_eq!(watch_step(Some(b"amo"), Q_OVERFLOW | MOVED_TO, b"amo"), WatchStep::Landed);
    assert_eq!(watch_step(Some(b"x"), Q_OVERFLOW | MOVED_TO, b"amo"), WatchStep::Compare);
    assert_eq!(IDLE_RECHECK_INTERVAL, 5_000_000_000);
}

#[test]
fn identical_contents_have_the_same_digest() {
    let left = vec![0x5a; 20 * 1024];
    let right = vec![0x5a; 20 * 1024];
    assert_eq!(digest(&left), digest(&right));
    assert_eq!(digest(b""), digest(b""));
    assert_eq!(
        digest(b"abc")[..8],
        [0xba, 0x78, 0x16, 0xbf, 0x8f, 0x01, 0xcf, 0xea]
    );
}

#[test]
fn one_differing_byte_changes_the_digest() {
    let left = vec![0x5a; 20 * 1024];
    let mut right = left.clone();
    right[10 * 1024] ^= 0xff;
    assert_ne!(digest(&left), digest(&right));
}

#[test]
fn a_length_difference_changes_the_digest() {
    assert_ne!(digest(&vec![0x5a; 1024]), digest(&vec![0x5a; 1025]));
}

#[test]
fn the_same_contents_are_not_a_replacement() {
    assert!(!replaced(Some(b"same bytes"), Some(b"same bytes")));
}

#[test]
fn different_contents_are_a_replacement() {
    assert!(replaced(Some(b"old bytes"), Some(b"new bytes")));
}

#[test]
fn a_missing_installed_file_is_not_a_replacement() {
    assert!(!replaced(Some(b"old bytes"), None));
    assert!(!replaced(None, None));
}

#[test]
fn a_missing_running_file_counts_as_replaced() {
    assert!(replaced(None, Some(b"bytes")));
}

#[test]
fn digests_are_compared_to_the_last_byte() {
    let a = [7u8; 32];
    let mut b = a;
    assert!(!digests_differ(Some(a), Some(b)));
    b[31] = 8;
    assert!(digests_differ(Some(a), Some(b)));
    assert!(digests_differ(None, Some(b)));
    assert!(!digests_differ(Some(a), None));
}

#[test]
fn exit_waits_for_the_work_that_was_already_admitted() {
    let mut exit = Exit::default();
    exit.mark_replaced();
    assert!(!decide_exit(true, false, &mut exit));
    assert!(!decide_exit(false, true, &mut exit));
    assert!(!exit.ready());
    assert!(decide_exit(true, true, &mut exit));
    assert!(exit.ready());
}

#[test]
fn seeing_a_replacement_does_not_yet_tell_main_to_exit() {
    let mut exit = Exit::default();
    exit.mark_replaced();
    assert!(exit.pending());
    assert!(!exit.ready(), "main must keep waiting while the admitted work drains");
}

#[test]
fn a_decision_made_before_waiting_is_not_lost() {
    let mut exit = Exit::default();
    assert!(decide_exit(true, true, &mut exit));
    exit.mark_stopping();
    assert!(!decide_exit(false, true, &mut exit));
    assert!(exit.ready(), "a decision made before the wait must still be seen");
}

#[test]
fn seeing_a_replacement_is_observable_by_requests() {
    let mut exit = Exit::default();
    assert!(!exit.pending());

    exit.mark_replaced();
    assert!(exit.pending());
}

#[test]
fn the_self_update_reason_wins_whichever_order_the_triggers_arrive() {
    let mut replaced_first = Exit::default();
    replaced_first.mark_replaced();
    replaced_first.mark_stopping();
    assert_eq!(replaced_first.reason(), Exit::REASON);

    let mut stopping_first = Exit::default();
    stopping_first.mark_stopping();
    assert_eq!(stopping_first.reason(), Exit::STOPPING_REASON);
    stopping_first.mark_replaced();
    assert_eq!(stopping_first.reason(), Exit::REASON);
}

#[test]
fn work_is_admitted_one_at_a_time_and_not_before_an_exit() {
    let mut exit = Exit::default();
    assert!(begin_activity(true, &exit).is_ok());
    let busy = begin_activity(false, &exit).unwrap_err();
    assert_eq!(busy.message, "Another task is already running!");
    exit.mark_stopping();
    assert_eq!(begin_activity(true, &exit).unwrap_err().message, "The service is shutting down");
    exit.mark_replaced();
    assert_eq!(
        begin_activity(true, &exit).unwrap_err().message,
        "The service is restarting to pick up an update"
    );
    assert_eq!(
        begin_activity(false, &exit).unwrap_err().message,
        "Another task is already running!"
    );
}

#[test]
fn the_grace_runs_out() {
    let at = |nanos: u64| amo::clock::Instant { nanos };
    assert_eq!(grace_left(Some(at(100)), at(30)), 70);
    assert_eq!(grace_left(Some(at(100)), at(100)), 0);
    assert_eq!(grace_left(Some(at(100)), at(130)), 0);
    assert_eq!(grace_left(None, at(30)), 0);
    assert_eq!(amo::shutdown::SHUTDOWN_GRACE, 30_000_000_000);
}

fn entry_with(
    name: &str,
    old_version: Option<&str>,
    new_version: &str,
    op: InstallOperation,
) -> InstallEntry {
    InstallEntry::builder()
        .name(format!("{name}:amd64"))
        .name_without_arch(name.to_string())
        .maybe_old_version(old_version.map(|v| v.to_string()))
        .new_version(new_version.to_string())
        .new_size(1)
        .pkg_urls(Vec::new())
        .arch("amd64".to_string())
        .download_size(1)
        .op(op)
        .index(0)
        .build()
}

fn new_entry(name: &str, version: &str) -> InstallEntry {
    entry_with(name, None, version, InstallOperation::Install)
}

fn upgrade_entry(name: &str, old_version: &str, new_version: &str) -> InstallEntry {
    InstallEntry::builder()
        .name(name.to_string())
        .name_without_arch(name.to_string())
        .old_version(old_version.to_string())
        .new_version(new_version.to_string())
        .new_size(1)
        .pkg_urls(vec![PackageUrl { download_url: String::new(), index_url: String::new() }])
        .arch("amd64".to_string())
        .download_size(1)
        .op(InstallOperation::Upgrade)
        .index(0)
        .build()
}

fn operation_of(install: Vec<InstallEntry>) -> OmaOperation {
    OmaOperation {
        install,
        remove: Vec::new(),
        disk_size_delta: 0,
        autoremovable: (0, 0),
        total_download_size: 1,
        suggest: Vec::new(),
        recommend: Vec::new(),
    }
}

fn operation_with(packages: &[&str]) -> OmaOperation {
    operation_of(packages.iter().map(|name| upgrade_entry(name, "1.0", "2.0")).collect())
}

type Manifest = Vec<(String, ManifestEntry)>;

fn plain(entry: TopicUpdateEntry) -> ManifestEntry {
    match entry {
        TopicUpdateEntry::Conventional {
            security,
            packages,
            packages_v2,
            name,
            caution,
            must_match_all,
        } => ManifestEntry::Conventional {
            security,
            packages: packages.into_iter().collect(),
            packages_v2: packages_v2.into_iter().collect(),
            name: name.into_iter().collect(),
            caution: caution.map(|c| c.into_iter().collect()),
            must_match_all,
        },
        TopicUpdateEntry::Cumulative { name, caution, topics, security } => {
            ManifestEntry::Cumulative {
                security,
                name: name.into_iter().collect(),
                caution: caution.map(|c| c.into_iter().collect()),
                topics,
            }
        }
    }
}

fn manifest(json: &str) -> Manifest {
    let manifest = oma_tum::parse_single_tum(json.as_bytes()).unwrap();
    manifest.entries.into_iter().map(|(id, entry)| (id, plain(entry))).collect()
}

fn listed(manifests: Vec<Manifest>, operation: &OmaOperation, id: &str) -> TumEntry {
    let found = matching_updates(manifests, operation);
    let (id, update) = found.into_iter().find(|(found, _)| found == id).unwrap();
    tum_entry(id, update)
}

fn matched_topic(security: bool) -> TumEntry {
    let json = format!(
        r#"{{
            "test-topic": {{
                "type": "conventional",
                "security": {security},
                "name": {{"default": "Test topic"}},
                "caution": {{"default": "Test caution"}},
                "packages": {{"test-package": "2.0"}}
            }}
        }}"#
    );
    listed(vec![manifest(&json)], &operation_with(&["test-package"]), "test-topic")
}

#[test]
fn conventional_entry_carries_security_flag() {
    let topic = matched_topic(true);
    assert!(topic.security);
    assert_eq!(topic.kind, "conventional");
    assert_eq!(topic.packages, vec!["test-package".to_string()]);
    assert_eq!(topic.package_count, 1);
    assert_eq!(topic.caution.unwrap(), vec![("default".to_string(), "Test caution".to_string())]);
}

#[test]
fn non_security_conventional_entry_is_not_security() {
    let topic = matched_topic(false);
    assert!(!topic.security);
}

#[test]
fn v2_packages_are_preferred_for_names_and_count() {
    let json = r#"{
        "test-topic": {
            "type": "conventional",
            "security": true,
            "name": {"default": "Test topic"},
            "packages": {"old-package": "2.0"},
            "packages-v2": {"new-package": ">= 2.0"}
        }
    }"#;
    let operation = operation_of(vec![upgrade_entry("new-package", "2.0", "2.5")]);
    let topic = listed(vec![manifest(json)], &operation, "test-topic");
    assert_eq!(topic.packages, vec!["new-package".to_string()]);
    assert_eq!(topic.package_count, 1);
}

#[test]
fn cumulative_entry_aggregates_matched_topics() {
    let json = r#"{
        "topic-a": {
            "type": "conventional",
            "security": false,
            "name": {"default": "Topic A"},
            "packages": {"test-package": "2.0"}
        },
        "topic-b": {
            "type": "conventional",
            "security": false,
            "name": {"default": "Topic B"},
            "packages": {"other-package": "2.0"}
        },
        "cumulative-topic": {
            "type": "cumulative",
            "security": true,
            "name": {"default": "Cumulative topic"},
            "topics": ["topic-a", "topic-b"]
        }
    }"#;
    let operation = operation_with(&["test-package", "other-package"]);
    let cumulative = listed(vec![manifest(json)], &operation, "cumulative-topic");
    assert_eq!(cumulative.kind, "cumulative");
    assert!(cumulative.security);
    assert_eq!(cumulative.topics, vec!["topic-a".to_string(), "topic-b".to_string()]);
    assert_eq!(cumulative.package_count, 2);
    assert!(cumulative.packages.is_empty());
}

fn response(jsons: &[&str], packages: &[&str]) -> amo::tum::UpdatesListResponse {
    let manifests: Vec<Manifest> = jsons.iter().map(|j| manifest(j)).collect();
    updates_list_response(Some(manifests), &operation_with(packages))
}

const NON_SECURITY: &str = r#"{
    "non-security": {
        "type": "conventional",
        "security": false,
        "name": {"default": "Non-security"},
        "packages": {"test-package": "2.0"}
    }
}"#;

const SECURITY: &str = r#"{
    "security-topic": {
        "type": "conventional",
        "security": true,
        "name": {"default": "Security"},
        "packages": {"other-package": "2.0"}
    }
}"#;

#[test]
fn response_sorts_security_first_and_aggregates_important() {
    let response = response(&[NON_SECURITY, SECURITY], &["test-package", "other-package"]);
    assert!(response.has_important_updates);
    let ids = response.tum.iter().map(|entry| entry.id.as_str()).collect::<Vec<_>>();
    assert_eq!(ids, vec!["security-topic", "non-security"]);
}

#[test]
fn response_has_important_is_false_without_security() {
    let response = response(&[NON_SECURITY], &["test-package"]);
    assert!(!response.has_important_updates);
    assert_eq!(response.tum.len(), 1);
}

#[test]
fn updates_and_packages_are_listed_in_byte_order() {
    let update = |security: bool| TopicUpdate::Conventional {
        security,
        packages: ["zsh", "Zsh", "b", "a", "äb", "ab", ""].iter().map(|s| s.to_string()).collect(),
        packages_v2: Vec::new(),
        name: vec![("zh".into(), "2".into()), ("default".into(), "1".into())],
        caution: None,
    };
    let r = list_updates(Some(vec![
        ("b".into(), update(false)),
        ("c".into(), update(true)),
        ("B".into(), update(false)),
        ("a".into(), update(true)),
    ]));
    let ids: Vec<&str> = r.tum.iter().map(|e| e.id.as_str()).collect();
    assert_eq!(ids, vec!["a", "c", "B", "b"]);
    let mut expected: Vec<String> =
        ["zsh", "Zsh", "b", "a", "äb", "ab", ""].iter().map(|s| s.to_string()).collect();
    expected.sort_unstable();
    assert_eq!(r.tum[0].packages, expected);
    assert_eq!(r.tum[0].package_count, 7);
    assert_eq!(
        r.tum[0].name,
        vec![("default".to_string(), "1".to_string()), ("zh".to_string(), "2".to_string())]
    );
    assert!(list_updates(None).tum.is_empty());
    assert!(!list_updates(None).has_important_updates);
}

#[test]
fn manifests_that_could_not_be_read_list_nothing() {
    let response = updates_list_response(None, &operation_with(&["test-package"]));
    assert!(response.tum.is_empty());
    assert!(!response.has_important_updates);
}

#[test]
fn updates_of_other_packages_are_not_listed() {
    assert!(response(&[NON_SECURITY, SECURITY], &["third-package"]).tum.is_empty());
    let some = response(&[NON_SECURITY, SECURITY], &["test-package"]);
    assert_eq!(some.tum.len(), 1);
    assert_eq!(some.tum[0].id, "non-security");
    let older = operation_of(vec![upgrade_entry("test-package", "1.0", "1.9")]);
    assert!(updates_list_response(Some(vec![manifest(NON_SECURITY)]), &older).tum.is_empty());
}

fn entry_of(packages_v2: Vec<(&str, Option<&str>)>, must_match_all: bool) -> ManifestEntry {
    ManifestEntry::Conventional {
        security: false,
        packages: Vec::new(),
        packages_v2: packages_v2
            .into_iter()
            .map(|(package, version)| (package.to_string(), version.map(|v| v.to_string())))
            .collect(),
        name: vec![("default".to_string(), "A topic".to_string())],
        caution: None,
        must_match_all,
    }
}

fn cumulative_of(topics: &[&str]) -> ManifestEntry {
    ManifestEntry::Cumulative {
        security: false,
        name: Vec::new(),
        caution: None,
        topics: topics.iter().map(|t| t.to_string()).collect(),
    }
}

fn ids_of(manifests: Vec<Manifest>, operation: &OmaOperation) -> Vec<String> {
    let response = updates_list_response(Some(manifests), operation);
    response.tum.into_iter().map(|entry| entry.id).collect()
}

#[test]
fn expressions_that_cannot_be_worked_off_leave_their_entry_out() {
    let operation = operation_of(vec![upgrade_entry("a", "2.0", "2.5")]);
    for expression in ["", "()", "&&", "= 1.0 &&", "1.0", "=", "= 2.0 = 2.0"] {
        let m = vec![
            ("broken".to_string(), entry_of(vec![("a", Some(expression))], true)),
            ("sound".to_string(), entry_of(vec![("a", Some(">= 2.0"))], true)),
        ];
        assert_eq!(ids_of(vec![m], &operation), vec!["sound"], "{expression}");
    }
}

#[test]
fn expressions_that_are_not_worked_off_do_not_matter() {
    // The second expression cannot be worked off, and need not be: nothing happens to `b`.
    let entry = || entry_of(vec![("a", Some(">= 2.0")), ("b", Some(">= 1.0 < 2.0"))], false);
    let m = || vec![("topic".to_string(), entry())];
    let upgrade = operation_of(vec![upgrade_entry("a", "2.0", "2.5")]);
    let response = updates_list_response(Some(vec![m()]), &upgrade);
    assert_eq!(response.tum.len(), 1);
    assert_eq!(response.tum[0].id, "topic");
    assert_eq!(response.tum[0].packages, vec!["a".to_string(), "b".to_string()]);
    assert_eq!(response.tum[0].package_count, 2);
    // A package that comes anew replaces no version.
    let anew = operation_of(vec![upgrade_entry("a", "2.0", "2.5"), new_entry("b", "1.5")]);
    assert_eq!(ids_of(vec![m()], &anew), vec!["topic"]);
    // Nor does a step back count.
    let mut back = operation_of(vec![upgrade_entry("a", "2.0", "2.5")]);
    back.install.push(entry_with("b", Some("3.0"), "2.0", InstallOperation::Downgrade));
    assert_eq!(ids_of(vec![m()], &back), vec!["topic"]);
    // Now it would have to be worked off.
    let both =
        operation_of(vec![upgrade_entry("a", "2.0", "2.5"), upgrade_entry("b", "1.5", "1.6")]);
    assert!(ids_of(vec![m()], &both).is_empty());
}

#[test]
fn later_changes_of_a_package_count() {
    let m = || vec![("topic".to_string(), entry_of(vec![("a", Some("= 2.0"))], true))];
    let found = |first: InstallEntry, second: InstallEntry| {
        !ids_of(vec![m()], &operation_of(vec![first, second])).is_empty()
    };
    assert!(found(upgrade_entry("a", "1.0", "3.0"), upgrade_entry("a", "2.0", "3.0")));
    assert!(!found(upgrade_entry("a", "2.0", "3.0"), upgrade_entry("a", "1.0", "3.0")));
    assert!(!found(upgrade_entry("a", "2.0", "3.0"), new_entry("a", "3.0")));
}

fn older_form(version: &str, must_match_all: bool) -> Manifest {
    let entry = ManifestEntry::Conventional {
        security: false,
        packages: vec![("a".to_string(), Some(version.to_string()))],
        packages_v2: Vec::new(),
        name: Vec::new(),
        caution: None,
        must_match_all,
    };
    vec![("topic".to_string(), entry)]
}

#[test]
fn the_version_that_comes_is_the_one_wanted() {
    let upgrade = operation_of(vec![upgrade_entry("a", "1.0", "2.0")]);
    for must_match_all in [false, true] {
        assert_eq!(ids_of(vec![older_form("2.0", must_match_all)], &upgrade), vec!["topic"]);
        assert!(ids_of(vec![older_form("1.0", must_match_all)], &upgrade).is_empty());
    }
    // A preview of the version counts as the version.
    let preview = operation_of(vec![upgrade_entry("a", "1.0", "2.0~pre20241213T090405Z")]);
    assert_eq!(ids_of(vec![older_form("2.0", true)], &preview), vec!["topic"]);
    // A version that cannot be read is no match where all must match.
    assert!(ids_of(vec![older_form("two", true)], &upgrade).is_empty());
    assert!(ids_of(vec![older_form("2 0", true)], &upgrade).is_empty());
}

#[test]
fn a_topic_may_share_its_id_with_a_cumulative_entry_that_is_not_found() {
    let operation = operation_of(vec![upgrade_entry("a", "2.0", "2.5")]);
    let conventional = |id: &str, entry: ManifestEntry| (id.to_string(), entry);
    let found = |others: Manifest, rival: &[&str]| {
        let mut m = vec![conventional("t", entry_of(vec![("a", Some("= 2.0"))], true))];
        m.extend(others);
        let cumulative = vec![("all".to_string(), cumulative_of(&["t"]))];
        let rivals = vec![("t".to_string(), cumulative_of(rival))];
        ids_of(vec![m, rivals, cumulative], &operation)
    };
    // The other entry under the id lacks a topic.
    assert_eq!(found(vec![], &["missing"]), vec!["all"]);
    // Its topics are there, but do not match.
    let failing = || entry_of(vec![("a", Some("= 1.0"))], true);
    assert_eq!(found(vec![conventional("s", failing())], &["s"]), vec!["all"]);
    let unmet = || entry_of(vec![("a", Some("= 1.0")), ("b", Some("= 1.0"))], false);
    assert_eq!(found(vec![conventional("s", unmet())], &["s"]), vec!["all"]);
    assert_eq!(found(vec![conventional("s", entry_of(vec![("a", None)], false))], &["s"]), vec!["all"]);
    // It names a topic twice, so it is left out itself.
    let met = || entry_of(vec![("b", Some("= 1.0")), ("a", Some("= 2.0"))], false);
    let expected = vec!["all".to_string(), "s".to_string()];
    assert_eq!(found(vec![conventional("s", met())], &["s", "s"]), expected);
    // Its topics match: it stands under the id, and the entry that lists the id is left out.
    assert_eq!(found(vec![conventional("s", met())], &["s"]), vec!["t"]);
    assert_eq!(found(vec![conventional("s", entry_of(vec![], false))], &["s"]), vec!["t"]);
}

#[test]
fn expressions_join_comparisons() {
    let operation = operation_of(vec![upgrade_entry("a", "2.0", "2.5")]);
    let found = |expression: &str| {
        let m = vec![("topic".to_string(), entry_of(vec![("a", Some(expression))], true))];
        ids_of(vec![m], &operation).len() == 1
    };
    assert!(found("(=1.2.3 || =2.0) && <7.8.9"));
    assert!(!found("(=1.2.3 || =2.1) && <7.8.9"));
    assert!(!found("<= 1.9"));
}

#[test]
fn later_values_of_a_key_count() {
    let operation = operation_of(vec![upgrade_entry("a", "2.0", "2.5")]);
    let m = vec![
        ("topic".to_string(), entry_of(vec![("a", Some("< 1.0"))], true)),
        ("topic".to_string(), entry_of(vec![("a", Some("")), ("a", Some("> 1.0"))], true)),
    ];
    assert_eq!(ids_of(vec![m], &operation), vec!["topic"]);
    let m = vec![
        ("topic".to_string(), entry_of(vec![("a", Some("> 1.0"))], true)),
        ("topic".to_string(), entry_of(vec![("a", Some(""))], true)),
    ];
    assert!(ids_of(vec![m], &operation).is_empty());
}

#[test]
fn cumulative_entries_take_the_place_of_their_topics() {
    let operation = operation_of(vec![upgrade_entry("a", "2.0", "2.5")]);
    let topics = || {
        vec![
            ("one".to_string(), entry_of(vec![("a", Some("> 1.0"))], true)),
            ("two".to_string(), entry_of(vec![("b", Some("> 1.0")), ("a", Some("> 1.0"))], false)),
        ]
    };
    let found = |m: Manifest| ids_of(vec![topics(), m], &operation);
    assert_eq!(found(vec![("all".to_string(), cumulative_of(&["two", "one"]))]), vec!["all"]);
    assert_eq!(
        found(vec![("all".to_string(), cumulative_of(&["one", "three"]))]),
        vec!["one", "two"]
    );
    let response = updates_list_response(
        Some(vec![topics(), vec![("all".to_string(), cumulative_of(&["two", "one"]))]]),
        &operation,
    );
    assert_eq!(response.tum[0].package_count, 3);
    assert_eq!(response.tum[0].topics, vec!["two".to_string(), "one".to_string()]);
}

#[test]
fn cumulative_entries_that_cannot_be_matched_are_left_out() {
    let operation = operation_of(vec![upgrade_entry("a", "2.0", "2.5")]);
    let topic = || ("one".to_string(), entry_of(vec![("a", Some("> 1.0"))], true));
    let twice = vec![topic(), ("all".to_string(), cumulative_of(&["one", "one"]))];
    assert_eq!(ids_of(vec![twice], &operation), vec!["one"]);
    let nested = vec![
        topic(),
        ("all".to_string(), cumulative_of(&["one"])),
        ("more".to_string(), cumulative_of(&["all"])),
    ];
    assert_eq!(ids_of(vec![nested], &operation), vec!["all"]);
}

#[test]
fn removals_match_packages_without_a_version() {
    let mut operation = operation_of(Vec::new());
    operation.remove = vec![RemoveEntry::new(
        "a".to_string(),
        Some("1.0".to_string()),
        1,
        Vec::new(),
        "amd64".to_string(),
        0,
    )];
    let m = || {
        vec![
            ("empty".to_string(), entry_of(Vec::new(), true)),
            ("removed".to_string(), entry_of(vec![("a", None)], true)),
            ("replaced".to_string(), entry_of(vec![("a", Some("= 1.0"))], true)),
        ]
    };
    assert_eq!(ids_of(vec![m()], &operation), vec!["empty", "removed"]);
    assert_eq!(ids_of(vec![m()], &operation_of(Vec::new())), vec!["empty"]);
}
