//! The normalizer and the sync orchestrator: canonical event shapes, the
//! window rule, cooperative cancellation, and the URL helpers.

use traceback::browser::{is_excluded_url, pick_default_profile, BrowserVisit};
use traceback::calendar::{check_calendar_permission, CalendarEvent, CalendarPermissionStatus};
use traceback::db::{Database, EventPayload, EventType};
use traceback::git::{identify_repository, GitActivity, GitActivityType, RepoProbe};
use traceback::orchestrator::{SyncPhase, SyncRun};
use traceback::sync::{
    clean_notes, extract_domain, extract_repository_path_from_url, sync_browser_visit,
    sync_git_activity, sync_single_event, truncate_url,
};
use traceback::sync_events::{SyncEvent, SyncSource};
use traceback::CoreError;

fn cal_event(id: &str, title: &str, notes: Option<&str>) -> CalendarEvent {
    CalendarEvent {
        event_id: id.to_string(),
        title: title.to_string(),
        start_date: "2024-01-15T10:00:00+00:00".to_string(),
        end_date: "2024-01-15T11:00:00+00:00".to_string(),
        location: None,
        notes: notes.map(|n| n.to_string()),
        is_all_day: false,
        attendees: vec![],
        organizer: Some("Alice".to_string()),
        organizer_email: Some("alice@example.com".to_string()),
    }
}

#[test]
fn test_sync_single_event_normalizes() {
    let mut db = Database::new();
    let ev = cal_event("ev-1", "Team Meeting", Some("Hello  \n\n\n\nWorld\n\n"));
    let count = sync_single_event(&mut db, &ev, 500).unwrap();
    assert_eq!(count, 1);
    assert_eq!(db.events.len(), 1);
    let stored = &db.events[0];
    assert_eq!(stored.event_type, EventType::Calendar);
    assert_eq!(stored.external_id, Some("ev-1".to_string()));
    assert_eq!(stored.start_date, 1705312800);
    assert_eq!(stored.end_date, 1705316400);
    // the encoded deep link: the space is percent-encoded
    assert_eq!(
        stored.external_link,
        Some("x-apple-calendar://event?title=Team%20Meeting".to_string())
    );
    match &stored.type_specific_data {
        Some(EventPayload::Calendar(d)) => {
            assert_eq!(d.notes, Some("Hello\n\nWorld".to_string()));
            assert_eq!(d.organizer, Some("Alice".to_string()));
            assert_eq!(d.attendees, None);
        },
        _ => panic!("wrong payload"),
    }
    // the organizer became a contact, referenced by the event
    assert_eq!(db.contacts.len(), 1);
    assert_eq!(db.contacts[0].name, "Alice".to_string());
    assert_eq!(stored.organizer_id, db.contacts[0].id);
    // a second pass over the same record updates in place
    let again = sync_single_event(&mut db, &cal_event("ev-1", "Team Meeting", None), 600).unwrap();
    assert_eq!(again, 0);
    assert_eq!(db.events.len(), 1);
    assert_eq!(db.events[0].created_at, 500);
    assert_eq!(db.events[0].updated_at, 600);
}

#[test]
fn test_sync_single_event_rejects_bad_timestamp() {
    let mut db = Database::new();
    let mut ev = cal_event("ev-1", "Broken", None);
    ev.start_date = "not a timestamp".to_string();
    assert_eq!(sync_single_event(&mut db, &ev, 500), Err(CoreError::ParseError));
    assert_eq!(db.events.len(), 0);
}

#[test]
fn test_sync_git_activity_keys_and_times() {
    let mut db = Database::new();
    let probe = RepoProbe {
        name: "react".to_string(),
        local_path: "/dev/react".to_string(),
        canonical_path: "/dev/react".to_string(),
        origin_url: Some("https://github.com/facebook/react.git".to_string()),
    };
    let repo = identify_repository(&probe);
    let activity = GitActivity {
        repository_id: repo.repository_id.clone(),
        repository_name: repo.repository_name.clone(),
        activity_type: GitActivityType::Commit,
        timestamp: "2023-11-14T22:13:20+00:00".to_string(),
        ref_name: None,
        commit_hash: Some("abc123".to_string()),
        message: "Fix the parser".to_string(),
    };
    let count = sync_git_activity(&mut db, &activity, &repo, 700).unwrap();
    assert_eq!(count, 1);
    let stored = &db.events[0];
    assert_eq!(stored.event_type, EventType::Git);
    assert_eq!(stored.start_date, 1700000000);
    assert_eq!(stored.end_date, 1700000000);
    assert_eq!(stored.title, "Fix the parser".to_string());
    let expected_key = format!("{}:2023-11-14T22:13:20+00:00", repo.repository_id);
    assert_eq!(stored.external_id, Some(expected_key));
    assert_eq!(stored.repository_path, Some("facebook/react".to_string()));
    match &stored.type_specific_data {
        Some(EventPayload::Git(d)) => {
            assert_eq!(d.activity_type, "commit".to_string());
            assert_eq!(d.commit_hash, Some("abc123".to_string()));
        },
        _ => panic!("wrong payload"),
    }
}

#[test]
fn test_sync_browser_visit_fields_and_filter() {
    let mut db = Database::new();
    let visit = BrowserVisit {
        url: "https://github.com/facebook/react/issues/123".to_string(),
        title: Some("An issue".to_string()),
        visit_date: 1_700_000_000_000_000,
        visit_count: 3,
    };
    let discovered = vec!["facebook/react".to_string()];
    let orgs: Vec<String> = vec![];
    let count = sync_browser_visit(&mut db, &visit, &discovered, &orgs, 900).unwrap();
    assert_eq!(count, 1);
    let stored = &db.events[0];
    assert_eq!(stored.event_type, EventType::BrowserHistory);
    assert_eq!(stored.start_date, 1_700_000_000);
    assert_eq!(stored.domain, Some("github.com".to_string()));
    assert_eq!(stored.repository_path, Some("facebook/react".to_string()));
    assert_eq!(stored.title, "An issue".to_string());
    match &stored.external_id {
        Some(key) => assert!(key.starts_with("browser-")),
        None => panic!("missing key"),
    }

    // a repository visit matching neither discovered repositories nor
    // configured organizations is skipped
    let other = BrowserVisit {
        url: "https://github.com/stranger/repo".to_string(),
        title: None,
        visit_date: 1_700_000_000_000_000,
        visit_count: 1,
    };
    let skipped = sync_browser_visit(&mut db, &other, &discovered, &orgs, 901).unwrap();
    assert_eq!(skipped, 0);
    assert_eq!(db.events.len(), 1);

    // but a configured organization lets it in
    let orgs2 = vec!["stranger".to_string()];
    let let_in = sync_browser_visit(&mut db, &other, &discovered, &orgs2, 902).unwrap();
    assert_eq!(let_in, 1);
    assert_eq!(db.events.len(), 2);

    // a plain page is stored without a repository path
    let page = BrowserVisit {
        url: "https://news.example.com/article".to_string(),
        title: None,
        visit_date: 1_700_000_100_000_000,
        visit_count: 1,
    };
    let plain = sync_browser_visit(&mut db, &page, &discovered, &orgs, 903).unwrap();
    assert_eq!(plain, 1);
    let last = &db.events[2];
    assert_eq!(last.repository_path, None);
    assert_eq!(last.domain, Some("news.example.com".to_string()));
    assert_eq!(last.title, "https://news.example.com/article".to_string());
}

#[test]
fn test_window_rule_first_and_later() {
    let mut db = Database::new();
    let run = SyncRun::start(&mut db, 10_000_000);
    // first-ever sync: the window opens 90 days before now
    assert_eq!(run.window_start, 10_000_000 - 90 * 86400);
    assert_eq!(run.window_end, 10_000_000);
    assert!(db.get_sync_status(0).sync_in_progress);

    // drive the pass to completion
    let mut run = run;
    run.begin_source(SyncSource::Calendar, "calendar".to_string());
    run.finish_source(SyncSource::Calendar);
    run.begin_source(SyncSource::Git, "git".to_string());
    run.finish_source(SyncSource::Git);
    run.begin_source(SyncSource::Browser, "browser".to_string());
    run.finish_source(SyncSource::Browser);
    run.complete(&mut db, 10_000_000, 25);
    assert!(matches!(run.phase, SyncPhase::Idle));
    let status = db.get_sync_status(0);
    assert!(!status.sync_in_progress);
    assert_eq!(status.last_sync_time, Some(10_000_000));

    // a later sync starts at the last recorded completion instant
    let run2 = SyncRun::start(&mut db, 12_000_000);
    assert_eq!(run2.window_start, 10_000_000);
    match run2.emitted.last() {
        Some(SyncEvent::Started { .. }) => {},
        _ => panic!("expected a start notification"),
    }
}

#[test]
fn test_cancel_between_phases_skips_browser() {
    let mut db = Database::new();
    let mut run = SyncRun::start(&mut db, 1000);
    run.begin_source(SyncSource::Calendar, "calendar".to_string());
    let count = run
        .ingest_calendar_item(&mut db, &cal_event("ev-1", "Meeting", None), 1000)
        .unwrap();
    assert_eq!(count, 1);
    run.finish_source(SyncSource::Calendar);
    run.begin_source(SyncSource::Git, "git".to_string());
    run.finish_source(SyncSource::Git);
    // the flag is observed between the version-control and browser phases
    assert!(matches!(run.phase, SyncPhase::SyncingBrowser));
    let events_before = db.events.len();
    run.cancel(&mut db, 1500);
    // the browser phase never ran, the terminal notification is Cancelled,
    // and the in-progress mark is cleared
    assert!(matches!(run.phase, SyncPhase::Cancelled));
    assert_eq!(db.events.len(), events_before);
    assert!(!db.get_sync_status(0).sync_in_progress);
    match run.emitted.last() {
        Some(SyncEvent::Cancelled { .. }) => {},
        other => panic!("expected a cancellation, got {:?}", other),
    }
    // the pass never reached a completion notification
    for e in &run.emitted {
        assert!(!matches!(e, SyncEvent::Completed { .. }));
    }
}

#[test]
fn test_failed_source_is_isolated() {
    let mut db = Database::new();
    let mut run = SyncRun::start(&mut db, 1000);
    run.begin_source(SyncSource::Calendar, "calendar".to_string());
    run.finish_source(SyncSource::Calendar);
    // the version-control source fails wholesale; the pass moves on
    run.fail_source(SyncSource::Git, "repository walk failed".to_string());
    assert!(matches!(run.phase, SyncPhase::SyncingBrowser));
    let n = run.emitted.len();
    match &run.emitted[n - 1] {
        SyncEvent::SourceCompleted { source, new_events, updated_events } => {
            assert!(matches!(source, SyncSource::Git));
            assert_eq!(*new_events, 0);
            assert_eq!(*updated_events, 0);
        },
        other => panic!("expected a zero-count completion, got {:?}", other),
    }
    run.begin_source(SyncSource::Browser, "browser".to_string());
    run.finish_source(SyncSource::Browser);
    run.complete(&mut db, 2000, 7);
    assert!(matches!(run.phase, SyncPhase::Idle));
}

#[test]
fn test_extract_domain() {
    assert_eq!(extract_domain("https://github.com/a/b"), "github.com".to_string());
    assert_eq!(extract_domain("http://example.org"), "example.org".to_string());
    assert_eq!(extract_domain("no scheme here"), "no scheme here".to_string());
}

#[test]
fn test_extract_repository_path_from_url() {
    assert_eq!(
        extract_repository_path_from_url("https://github.com/facebook/react/issues/123"),
        Some("facebook/react".to_string())
    );
    assert_eq!(
        extract_repository_path_from_url("https://gitlab.com/gitlab-org/gitlab"),
        Some("gitlab-org/gitlab".to_string())
    );
    assert_eq!(
        extract_repository_path_from_url("https://bitbucket.org/atlassian/jira/pull-requests/1"),
        Some("atlassian/jira".to_string())
    );
    assert_eq!(
        extract_repository_path_from_url("https://gitlab.com/group/subgroup/project/merge_requests/4"),
        Some("group/subgroup/project".to_string())
    );
    assert_eq!(extract_repository_path_from_url("https://news.example.com/a/b"), None);
    assert_eq!(extract_repository_path_from_url("https://github.com/onlyorg"), None);
}

#[test]
fn test_truncate_url() {
    let short = "https://example.com/page";
    assert_eq!(truncate_url(short), short.to_string());
    let long: String = "https://example.com/".to_string() + &"x".repeat(70);
    assert_eq!(long.len(), 90);
    let cut = truncate_url(&long);
    assert_eq!(cut.len(), 80);
    assert!(cut.ends_with("..."));
    assert!(long.starts_with(&cut[..77]));
}

#[test]
fn test_clean_notes() {
    assert_eq!(clean_notes(None), None);
    assert_eq!(clean_notes(Some("   \n\n  \n".to_string())), None);
    assert_eq!(
        clean_notes(Some("a  \n\n\n\nb\n\n".to_string())),
        Some("a\n\nb".to_string())
    );
    assert_eq!(clean_notes(Some("plain".to_string())), Some("plain".to_string()));
}

#[test]
fn test_is_excluded_url() {
    assert!(is_excluded_url("chrome://settings"));
    assert!(is_excluded_url("about:config"));
    assert!(is_excluded_url("http://localhost:3000/dev"));
    assert!(is_excluded_url("https://example.com/login"));
    assert!(is_excluded_url("https://site.example/cb?access_token=SECRET-REDACTED"));
    assert!(is_excluded_url("https://shop.example/checkout/cart"));
    assert!(is_excluded_url("https://mail.google.com/mail/u/0/#inbox"));
    assert!(!is_excluded_url("https://github.com/facebook/react"));
    assert!(!is_excluded_url("https://docs.google.com/document/d/1"));
}

#[test]
fn test_pick_default_profile() {
    let names = vec![
        "cache".to_string(),
        "abcd.default".to_string(),
        "efgh.default-release".to_string(),
    ];
    assert_eq!(pick_default_profile(&names), Some(2));
    let plain = vec!["cache".to_string(), "abcd.default".to_string()];
    assert_eq!(pick_default_profile(&plain), Some(1));
    let none: Vec<String> = vec!["cache".to_string()];
    assert_eq!(pick_default_profile(&none), None);
}

#[test]
fn test_check_calendar_permission_is_undetermined_here() {
    assert_eq!(check_calendar_permission(), CalendarPermissionStatus::NotDetermined);
}
