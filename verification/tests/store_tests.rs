//! The deduplicating store: upsert idempotence, key uniqueness, project and
//! rule bookkeeping, and the classification rule engine.

use traceback::db::{Database, Event, EventPayload, EventType, BrowserHistoryEventData};
use traceback::CoreError;

fn plain_event(event_type: EventType, external_id: &str, start: i64) -> Event {
    Event {
        id: None,
        event_type,
        title: "an event".to_string(),
        start_date: start,
        end_date: start,
        external_id: Some(external_id.to_string()),
        external_link: None,
        type_specific_data: None,
        project_id: None,
        organizer_id: None,
        repository_path: None,
        domain: None,
        created_at: 0,
        updated_at: 0,
    }
}

fn browser_event(external_id: &str, url: &str, domain: &str, start: i64) -> Event {
    Event {
        id: None,
        event_type: EventType::BrowserHistory,
        title: "a page".to_string(),
        start_date: start,
        end_date: start,
        external_id: Some(external_id.to_string()),
        external_link: Some(url.to_string()),
        type_specific_data: Some(EventPayload::Browser(BrowserHistoryEventData {
            url: url.to_string(),
            domain: domain.to_string(),
            page_title: None,
            visit_count: 1,
            repository_path: None,
        })),
        project_id: None,
        organizer_id: None,
        repository_path: None,
        domain: Some(domain.to_string()),
        created_at: 0,
        updated_at: 0,
    }
}

#[test]
fn test_resync_unchanged_window_is_idempotent() {
    let mut db = Database::new();
    let (id1, was_new1) = db.upsert_event(plain_event(EventType::Calendar, "ev-1", 50), 100);
    assert!(was_new1);
    let (id2, was_new2) = db.upsert_event(plain_event(EventType::Calendar, "ev-1", 50), 200);
    assert!(!was_new2);
    assert_eq!(id1, id2);
    assert_eq!(db.events.len(), 1);
    assert_eq!(db.events[0].created_at, 100);
    assert_eq!(db.events[0].updated_at, 200);
}

#[test]
fn test_event_keys_stay_unique() {
    let mut db = Database::new();
    db.upsert_event(plain_event(EventType::Calendar, "k", 1), 10);
    db.upsert_event(plain_event(EventType::Git, "k", 2), 10);
    db.upsert_event(plain_event(EventType::Calendar, "k", 3), 20);
    // same key twice collapses to one row; a different type is another key
    assert_eq!(db.events.len(), 2);
    for i in 0..db.events.len() {
        for j in (i + 1)..db.events.len() {
            let a = &db.events[i];
            let b = &db.events[j];
            assert!(
                a.event_type != b.event_type || a.external_id != b.external_id,
                "duplicate key stored"
            );
        }
    }
}

#[test]
fn test_incoming_creation_time_is_kept() {
    let mut db = Database::new();
    let mut ev = plain_event(EventType::Git, "g-1", 5);
    ev.created_at = 42;
    db.upsert_event(ev, 100);
    assert_eq!(db.events[0].created_at, 42);
    assert_eq!(db.events[0].updated_at, 100);
}

#[test]
fn test_domain_rule_assigns_project_and_counts() {
    let mut db = Database::new();
    let pid = db.create_project("Work", None, 10).unwrap();
    let (event_id, _) = db.upsert_event(
        browser_event("b-1", "https://github.com/acme/site", "github.com", 100),
        100,
    );
    db.create_project_rule(pid, "domain", "github.com", 20).unwrap();
    let affected = db.apply_rules_to_events();
    assert_eq!(affected, 1);
    let p = db.get_event_project(event_id).unwrap();
    assert_eq!(p.id, Some(pid));
    assert_eq!(p.name, "Work".to_string());
}

#[test]
fn test_rule_kinds_and_last_rule_wins() {
    let mut db = Database::new();
    let p1 = db.create_project("First", None, 1).unwrap();
    let p2 = db.create_project("Second", None, 2).unwrap();

    // a calendar event with an organizer contact
    let oid = db.upsert_contact("Alice", Some("alice@example.com"), 5);
    let mut cal = plain_event(EventType::Calendar, "c-1", 10);
    cal.title = "Weekly Planning Meeting".to_string();
    cal.organizer_id = Some(oid);
    let (cal_id, _) = db.upsert_event(cal, 10);

    // a version-control event with a repository path
    let mut git = plain_event(EventType::Git, "g-1", 20);
    git.repository_path = Some("acme/site".to_string());
    let (git_id, _) = db.upsert_event(git, 20);

    // a browser event with a URL
    let (web_id, _) = db.upsert_event(
        browser_event("b-1", "https://github.com/acme/site/issues/9", "github.com", 30),
        30,
    );

    db.create_project_rule(p1, "organizer", "Alice", 40).unwrap();
    db.create_project_rule(p1, "title_pattern", "planning", 41).unwrap();
    db.create_project_rule(p1, "repository", "acme/site", 42).unwrap();
    db.create_project_rule(p1, "url_pattern", "%github.com%issues%", 43).unwrap();
    db.create_project_rule(p2, "domain", "github.com", 44).unwrap();

    let affected = db.apply_rules_to_events();
    // organizer + title match the calendar event; repository matches the
    // version-control event; url_pattern and domain match the browser event
    assert_eq!(affected, 5);
    assert_eq!(db.get_event_project(cal_id).unwrap().id, Some(p1));
    assert_eq!(db.get_event_project(git_id).unwrap().id, Some(p1));
    // the domain rule runs after the url rule, so its project wins
    assert_eq!(db.get_event_project(web_id).unwrap().id, Some(p2));
}

#[test]
fn test_create_project_rejects_duplicate_name() {
    let mut db = Database::new();
    db.create_project("Work", Some("#fff"), 1).unwrap();
    assert_eq!(db.create_project("Work", None, 2), Err(CoreError::StoreError));
    assert_eq!(db.projects.len(), 1);
}

#[test]
fn test_delete_project_clears_events_and_rules() {
    let mut db = Database::new();
    let pid = db.create_project("Work", None, 1).unwrap();
    let (event_id, _) = db.upsert_event(plain_event(EventType::Calendar, "c-1", 5), 5);
    db.assign_event_to_project(event_id, Some(pid));
    db.create_project_rule(pid, "domain", "github.com", 6).unwrap();
    db.delete_project(pid);
    assert_eq!(db.projects.len(), 0);
    assert_eq!(db.project_rules.len(), 0);
    assert_eq!(db.events.len(), 1);
    assert_eq!(db.events[0].project_id, None);
}

#[test]
fn test_rule_pair_must_be_unique() {
    let mut db = Database::new();
    let pid = db.create_project("Work", None, 1).unwrap();
    db.create_project_rule(pid, "domain", "github.com", 2).unwrap();
    assert_eq!(
        db.create_project_rule(pid, "domain", "github.com", 3),
        Err(CoreError::StoreError)
    );
    assert_eq!(db.project_rules.len(), 1);
}

#[test]
fn test_github_org_validation() {
    let mut db = Database::new();
    assert!(db.add_github_org("acme").is_ok());
    assert_eq!(db.add_github_org("acme"), Err(CoreError::ValidationError));
    assert_eq!(db.add_github_org(""), Err(CoreError::ValidationError));
    assert_eq!(db.add_github_org("-leading"), Err(CoreError::ValidationError));
    assert_eq!(db.add_github_org("has space"), Err(CoreError::ValidationError));
    assert_eq!(
        db.add_github_org("a-very-long-name-far-over-the-thirty-nine-limit"),
        Err(CoreError::ValidationError)
    );
    assert!(db.add_github_org("other-org").is_ok());
    db.remove_github_org("acme");
    assert_eq!(db.get_github_orgs(), vec!["other-org".to_string()]);
}

#[test]
fn test_settings_roundtrip() {
    let mut db = Database::new();
    assert_eq!(db.get_setting("git_dev_folder"), None);
    db.set_setting("git_dev_folder", "/home/dev", 1);
    assert_eq!(db.get_setting("git_dev_folder"), Some("/home/dev".to_string()));
    db.set_setting("git_dev_folder", "/srv/dev", 2);
    assert_eq!(db.get_setting("git_dev_folder"), Some("/srv/dev".to_string()));
    assert_eq!(db.settings.len(), 1);
}

#[test]
fn test_init_default_settings() {
    let mut db = Database::new();
    db.init_default_settings(Some("/home/dev/Development"), None, 7);
    assert_eq!(
        db.get_setting("git_dev_folder"),
        Some("/home/dev/Development".to_string())
    );
    assert_eq!(db.work_domains.len(), 13);
    let domains = db.get_work_domains();
    assert!(domains.iter().any(|d| d.domain == "github.com"));
    assert!(domains.iter().any(|d| d.domain == "notion.so"));
    // seeding again changes nothing
    db.init_default_settings(Some("/elsewhere"), None, 8);
    assert_eq!(
        db.get_setting("git_dev_folder"),
        Some("/home/dev/Development".to_string())
    );
    assert_eq!(db.work_domains.len(), 13);
}

#[test]
fn test_get_events_filters_and_sorts() {
    let mut db = Database::new();
    db.init_default_settings(None, None, 1);
    db.upsert_event(plain_event(EventType::Calendar, "c-1", 300), 1);
    db.upsert_event(browser_event("b-1", "https://github.com/a/b", "github.com", 100), 1);
    db.upsert_event(browser_event("b-2", "https://blocked.example/x", "blocked.example", 200), 1);
    let events = db.get_events(None, None);
    // the browsing event off the allow-list is hidden
    assert_eq!(events.len(), 2);
    assert!(events[0].start_date <= events[1].start_date);
    assert_eq!(events[0].start_date, 100);
    assert_eq!(events[1].start_date, 300);
    // the date window applies to both ends
    let windowed = db.get_events(Some(150), None);
    assert_eq!(windowed.len(), 1);
    assert_eq!(windowed[0].start_date, 300);
}

#[test]
fn test_get_events_by_project_sorts_newest_first() {
    let mut db = Database::new();
    let pid = db.create_project("Work", None, 1).unwrap();
    let (e1, _) = db.upsert_event(plain_event(EventType::Calendar, "c-1", 100), 1);
    let (e2, _) = db.upsert_event(plain_event(EventType::Calendar, "c-2", 200), 1);
    db.assign_event_to_project(e1, Some(pid));
    db.assign_event_to_project(e2, Some(pid));
    let events = db.get_events_by_project(pid, None, None);
    assert_eq!(events.len(), 2);
    assert_eq!(events[0].start_date, 200);
    assert_eq!(events[1].start_date, 100);
}

#[test]
fn test_get_all_projects_sorted_by_name() {
    let mut db = Database::new();
    db.create_project("zeta", None, 1).unwrap();
    db.create_project("alpha", None, 2).unwrap();
    db.create_project("middle", None, 3).unwrap();
    let projects = db.get_all_projects();
    assert_eq!(projects.len(), 3);
    assert_eq!(projects[0].name, "alpha".to_string());
    assert_eq!(projects[1].name, "middle".to_string());
    assert_eq!(projects[2].name, "zeta".to_string());
}

#[test]
fn test_get_project_rules_newest_first() {
    let mut db = Database::new();
    let pid = db.create_project("Work", None, 1).unwrap();
    db.create_project_rule(pid, "domain", "a.com", 10).unwrap();
    db.create_project_rule(pid, "domain", "b.com", 30).unwrap();
    db.create_project_rule(pid, "domain", "c.com", 20).unwrap();
    let rules = db.get_project_rules(Some(pid));
    assert_eq!(rules.len(), 3);
    assert_eq!(rules[0].created_at, 30);
    assert_eq!(rules[1].created_at, 20);
    assert_eq!(rules[2].created_at, 10);
    assert_eq!(db.get_project_rules(Some(pid + 1)).len(), 0);
}

#[test]
fn test_upsert_contact_reuses_and_distinguishes() {
    let mut db = Database::new();
    let a = db.upsert_contact("Alice", Some("alice@example.com"), 1);
    let b = db.upsert_contact("Alice", Some("alice@example.com"), 2);
    assert_eq!(a, b);
    assert_eq!(db.contacts.len(), 1);
    assert_eq!(db.contacts[0].updated_at, 2);
    // same name with no email is a different contact
    let c = db.upsert_contact("Alice", None, 3);
    assert_ne!(a, c);
    assert_eq!(db.contacts.len(), 2);
}

#[test]
fn test_discovered_repository_paths_are_distinct() {
    let mut db = Database::new();
    let mut g1 = plain_event(EventType::Git, "g-1", 1);
    g1.type_specific_data = Some(EventPayload::Git(traceback::db::GitEventData {
        repository_id: "r1".to_string(),
        repository_name: "react".to_string(),
        activity_type: "commit".to_string(),
        ref_name: None,
        commit_hash: None,
        repository_path: Some("facebook/react".to_string()),
        origin_url: None,
    }));
    let mut g2 = plain_event(EventType::Git, "g-2", 2);
    g2.type_specific_data = Some(EventPayload::Git(traceback::db::GitEventData {
        repository_id: "r1".to_string(),
        repository_name: "react".to_string(),
        activity_type: "pull".to_string(),
        ref_name: None,
        commit_hash: None,
        repository_path: Some("facebook/react".to_string()),
        origin_url: None,
    }));
    db.upsert_event(g1, 1);
    db.upsert_event(g2, 2);
    let paths = db.get_discovered_repository_paths();
    assert_eq!(paths, vec!["facebook/react".to_string()]);
}

#[test]
fn test_update_project_and_rule() {
    let mut db = Database::new();
    let p1 = db.create_project("One", None, 1).unwrap();
    let p2 = db.create_project("Two", None, 2).unwrap();
    assert_eq!(db.update_project(p1, "Two", None), Err(CoreError::StoreError));
    assert!(db.update_project(p1, "Renamed", Some("#abc")).is_ok());
    assert_eq!(db.get_project(p1).unwrap().name, "Renamed".to_string());
    assert_eq!(db.get_project(p2).unwrap().name, "Two".to_string());
    let r1 = db.create_project_rule(p1, "domain", "a.com", 3).unwrap();
    let _r2 = db.create_project_rule(p1, "domain", "b.com", 4).unwrap();
    assert_eq!(
        db.update_project_rule(r1, "domain", "b.com"),
        Err(CoreError::StoreError)
    );
    assert!(db.update_project_rule(r1, "title_pattern", "sync").is_ok());
    db.delete_project_rule(r1);
    assert_eq!(db.project_rules.len(), 1);
}

#[test]
fn test_clear_event_data() {
    let mut db = Database::new();
    db.create_project("Keep", None, 1).unwrap();
    db.upsert_event(plain_event(EventType::Calendar, "c-1", 1), 1);
    db.upsert_contact("Alice", None, 1);
    db.update_sync_status(Some(100), false, 100);
    db.clear_event_data();
    assert_eq!(db.events.len(), 0);
    assert_eq!(db.contacts.len(), 0);
    assert!(db.get_sync_status(200).last_sync_time.is_none());
    assert_eq!(db.projects.len(), 1);
}

#[test]
fn test_events_without_external_id_never_collide() {
    let mut db = Database::new();
    let mut a = plain_event(EventType::Calendar, "unused", 1);
    a.external_id = None;
    let mut b = plain_event(EventType::Calendar, "unused", 2);
    b.external_id = None;
    let (_, new_a) = db.upsert_event(a, 10);
    let (_, new_b) = db.upsert_event(b, 11);
    assert!(new_a);
    assert!(new_b);
    assert_eq!(db.events.len(), 2);
}
