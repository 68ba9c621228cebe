//! The deduplicating event store: at most one row per (event type,
//! external id), first-seen creation time kept across updates, plus the
//! projects, rules, contacts, work domains, settings and sync metadata that
//! the rest of the pipeline reads and writes.

use vstd::multiset::Multiset;
use vstd::prelude::*;
use vstd::string::StringExecFns;

use crate::text::str_eq;
use crate::text::str_le;

verus! {

broadcast use vstd::seq_lib::group_to_multiset_ensures;

/// The source an event came from.
#[derive(Debug, Clone, Copy, PartialEq, Eq, Structural)]
pub enum EventType {
    Calendar,
    Git,
    BrowserHistory,
}

/// Calendar-specific fields of an event.
#[derive(Debug, Clone)]
pub struct CalendarEventData {
    pub location: Option<String>,
    pub notes: Option<String>,
    pub is_all_day: bool,
    pub organizer: Option<String>,
    pub attendees: Option<Vec<String>>,
}

/// Version-control-specific fields of an event.
#[derive(Debug, Clone)]
pub struct GitEventData {
    pub repository_id: String,
    pub repository_name: String,
    pub activity_type: String,
    pub ref_name: Option<String>,
    pub commit_hash: Option<String>,
    pub repository_path: Option<String>,
    pub origin_url: Option<String>,
}

/// Browser-history-specific fields of an event.
#[derive(Debug, Clone)]
pub struct BrowserHistoryEventData {
    pub url: String,
    pub domain: String,
    pub page_title: Option<String>,
    pub visit_count: i32,
    pub repository_path: Option<String>,
}

/// The per-source payload of an event, one variant per event type, typed
/// everywhere and serialized only at the storage boundary.
#[derive(Debug, Clone)]
pub enum EventPayload {
    Calendar(CalendarEventData),
    Git(GitEventData),
    Browser(BrowserHistoryEventData),
}

/// One normalized activity record.
#[derive(Debug, Clone)]
pub struct Event {
    pub id: Option<i64>,
    pub event_type: EventType,
    pub title: String,
    pub start_date: i64,
    pub end_date: i64,
    pub external_id: Option<String>,
    pub external_link: Option<String>,
    pub type_specific_data: Option<EventPayload>,
    pub project_id: Option<i64>,
    pub organizer_id: Option<i64>,
    pub repository_path: Option<String>,
    pub domain: Option<String>,
    pub created_at: i64,
    pub updated_at: i64,
}

/// A project events can be classified into.
#[derive(Debug, Clone)]
pub struct Project {
    pub id: Option<i64>,
    pub name: String,
    pub color: Option<String>,
    pub created_at: i64,
}

/// A declarative rule assigning a project to matching events.
#[derive(Debug, Clone)]
pub struct ProjectRule {
    pub id: Option<i64>,
    pub project_id: i64,
    pub rule_type: String,
    pub match_value: String,
    pub created_at: i64,
}

/// A person named as organizer of a calendar event.
#[derive(Debug, Clone)]
pub struct Contact {
    pub id: Option<i64>,
    pub name: String,
    pub email: Option<String>,
    pub created_at: i64,
    pub updated_at: i64,
}

/// An allow-listed web authority gating which browsing events are visible.
#[derive(Debug, Clone)]
pub struct WorkDomain {
    pub id: Option<i64>,
    pub domain: String,
    pub created_at: i64,
}

/// The singleton sync bookkeeping record.
#[derive(Debug, Clone)]
pub struct SyncStatus {
    pub last_sync_time: Option<i64>,
    pub sync_in_progress: bool,
    pub updated_at: i64,
}

/// One key/value setting.
#[derive(Debug, Clone)]
pub struct Setting {
    pub key: String,
    pub value: String,
    pub updated_at: i64,
}

/// Both events carry an external id, and agree on event type and external
/// id; events without an external id never collide.
pub open spec fn same_key(a: Event, b: Event) -> bool {
    match (a.external_id, b.external_id) {
        (Some(x), Some(y)) => a.event_type == b.event_type && x@ == y@,
        _ => false,
    }
}

/// No two stored events share a key.
pub open spec fn events_unique(events: Seq<Event>) -> bool {
    forall|i: int, j: int|
        0 <= i < j < events.len() ==> !same_key(events[i], events[j])
}

/// Some stored event shares `e`'s key.
pub open spec fn has_key(events: Seq<Event>, e: Event) -> bool {
    exists|i: int| 0 <= i < events.len() && same_key(events[i], e)
}

/// The index of the stored event sharing `e`'s key; meaningful only when
/// `has_key(events, e)`.
pub open spec fn key_idx(events: Seq<Event>, e: Event) -> int {
    choose|i: int| 0 <= i < events.len() && same_key(events[i], e)
}

/// The store, held in memory: every collection a sequence, every id handed
/// out below the matching counter.
pub struct Database {
    pub events: Vec<Event>,
    pub projects: Vec<Project>,
    pub project_rules: Vec<ProjectRule>,
    pub contacts: Vec<Contact>,
    pub work_domains: Vec<WorkDomain>,
    pub settings: Vec<Setting>,
    pub github_orgs: Vec<String>,
    pub sync_metadata: Option<SyncStatus>,
    pub next_event_id: i64,
    pub next_project_id: i64,
    pub next_rule_id: i64,
    pub next_contact_id: i64,
    pub next_work_domain_id: i64,
}

impl Database {
    /// The store's invariant: unique event keys, ids unique and below their
    /// counters, settings keyed uniquely.
    pub open spec fn wf(self) -> bool {
        &&& events_unique(self.events@)
        &&& forall|i: int|
            0 <= i < self.events@.len() ==> ((#[trigger] self.events@[i]).id matches Some(x) && 0
                < x < self.next_event_id)
        &&& forall|i: int, j: int|
            0 <= i < j < self.events@.len() ==> (#[trigger] self.events@[i]).id != (
            #[trigger] self.events@[j]).id
        &&& forall|i: int|
            0 <= i < self.projects@.len() ==> ((#[trigger] self.projects@[i]).id matches Some(x)
                && 0 < x < self.next_project_id)
        &&& forall|i: int, j: int|
            0 <= i < j < self.projects@.len() ==> (#[trigger] self.projects@[i]).id != (
            #[trigger] self.projects@[j]).id
        &&& forall|i: int|
            0 <= i < self.project_rules@.len() ==> ((#[trigger] self.project_rules@[i]).id
                matches Some(x) && 0 < x < self.next_rule_id)
        &&& forall|i: int, j: int|
            0 <= i < j < self.project_rules@.len() ==> (#[trigger] self.project_rules@[i]).id != (
            #[trigger] self.project_rules@[j]).id
        &&& forall|i: int|
            0 <= i < self.contacts@.len() ==> ((#[trigger] self.contacts@[i]).id matches Some(x)
                && 0 < x < self.next_contact_id)
        &&& forall|i: int, j: int|
            0 <= i < j < self.contacts@.len() ==> (#[trigger] self.contacts@[i]).id != (
            #[trigger] self.contacts@[j]).id
        &&& forall|i: int|
            0 <= i < self.work_domains@.len() ==> ((#[trigger] self.work_domains@[i]).id
                matches Some(x) && 0 < x < self.next_work_domain_id)
        &&& forall|i: int, j: int|
            0 <= i < j < self.settings@.len() ==> (#[trigger] self.settings@[i]).key@ != (
            #[trigger] self.settings@[j]).key@
        &&& 0 < self.next_event_id
        &&& 0 < self.next_project_id
        &&& 0 < self.next_rule_id
        &&& 0 < self.next_contact_id
        &&& 0 < self.next_work_domain_id
    }

    /// An empty store.
    pub fn new() -> (r: Database)
        ensures
            r.wf(),
            r.events@.len() == 0,
            r.projects@.len() == 0,
            r.project_rules@.len() == 0,
            r.contacts@.len() == 0,
            r.work_domains@.len() == 0,
            r.settings@.len() == 0,
            r.github_orgs@.len() == 0,
            r.sync_metadata is None,
    {
        Database {
            events: Vec::new(),
            projects: Vec::new(),
            project_rules: Vec::new(),
            contacts: Vec::new(),
            work_domains: Vec::new(),
            settings: Vec::new(),
            github_orgs: Vec::new(),
            sync_metadata: None,
            next_event_id: 1,
            next_project_id: 1,
            next_rule_id: 1,
            next_contact_id: 1,
            next_work_domain_id: 1,
        }
    }

    /// Removes all event data: events, contacts, and the sync record.
    pub fn clear_event_data(&mut self)
        requires
            old(self).wf(),
        ensures
            final(self).wf(),
            final(self).events@.len() == 0,
            final(self).contacts@.len() == 0,
            final(self).sync_metadata is None,
            final(self).projects == old(self).projects,
            final(self).project_rules == old(self).project_rules,
            final(self).work_domains == old(self).work_domains,
            final(self).settings == old(self).settings,
            final(self).github_orgs == old(self).github_orgs,
    {
        self.events = Vec::new();
        self.contacts = Vec::new();
        self.sync_metadata = None;
    }

    /// The index of the stored event sharing `e`'s key, if any.
    fn find_event_by_key(&self, e: &Event) -> (r: Option<usize>)
        requires
            self.wf(),
        ensures
            match r {
                Some(i) => i < self.events@.len() && same_key(self.events@[i as int], *e)
                    && has_key(self.events@, *e) && key_idx(self.events@, *e) == i,
                None => !has_key(self.events@, *e),
            },
    {
        let n = self.events.len();
        let mut i: usize = 0;
        while i < n
            invariant
                self.wf(),
                n == self.events@.len(),
                i <= n,
                forall|j: int| 0 <= j < i ==> !same_key(self.events@[j], *e),
            decreases n - i,
        {
            let same = match (&self.events[i].external_id, &e.external_id) {
                (Some(a), Some(b)) => self.events[i].event_type == e.event_type && str_eq(
                    a.as_str(),
                    b.as_str(),
                ),
                _ => false,
            };
            if same {
                proof {
                    let ii = i as int;
                    assert(same_key(self.events@[ii], *e));
                    let k = key_idx(self.events@, *e);
                    assert(0 <= k < self.events@.len() && same_key(self.events@[k], *e));
                    if k != ii {
                        assert(same_key(self.events@[k], self.events@[ii]));
                        assert(same_key(self.events@[ii], self.events@[k]));
                        if k < ii {
                            assert(!same_key(self.events@[k], self.events@[ii]));
                        } else {
                            assert(!same_key(self.events@[ii], self.events@[k]));
                        }
                        assert(false);
                    }
                }
                return Some(i);
            }
            i += 1;
        }
        None
    }

    /// Inserts or updates one event, keyed on (event type, external id): a
    /// fresh key is appended with creation time `now` (unless the incoming
    /// record already carries one) and answered with `was_new`; a known key
    /// overwrites every field but id and creation time, and advances the
    /// update time.
    pub fn upsert_event(&mut self, event: Event, now: i64) -> (r: (i64, bool))
        requires
            old(self).wf(),
            old(self).next_event_id < i64::MAX,
        ensures
            final(self).wf(),
            final(self).projects == old(self).projects,
            final(self).project_rules == old(self).project_rules,
            final(self).contacts == old(self).contacts,
            final(self).work_domains == old(self).work_domains,
            final(self).settings == old(self).settings,
            final(self).github_orgs == old(self).github_orgs,
            final(self).sync_metadata == old(self).sync_metadata,
            final(self).next_project_id == old(self).next_project_id,
            final(self).next_rule_id == old(self).next_rule_id,
            final(self).next_contact_id == old(self).next_contact_id,
            final(self).next_work_domain_id == old(self).next_work_domain_id,
            final(self).events@ == upsert_result_events(
                old(self).events@,
                old(self).next_event_id,
                event,
                now,
            ),
            r.1 == upsert_was_new(old(self).events@, event),
            if has_key(old(self).events@, event) {
                let i = key_idx(old(self).events@, event);
                &&& r.1 == false
                &&& Some(r.0) == old(self).events@[i].id
                &&& final(self).events@ == old(self).events@.update(
                    i,
                    merged_event(old(self).events@[i], event, now),
                )
                &&& final(self).next_event_id == old(self).next_event_id
            } else {
                &&& r.1 == true
                &&& r.0 == old(self).next_event_id
                &&& final(self).events@ == old(self).events@.push(
                    inserted_event(event, old(self).next_event_id, now),
                )
                &&& final(self).next_event_id == old(self).next_event_id + 1
            },
    {
        match self.find_event_by_key(&event) {
            Some(i) => {
                let old_id = self.events[i].id;
                let old_created = self.events[i].created_at;
                let rid = match old_id {
                    Some(x) => x,
                    None => {
                        proof {
                            assert((self.events@[i as int]).id matches Some(x) && 0 < x
                                < self.next_event_id);
                            assert(false);
                        }
                        0
                    },
                };
                let stored = Event {
                    id: old_id,
                    created_at: old_created,
                    updated_at: now,
                    ..event
                };
                proof {
                    assert(stored == merged_event(self.events@[i as int], event, now));
                }
                self.events.set(i, stored);
                proof {
                    let es0 = old(self).events@;
                    let es1 = self.events@;
                    let ii = i as int;
                    assert forall|p: int, q: int| 0 <= p < q < es1.len() implies !same_key(
                        es1[p],
                        es1[q],
                    ) by {
                        if p != ii && q != ii {
                            assert(!same_key(es0[p], es0[q]));
                        } else if p == ii {
                            assert(!same_key(es0[p], es0[q]));
                            assert(same_key(es0[ii], es1[ii]) == same_key(es0[ii], es0[ii]));
                        } else {
                            assert(!same_key(es0[p], es0[q]));
                        }
                    }
                }
                (rid, false)
            },
            None => {
                let new_id = self.next_event_id;
                let created = if event.created_at == 0 {
                    now
                } else {
                    event.created_at
                };
                let stored = Event { id: Some(new_id), created_at: created, updated_at: now, ..event };
                proof {
                    assert(stored == inserted_event(event, old(self).next_event_id, now));
                }
                self.events.push(stored);
                self.next_event_id = new_id + 1;
                (new_id, true)
            },
        }
    }
}

/// Some setting carries this key.
pub open spec fn has_setting(settings: Seq<Setting>, key: Seq<char>) -> bool {
    exists|i: int| 0 <= i < settings.len() && settings[i].key@ == key
}

/// The index of the setting carrying `key`; meaningful only when
/// `has_setting(settings, key)`.
pub open spec fn setting_idx(settings: Seq<Setting>, key: Seq<char>) -> int {
    choose|i: int| 0 <= i < settings.len() && settings[i].key@ == key
}

/// A character allowed in an organization name: ASCII alphanumeric or a
/// hyphen.
pub open spec fn is_org_char(c: char) -> bool {
    ('0' <= c && c <= '9') || ('a' <= c && c <= 'z') || ('A' <= c && c <= 'Z') || c == '-'
}

/// A well-formed organization name: 1 to 39 characters, alphanumerics and
/// hyphens only, and no leading hyphen.
pub open spec fn valid_org_name(n: Seq<char>) -> bool {
    &&& 1 <= n.len() <= 39
    &&& n[0] != '-'
    &&& forall|i: int| 0 <= i < n.len() ==> is_org_char(#[trigger] n[i])
}

/// `orgs` with every entry reading `name` removed, order kept.
pub open spec fn without_org(orgs: Seq<String>, name: Seq<char>) -> Seq<String>
    decreases orgs.len(),
{
    if orgs.len() == 0 {
        orgs
    } else {
        let rest = without_org(orgs.drop_last(), name);
        if orgs.last()@ != name {
            rest.push(orgs.last())
        } else {
            rest
        }
    }
}

/// The contact record carries this name and email.
pub open spec fn contact_matches(c: Contact, name: Seq<char>, email: Option<Seq<char>>) -> bool {
    c.name@ == name && match (c.email, email) {
        (Some(a), Some(b)) => a@ == b,
        (None, None) => true,
        _ => false,
    }
}

/// The outcome of finding-or-creating one contact: a stored contact with
/// this name and email is refreshed and its id answered; otherwise a fresh
/// contact is appended under the next id.
pub open spec fn contact_upsert_post(
    old_contacts: Seq<Contact>,
    old_next: i64,
    new_contacts: Seq<Contact>,
    new_next: i64,
    r: i64,
    name: Seq<char>,
    email: Option<Seq<char>>,
    now: i64,
) -> bool {
    if exists|i: int|
        0 <= i < old_contacts.len() && contact_matches(#[trigger] old_contacts[i], name, email) {
        exists|i: int|
            {
                &&& 0 <= i < old_contacts.len()
                &&& contact_matches(#[trigger] old_contacts[i], name, email)
                &&& Some(r) == old_contacts[i].id
                &&& new_contacts == old_contacts.update(
                    i,
                    Contact { updated_at: now, ..old_contacts[i] },
                )
                &&& new_next == old_next
            }
    } else {
        &&& r == old_next
        &&& new_next == old_next + 1
        &&& new_contacts.len() == old_contacts.len() + 1
        &&& (forall|j: int| 0 <= j < old_contacts.len() ==> new_contacts[j] == old_contacts[j])
        &&& new_contacts.last().id == Some(r)
        &&& new_contacts.last().name@ == name
        &&& (match (new_contacts.last().email, email) {
            (Some(a), Some(b)) => a@ == b,
            (None, None) => true,
            _ => false,
        })
        &&& new_contacts.last().created_at == now
        &&& new_contacts.last().updated_at == now
    }
}

impl Database {
    /// The index of the setting carrying `key`, if any.
    fn find_setting(&self, key: &str) -> (r: Option<usize>)
        requires
            self.wf(),
        ensures
            match r {
                Some(i) => i < self.settings@.len() && self.settings@[i as int].key@ == key@
                    && has_setting(self.settings@, key@) && setting_idx(self.settings@, key@)
                    == i,
                None => !has_setting(self.settings@, key@),
            },
    {
        let n = self.settings.len();
        let mut i: usize = 0;
        while i < n
            invariant
                self.wf(),
                n == self.settings@.len(),
                i <= n,
                forall|j: int| 0 <= j < i ==> (#[trigger] self.settings@[j]).key@ != key@,
            decreases n - i,
        {
            if str_eq(self.settings[i].key.as_str(), key) {
                proof {
                    let ii = i as int;
                    let k = setting_idx(self.settings@, key@);
                    assert(0 <= k < self.settings@.len() && self.settings@[k].key@ == key@);
                    if k != ii {
                        assert(false);
                    }
                }
                return Some(i);
            }
            i += 1;
        }
        None
    }

    /// The value stored under a settings key, if any.
    pub fn get_setting(&self, key: &str) -> (r: Option<String>)
        requires
            self.wf(),
        ensures
            match r {
                Some(v) => has_setting(self.settings@, key@) && v@ == self.settings@[setting_idx(
                    self.settings@,
                    key@,
                )].value@,
                None => !has_setting(self.settings@, key@),
            },
    {
        match self.find_setting(key) {
            Some(i) => Some(self.settings[i].value.clone()),
            None => None,
        }
    }

    /// Stores a value under a settings key, replacing any prior value.
    pub fn set_setting(&mut self, key: &str, value: &str, now: i64)
        requires
            old(self).wf(),
        ensures
            final(self).wf(),
            final(self).events == old(self).events,
            final(self).projects == old(self).projects,
            final(self).project_rules == old(self).project_rules,
            final(self).contacts == old(self).contacts,
            final(self).work_domains == old(self).work_domains,
            final(self).github_orgs == old(self).github_orgs,
            final(self).sync_metadata == old(self).sync_metadata,
            final(self).next_event_id == old(self).next_event_id,
            final(self).next_project_id == old(self).next_project_id,
            final(self).next_rule_id == old(self).next_rule_id,
            final(self).next_contact_id == old(self).next_contact_id,
            final(self).next_work_domain_id == old(self).next_work_domain_id,
            if has_setting(old(self).settings@, key@) {
                let i = setting_idx(old(self).settings@, key@);
                &&& final(self).settings@.len() == old(self).settings@.len()
                &&& (forall|j: int|
                    0 <= j < old(self).settings@.len() && j != i ==> final(self).settings@[j]
                        == old(self).settings@[j])
                &&& final(self).settings@[i].key@ == key@
                &&& final(self).settings@[i].value@ == value@
                &&& final(self).settings@[i].updated_at == now
            } else {
                &&& final(self).settings@.len() == old(self).settings@.len() + 1
                &&& (forall|j: int|
                    0 <= j < old(self).settings@.len() ==> final(self).settings@[j] == old(
                        self,
                    ).settings@[j])
                &&& final(self).settings@.last().key@ == key@
                &&& final(self).settings@.last().value@ == value@
                &&& final(self).settings@.last().updated_at == now
            },
    {
        match self.find_setting(key) {
            Some(i) => {
                let s = Setting {
                    key: String::from_str(key),
                    value: String::from_str(value),
                    updated_at: now,
                };
                self.settings.set(i, s);
            },
            None => {
                let s = Setting {
                    key: String::from_str(key),
                    value: String::from_str(value),
                    updated_at: now,
                };
                self.settings.push(s);
            },
        }
    }

    /// The sync record as read back: where none was ever written, an empty
    /// one stamped with the present instant.
    pub fn get_sync_status(&self, now: i64) -> (r: SyncStatus)
        ensures
            match self.sync_metadata {
                Some(s) => r.last_sync_time == s.last_sync_time && r.sync_in_progress
                    == s.sync_in_progress && r.updated_at == s.updated_at,
                None => r.last_sync_time is None && !r.sync_in_progress && r.updated_at == now,
            },
    {
        match &self.sync_metadata {
            Some(s) => SyncStatus {
                last_sync_time: s.last_sync_time,
                sync_in_progress: s.sync_in_progress,
                updated_at: s.updated_at,
            },
            None => SyncStatus { last_sync_time: None, sync_in_progress: false, updated_at: now },
        }
    }

    /// Writes the sync record: a given completion instant replaces the
    /// stored one; otherwise only the in-progress flag and the write time
    /// change, and a missing record is created without a completion instant.
    pub fn update_sync_status(&mut self, last_sync_time: Option<i64>, sync_in_progress: bool, now: i64)
        requires
            old(self).wf(),
        ensures
            final(self).wf(),
            final(self).events == old(self).events,
            final(self).projects == old(self).projects,
            final(self).project_rules == old(self).project_rules,
            final(self).contacts == old(self).contacts,
            final(self).work_domains == old(self).work_domains,
            final(self).settings == old(self).settings,
            final(self).github_orgs == old(self).github_orgs,
            final(self).next_event_id == old(self).next_event_id,
            match last_sync_time {
                Some(t) => final(self).sync_metadata == Some(
                    SyncStatus {
                        last_sync_time: Some(t),
                        sync_in_progress: sync_in_progress,
                        updated_at: now,
                    },
                ),
                None => match old(self).sync_metadata {
                    Some(s) => final(self).sync_metadata == Some(
                        SyncStatus {
                            last_sync_time: s.last_sync_time,
                            sync_in_progress: sync_in_progress,
                            updated_at: now,
                        },
                    ),
                    None => final(self).sync_metadata == Some(
                        SyncStatus {
                            last_sync_time: None,
                            sync_in_progress: sync_in_progress,
                            updated_at: now,
                        },
                    ),
                },
            },
    {
        let kept: Option<i64> = match (&last_sync_time, &self.sync_metadata) {
            (Some(t), _) => Some(*t),
            (None, Some(s)) => s.last_sync_time,
            (None, None) => None,
        };
        self.sync_metadata = Some(
            SyncStatus { last_sync_time: kept, sync_in_progress, updated_at: now },
        );
    }

    /// The configured organization names, in their stored order.
    pub fn get_github_orgs(&self) -> (r: Vec<String>)
        ensures
            r@ == self.github_orgs@,
    {
        let n = self.github_orgs.len();
        let mut out: Vec<String> = Vec::new();
        let mut i: usize = 0;
        while i < n
            invariant
                n == self.github_orgs@.len(),
                i <= n,
                out@ =~= self.github_orgs@.subrange(0, i as int),
            decreases n - i,
        {
            out.push(self.github_orgs[i].clone());
            i += 1;
        }
        proof {
            assert(self.github_orgs@.subrange(0, n as int) =~= self.github_orgs@);
        }
        out
    }

    /// Checks an organization name against the rules a code host imposes.
    fn org_name_is_valid(name: &str) -> (r: bool)
        ensures
            r == valid_org_name(name@),
    {
        let n = vstd::string::StrSliceExecFns::unicode_len(name);
        if n == 0 || n > 39 {
            return false;
        }
        if vstd::string::StrSliceExecFns::get_char(name, 0) == '-' {
            return false;
        }
        let mut i: usize = 0;
        while i < n
            invariant
                n == name@.len(),
                i <= n,
                forall|j: int| 0 <= j < i ==> is_org_char(#[trigger] name@[j]),
            decreases n - i,
        {
            let c = vstd::string::StrSliceExecFns::get_char(name, i);
            let ok = ('0' <= c && c <= '9') || ('a' <= c && c <= 'z') || ('A' <= c && c <= 'Z')
                || c == '-';
            if !ok {
                return false;
            }
            i += 1;
        }
        true
    }

    /// Adds an organization name to the allow-list: refused as malformed
    /// when it breaks the naming rules, and as a duplicate when it is
    /// already listed.
    pub fn add_github_org(&mut self, org_name: &str) -> (r: Result<(), crate::CoreError>)
        requires
            old(self).wf(),
        ensures
            final(self).wf(),
            final(self).events == old(self).events,
            final(self).projects == old(self).projects,
            final(self).project_rules == old(self).project_rules,
            final(self).contacts == old(self).contacts,
            final(self).work_domains == old(self).work_domains,
            final(self).settings == old(self).settings,
            final(self).sync_metadata == old(self).sync_metadata,
            final(self).next_event_id == old(self).next_event_id,
            match r {
                Ok(()) => {
                    &&& valid_org_name(org_name@)
                    &&& !(exists|i: int|
                        0 <= i < old(self).github_orgs@.len() && (
                        #[trigger] old(self).github_orgs@[i])@ == org_name@)
                    &&& final(self).github_orgs@.len() == old(self).github_orgs@.len() + 1
                    &&& (forall|j: int|
                        0 <= j < old(self).github_orgs@.len() ==> final(self).github_orgs@[j]
                            == old(self).github_orgs@[j])
                    &&& final(self).github_orgs@.last()@ == org_name@
                },
                Err(e) => {
                    &&& e == crate::CoreError::ValidationError
                    &&& (!valid_org_name(org_name@) || exists|i: int|
                        0 <= i < old(self).github_orgs@.len() && (
                        #[trigger] old(self).github_orgs@[i])@ == org_name@)
                    &&& final(self).github_orgs == old(self).github_orgs
                },
            },
    {
        if !Self::org_name_is_valid(org_name) {
            return Err(crate::CoreError::ValidationError);
        }
        if self.org_listed(org_name) {
            return Err(crate::CoreError::ValidationError);
        }
        self.github_orgs.push(String::from_str(org_name));
        Ok(())
    }

    /// Is this organization name already on the allow-list?
    fn org_listed(&self, org_name: &str) -> (r: bool)
        ensures
            r == exists|i: int|
                0 <= i < self.github_orgs@.len() && (#[trigger] self.github_orgs@[i])@
                    == org_name@,
    {
        let n = self.github_orgs.len();
        let mut i: usize = 0;
        while i < n
            invariant
                n == self.github_orgs@.len(),
                i <= n,
                forall|j: int| 0 <= j < i ==> (#[trigger] self.github_orgs@[j])@ != org_name@,
            decreases n - i,
        {
            if str_eq(self.github_orgs[i].as_str(), org_name) {
                return true;
            }
            i += 1;
        }
        false
    }

    /// Removes every copy of an organization name from the allow-list,
    /// keeping the order of the rest.
    pub fn remove_github_org(&mut self, org_name: &str)
        requires
            old(self).wf(),
        ensures
            final(self).wf(),
            final(self).events == old(self).events,
            final(self).projects == old(self).projects,
            final(self).project_rules == old(self).project_rules,
            final(self).contacts == old(self).contacts,
            final(self).work_domains == old(self).work_domains,
            final(self).settings == old(self).settings,
            final(self).sync_metadata == old(self).sync_metadata,
            final(self).next_event_id == old(self).next_event_id,
            final(self).github_orgs@ == without_org(old(self).github_orgs@, org_name@),
    {
        let n = self.github_orgs.len();
        let mut out: Vec<String> = Vec::new();
        let mut i: usize = 0;
        while i < n
            invariant
                n == self.github_orgs@.len(),
                i <= n,
                out@ =~= without_org(self.github_orgs@.subrange(0, i as int), org_name@),
            decreases n - i,
        {
            let ghost pre = self.github_orgs@.subrange(0, i as int);
            let ghost post = self.github_orgs@.subrange(0, i + 1);
            proof {
                assert(post.drop_last() =~= pre);
                assert(post.last() == self.github_orgs@[i as int]);
            }
            if !str_eq(self.github_orgs[i].as_str(), org_name) {
                out.push(self.github_orgs[i].clone());
            }
            i += 1;
        }
        proof {
            assert(self.github_orgs@.subrange(0, n as int) =~= self.github_orgs@);
        }
        self.github_orgs = out;
    }

    /// The index of the first contact carrying this name and email, if any.
    fn find_contact(&self, name: &str, email: Option<&str>) -> (r: Option<usize>)
        ensures
            match r {
                Some(i) => i < self.contacts@.len() && contact_matches(
                    self.contacts@[i as int],
                    name@,
                    match email {
                        Some(e) => Some(e@),
                        None => None,
                    },
                ) && forall|j: int|
                    0 <= j < i ==> !contact_matches(
                        self.contacts@[j],
                        name@,
                        match email {
                            Some(e) => Some(e@),
                            None => None,
                        },
                    ),
                None => forall|j: int|
                    0 <= j < self.contacts@.len() ==> !contact_matches(
                        self.contacts@[j],
                        name@,
                        match email {
                            Some(e) => Some(e@),
                            None => None,
                        },
                    ),
            },
    {
        let n = self.contacts.len();
        let mut i: usize = 0;
        while i < n
            invariant
                n == self.contacts@.len(),
                i <= n,
                forall|j: int|
                    0 <= j < i ==> !contact_matches(
                        self.contacts@[j],
                        name@,
                        match email {
                            Some(e) => Some(e@),
                            None => None,
                        },
                    ),
            decreases n - i,
        {
            let name_same = str_eq(self.contacts[i].name.as_str(), name);
            let email_same = match (&self.contacts[i].email, &email) {
                (Some(a), Some(b)) => str_eq(a.as_str(), b),
                (None, None) => true,
                _ => false,
            };
            if name_same && email_same {
                return Some(i);
            }
            i += 1;
        }
        None
    }

    /// Finds or creates the contact carrying this name and email, and
    /// returns its id; an existing contact only has its update time
    /// refreshed.
    pub fn upsert_contact(&mut self, name: &str, email: Option<&str>, now: i64) -> (r: i64)
        requires
            old(self).wf(),
            old(self).next_contact_id < i64::MAX,
        ensures
            final(self).wf(),
            final(self).events == old(self).events,
            final(self).projects == old(self).projects,
            final(self).project_rules == old(self).project_rules,
            final(self).work_domains == old(self).work_domains,
            final(self).settings == old(self).settings,
            final(self).github_orgs == old(self).github_orgs,
            final(self).sync_metadata == old(self).sync_metadata,
            final(self).next_event_id == old(self).next_event_id,
            contact_upsert_post(
                old(self).contacts@,
                old(self).next_contact_id,
                final(self).contacts@,
                final(self).next_contact_id,
                r,
                name@,
                match email {
                    Some(e) => Some(e@),
                    None => None,
                },
                now,
            ),
    {
        match self.find_contact(name, email) {
            Some(i) => {
                let id = match self.contacts[i].id {
                    Some(x) => x,
                    None => {
                        proof {
                            assert((self.contacts@[i as int]).id matches Some(x) && 0 < x
                                < self.next_contact_id);
                            assert(false);
                        }
                        0
                    },
                };
                let refreshed = Contact {
                    id: self.contacts[i].id,
                    name: self.contacts[i].name.clone(),
                    email: match &self.contacts[i].email {
                        Some(e) => Some(e.clone()),
                        None => None,
                    },
                    created_at: self.contacts[i].created_at,
                    updated_at: now,
                };
                proof {
                    assert(refreshed == Contact {
                        updated_at: now,
                        ..self.contacts@[i as int]
                    });
                }
                self.contacts.set(i, refreshed);
                id
            },
            None => {
                let id = self.next_contact_id;
                let c = Contact {
                    id: Some(id),
                    name: String::from_str(name),
                    email: match email {
                        Some(e) => Some(String::from_str(e)),
                        None => None,
                    },
                    created_at: now,
                    updated_at: now,
                };
                self.contacts.push(c);
                self.next_contact_id = id + 1;
                id
            },
        }
    }
}

/// Some project carries this id.
pub open spec fn has_project_id(projects: Seq<Project>, id: i64) -> bool {
    exists|i: int| 0 <= i < projects.len() && projects[i].id == Some(id)
}

/// The index of the project carrying `id`; meaningful only when
/// `has_project_id(projects, id)`.
pub open spec fn project_idx(projects: Seq<Project>, id: i64) -> int {
    choose|i: int| 0 <= i < projects.len() && projects[i].id == Some(id)
}

/// Some project carries this name.
pub open spec fn project_name_taken(projects: Seq<Project>, name: Seq<char>) -> bool {
    exists|i: int| 0 <= i < projects.len() && projects[i].name@ == name
}

/// Some event carries this id.
pub open spec fn has_event_id(events: Seq<Event>, id: i64) -> bool {
    exists|i: int| 0 <= i < events.len() && events[i].id == Some(id)
}

/// The index of the event carrying `id`; meaningful only when
/// `has_event_id(events, id)`.
pub open spec fn event_idx_by_id(events: Seq<Event>, id: i64) -> int {
    choose|i: int| 0 <= i < events.len() && events[i].id == Some(id)
}

/// `ev` with its project reference cleared where it pointed at `pid`.
pub open spec fn cleared_project(ev: Event, pid: i64) -> Event {
    if ev.project_id == Some(pid) {
        Event { project_id: None, ..ev }
    } else {
        ev
    }
}

/// `rules` with every rule owned by project `pid` removed, order kept.
pub open spec fn without_project_rules(rules: Seq<ProjectRule>, pid: i64) -> Seq<ProjectRule>
    decreases rules.len(),
{
    if rules.len() == 0 {
        rules
    } else {
        let rest = without_project_rules(rules.drop_last(), pid);
        if rules.last().project_id != pid {
            rest.push(rules.last())
        } else {
            rest
        }
    }
}

/// Some rule carries this (rule type, match value) pair.
pub open spec fn rule_pair_taken(rules: Seq<ProjectRule>, t: Seq<char>, v: Seq<char>) -> bool {
    exists|i: int|
        0 <= i < rules.len() && (#[trigger] rules[i]).rule_type@ == t && rules[i].match_value@
            == v
}

/// Some rule carries this id.
pub open spec fn has_rule_id(rules: Seq<ProjectRule>, id: i64) -> bool {
    exists|i: int| 0 <= i < rules.len() && rules[i].id == Some(id)
}

/// The index of the rule carrying `id`; meaningful only when
/// `has_rule_id(rules, id)`.
pub open spec fn rule_idx(rules: Seq<ProjectRule>, id: i64) -> int {
    choose|i: int| 0 <= i < rules.len() && rules[i].id == Some(id)
}

impl Database {
    /// The index of the project carrying `id`, if any.
    fn find_project_by_id(&self, id: i64) -> (r: Option<usize>)
        requires
            self.wf(),
        ensures
            match r {
                Some(i) => i < self.projects@.len() && self.projects@[i as int].id == Some(id)
                    && has_project_id(self.projects@, id) && project_idx(self.projects@, id)
                    == i,
                None => !has_project_id(self.projects@, id),
            },
    {
        let n = self.projects.len();
        let mut i: usize = 0;
        while i < n
            invariant
                self.wf(),
                n == self.projects@.len(),
                i <= n,
                forall|j: int| 0 <= j < i ==> (#[trigger] self.projects@[j]).id != Some(id),
            decreases n - i,
        {
            let found = match self.projects[i].id {
                Some(x) => x == id,
                None => false,
            };
            if found {
                proof {
                    let ii = i as int;
                    let k = project_idx(self.projects@, id);
                    assert(0 <= k < self.projects@.len() && self.projects@[k].id == Some(id));
                    if k != ii {
                        assert(false);
                    }
                }
                return Some(i);
            }
            i += 1;
        }
        None
    }

    /// Is some project, other than the one at `skip`, named `name`?
    fn name_taken_besides(&self, name: &str, skip: Option<usize>) -> (r: bool)
        ensures
            r == exists|i: int|
                0 <= i < self.projects@.len() && (match skip {
                    Some(s) => i != s,
                    None => true,
                }) && (#[trigger] self.projects@[i]).name@ == name@,
    {
        let n = self.projects.len();
        let mut i: usize = 0;
        while i < n
            invariant
                n == self.projects@.len(),
                i <= n,
                forall|j: int|
                    0 <= j < i && (match skip {
                        Some(s) => j != s,
                        None => true,
                    }) ==> (#[trigger] self.projects@[j]).name@ != name@,
            decreases n - i,
        {
            let skipped = match skip {
                Some(s) => i == s,
                None => false,
            };
            if !skipped && str_eq(self.projects[i].name.as_str(), name) {
                return true;
            }
            i += 1;
        }
        false
    }

    /// Creates a project under a fresh id; a name already in use is refused
    /// as a store conflict.
    pub fn create_project(&mut self, name: &str, color: Option<&str>, now: i64) -> (r: Result<
        i64,
        crate::CoreError,
    >)
        requires
            old(self).wf(),
            old(self).next_project_id < i64::MAX,
        ensures
            final(self).wf(),
            final(self).events == old(self).events,
            final(self).project_rules == old(self).project_rules,
            final(self).contacts == old(self).contacts,
            final(self).work_domains == old(self).work_domains,
            final(self).settings == old(self).settings,
            final(self).github_orgs == old(self).github_orgs,
            final(self).sync_metadata == old(self).sync_metadata,
            final(self).next_event_id == old(self).next_event_id,
            match r {
                Ok(id) => {
                    &&& !project_name_taken(old(self).projects@, name@)
                    &&& id == old(self).next_project_id
                    &&& final(self).next_project_id == old(self).next_project_id + 1
                    &&& final(self).projects@.len() == old(self).projects@.len() + 1
                    &&& (forall|j: int|
                        0 <= j < old(self).projects@.len() ==> final(self).projects@[j] == old(
                            self,
                        ).projects@[j])
                    &&& final(self).projects@.last().id == Some(id)
                    &&& final(self).projects@.last().name@ == name@
                    &&& (match (final(self).projects@.last().color, color) {
                        (Some(a), Some(b)) => a@ == b@,
                        (None, None) => true,
                        _ => false,
                    })
                    &&& final(self).projects@.last().created_at == now
                },
                Err(e) => {
                    &&& e == crate::CoreError::StoreError
                    &&& project_name_taken(old(self).projects@, name@)
                    &&& final(self).projects == old(self).projects
                    &&& final(self).next_project_id == old(self).next_project_id
                },
            },
    {
        if self.name_taken_besides(name, None) {
            return Err(crate::CoreError::StoreError);
        }
        let id = self.next_project_id;
        let p = Project {
            id: Some(id),
            name: String::from_str(name),
            color: match color {
                Some(c) => Some(String::from_str(c)),
                None => None,
            },
            created_at: now,
        };
        self.projects.push(p);
        self.next_project_id = id + 1;
        Ok(id)
    }

    /// Renames or recolors a project; a name held by another project is
    /// refused as a store conflict, and an unknown id changes nothing.
    pub fn update_project(&mut self, id: i64, name: &str, color: Option<&str>) -> (r: Result<
        (),
        crate::CoreError,
    >)
        requires
            old(self).wf(),
        ensures
            final(self).wf(),
            final(self).events == old(self).events,
            final(self).project_rules == old(self).project_rules,
            final(self).contacts == old(self).contacts,
            final(self).work_domains == old(self).work_domains,
            final(self).settings == old(self).settings,
            final(self).github_orgs == old(self).github_orgs,
            final(self).sync_metadata == old(self).sync_metadata,
            final(self).next_event_id == old(self).next_event_id,
            final(self).next_project_id == old(self).next_project_id,
            if has_project_id(old(self).projects@, id) {
                let i = project_idx(old(self).projects@, id);
                if exists|k: int|
                    0 <= k < old(self).projects@.len() && k != i && (
                    #[trigger] old(self).projects@[k]).name@ == name@ {
                    &&& r == Result::<(), crate::CoreError>::Err(crate::CoreError::StoreError)
                    &&& final(self).projects == old(self).projects
                } else {
                    &&& r is Ok
                    &&& final(self).projects@.len() == old(self).projects@.len()
                    &&& (forall|j: int|
                        0 <= j < old(self).projects@.len() && j != i ==> final(self).projects@[j]
                            == old(self).projects@[j])
                    &&& final(self).projects@[i].id == Some(id)
                    &&& final(self).projects@[i].name@ == name@
                    &&& (match (final(self).projects@[i].color, color) {
                        (Some(a), Some(b)) => a@ == b@,
                        (None, None) => true,
                        _ => false,
                    })
                    &&& final(self).projects@[i].created_at == old(self).projects@[i].created_at
                }
            } else {
                r is Ok && final(self).projects == old(self).projects
            },
    {
        match self.find_project_by_id(id) {
            Some(i) => {
                if self.name_taken_besides(name, Some(i)) {
                    return Err(crate::CoreError::StoreError);
                }
                let p = Project {
                    id: Some(id),
                    name: String::from_str(name),
                    color: match color {
                        Some(c) => Some(String::from_str(c)),
                        None => None,
                    },
                    created_at: self.projects[i].created_at,
                };
                self.projects.set(i, p);
                Ok(())
            },
            None => Ok(()),
        }
    }

    /// Deletes a project: its events lose their project reference but stay,
    /// and its rules go with it.
    #[verifier::loop_isolation(false)]
    pub fn delete_project(&mut self, id: i64)
        requires
            old(self).wf(),
        ensures
            final(self).wf(),
            final(self).contacts == old(self).contacts,
            final(self).work_domains == old(self).work_domains,
            final(self).settings == old(self).settings,
            final(self).github_orgs == old(self).github_orgs,
            final(self).sync_metadata == old(self).sync_metadata,
            final(self).next_event_id == old(self).next_event_id,
            final(self).next_project_id == old(self).next_project_id,
            final(self).projects@ == if has_project_id(old(self).projects@, id) {
                old(self).projects@.remove(project_idx(old(self).projects@, id))
            } else {
                old(self).projects@
            },
            final(self).project_rules@ == without_project_rules(old(self).project_rules@, id),
            final(self).events@.len() == old(self).events@.len(),
            forall|i: int|
                0 <= i < old(self).events@.len() ==> final(self).events@[i] == cleared_project(
                    #[trigger] old(self).events@[i],
                    id,
                ),
    {
        match self.find_project_by_id(id) {
            Some(i) => {
                self.projects.remove(i);
                proof {
                    let ps0 = old(self).projects@;
                    let ps1 = self.projects@;
                    assert(forall|j: int|
                        0 <= j < ps1.len() ==> ps1[j] == if j < i as int {
                            ps0[j]
                        } else {
                            ps0[j + 1]
                        });
                }
            },
            None => {},
        }
        let ghost s1 = *self;
        let nr = self.project_rules.len();
        let mut kept: Vec<ProjectRule> = Vec::new();
        let mut i: usize = 0;
        while i < nr
            invariant
                *self == s1,
                nr == self.project_rules@.len(),
                i <= nr,
                kept@ =~= without_project_rules(self.project_rules@.subrange(0, i as int), id),
                forall|a: int|
                    0 <= a < kept@.len() ==> exists|j: int|
                        0 <= j < i && #[trigger] kept@[a] == self.project_rules@[j],
                forall|a: int, b: int| 0 <= a < b < kept@.len() ==> kept@[a].id != kept@[b].id,
            decreases nr - i,
        {
            let ghost pre = self.project_rules@.subrange(0, i as int);
            let ghost post = self.project_rules@.subrange(0, i + 1);
            proof {
                assert(post.drop_last() =~= pre);
                assert(post.last() == self.project_rules@[i as int]);
            }
            if self.project_rules[i].project_id != id {
                let rl = ProjectRule {
                    id: self.project_rules[i].id,
                    project_id: self.project_rules[i].project_id,
                    rule_type: self.project_rules[i].rule_type.clone(),
                    match_value: self.project_rules[i].match_value.clone(),
                    created_at: self.project_rules[i].created_at,
                };
                proof {
                    assert(rl == self.project_rules@[i as int]);
                    assert(forall|a: int|
                        0 <= a < kept@.len() ==> (#[trigger] kept@[a]).id != rl.id) by {
                        assert forall|a: int| 0 <= a < kept@.len() implies (
                        #[trigger] kept@[a]).id != rl.id by {
                            let j = choose|j: int|
                                0 <= j < i && kept@[a] == self.project_rules@[j];
                            assert(self.project_rules@[j].id != self.project_rules@[i as int].id);
                        }
                    }
                }
                kept.push(rl);
            }
            i += 1;
        }
        proof {
            assert(self.project_rules@.subrange(0, nr as int) =~= self.project_rules@);
        }
        self.project_rules = kept;
        let ghost s2 = *self;
        let ne = self.events.len();
        let ghost events0 = self.events@;
        let mut k: usize = 0;
        while k < ne
            invariant
                self.projects == s2.projects,
                self.project_rules == s2.project_rules,
                self.contacts == s2.contacts,
                self.work_domains == s2.work_domains,
                self.settings == s2.settings,
                self.github_orgs == s2.github_orgs,
                self.sync_metadata == s2.sync_metadata,
                self.next_event_id == s2.next_event_id,
                self.next_project_id == s2.next_project_id,
                self.next_rule_id == s2.next_rule_id,
                self.next_contact_id == s2.next_contact_id,
                self.next_work_domain_id == s2.next_work_domain_id,
                ne == self.events@.len(),
                k <= ne,
                forall|j: int|
                    0 <= j < k ==> self.events@[j] == cleared_project(#[trigger] events0[j], id),
                forall|j: int| k <= j < ne ==> self.events@[j] == #[trigger] events0[j],
            decreases ne - k,
        {
            let needs = match self.events[k].project_id {
                Some(p) => p == id,
                None => false,
            };
            if needs {
                self.events[k].project_id = None;
            }
            k += 1;
        }
        proof {
            let es0 = old(self).events@;
            let es1 = self.events@;
            assert forall|p: int, q: int| 0 <= p < q < es1.len() implies !same_key(
                es1[p],
                es1[q],
            ) by {
                assert(!same_key(es0[p], es0[q]));
                assert(es1[p] == cleared_project(es0[p], id));
                assert(es1[q] == cleared_project(es0[q], id));
            }
            assert forall|p: int| 0 <= p < es1.len() implies ((#[trigger] es1[p]).id
                matches Some(x) && 0 < x < self.next_event_id) by {
                assert(es1[p] == cleared_project(es0[p], id));
                assert((es0[p]).id matches Some(x) && 0 < x < old(self).next_event_id);
            }
            assert forall|p: int, q: int| 0 <= p < q < es1.len() implies (#[trigger] es1[p]).id
                != (#[trigger] es1[q]).id by {
                assert(es1[p] == cleared_project(es0[p], id));
                assert(es1[q] == cleared_project(es0[q], id));
                assert((es0[p]).id != (es0[q]).id);
            }
            let rs1 = self.project_rules@;
            assert forall|p: int| 0 <= p < rs1.len() implies ((#[trigger] rs1[p]).id
                matches Some(x) && 0 < x < self.next_rule_id) by {
                let j = choose|j: int| 0 <= j < nr && rs1[p] == old(self).project_rules@[j];
                assert((old(self).project_rules@[j]).id matches Some(x) && 0 < x
                    < old(self).next_rule_id);
            }
        }
    }
}

impl Database {
    /// The project carrying this id, if any.
    pub fn get_project(&self, id: i64) -> (r: Option<Project>)
        requires
            self.wf(),
        ensures
            match r {
                Some(p) => has_project_id(self.projects@, id) && p == self.projects@[project_idx(
                    self.projects@,
                    id,
                )],
                None => !has_project_id(self.projects@, id),
            },
    {
        match self.find_project_by_id(id) {
            Some(i) => {
                let p = Project {
                    id: self.projects[i].id,
                    name: self.projects[i].name.clone(),
                    color: match &self.projects[i].color {
                        Some(c) => Some(c.clone()),
                        None => None,
                    },
                    created_at: self.projects[i].created_at,
                };
                proof {
                    assert(p == self.projects@[i as int]);
                }
                Some(p)
            },
            None => None,
        }
    }

    /// The index of the event carrying `id`, if any.
    fn find_event_by_id(&self, id: i64) -> (r: Option<usize>)
        requires
            self.wf(),
        ensures
            match r {
                Some(i) => i < self.events@.len() && self.events@[i as int].id == Some(id)
                    && has_event_id(self.events@, id) && event_idx_by_id(self.events@, id) == i,
                None => !has_event_id(self.events@, id),
            },
    {
        let n = self.events.len();
        let mut i: usize = 0;
        while i < n
            invariant
                self.wf(),
                n == self.events@.len(),
                i <= n,
                forall|j: int| 0 <= j < i ==> (#[trigger] self.events@[j]).id != Some(id),
            decreases n - i,
        {
            let found = match self.events[i].id {
                Some(x) => x == id,
                None => false,
            };
            if found {
                proof {
                    let ii = i as int;
                    let k = event_idx_by_id(self.events@, id);
                    assert(0 <= k < self.events@.len() && self.events@[k].id == Some(id));
                    if k != ii {
                        assert(false);
                    }
                }
                return Some(i);
            }
            i += 1;
        }
        None
    }

    /// The project an event is assigned to, if the event exists and points
    /// at a stored project.
    pub fn get_event_project(&self, event_id: i64) -> (r: Option<Project>)
        requires
            self.wf(),
        ensures
            match r {
                Some(p) => {
                    &&& has_event_id(self.events@, event_id)
                    &&& (self.events@[event_idx_by_id(self.events@, event_id)].project_id
                        matches Some(pid) && has_project_id(self.projects@, pid) && p
                        == self.projects@[project_idx(self.projects@, pid)])
                },
                None => {
                    ||| !has_event_id(self.events@, event_id)
                    ||| self.events@[event_idx_by_id(self.events@, event_id)].project_id is None
                    ||| (self.events@[event_idx_by_id(self.events@, event_id)].project_id
                        matches Some(pid) && !has_project_id(self.projects@, pid))
                },
            },
    {
        match self.find_event_by_id(event_id) {
            Some(i) => {
                match self.events[i].project_id {
                    Some(pid) => self.get_project(pid),
                    None => None,
                }
            },
            None => None,
        }
    }

    /// Points an event at a project, or clears the reference; an unknown
    /// event id changes nothing.
    pub fn assign_event_to_project(&mut self, event_id: i64, project_id: Option<i64>)
        requires
            old(self).wf(),
        ensures
            final(self).wf(),
            final(self).projects == old(self).projects,
            final(self).project_rules == old(self).project_rules,
            final(self).contacts == old(self).contacts,
            final(self).work_domains == old(self).work_domains,
            final(self).settings == old(self).settings,
            final(self).github_orgs == old(self).github_orgs,
            final(self).sync_metadata == old(self).sync_metadata,
            final(self).next_event_id == old(self).next_event_id,
            if has_event_id(old(self).events@, event_id) {
                let i = event_idx_by_id(old(self).events@, event_id);
                final(self).events@ == old(self).events@.update(
                    i,
                    Event { project_id: project_id, ..old(self).events@[i] },
                )
            } else {
                final(self).events == old(self).events
            },
    {
        match self.find_event_by_id(event_id) {
            Some(i) => {
                self.events[i].project_id = project_id;
                proof {
                    let es0 = old(self).events@;
                    let es1 = self.events@;
                    let ii = i as int;
                    assert forall|p: int, q: int| 0 <= p < q < es1.len() implies !same_key(
                        es1[p],
                        es1[q],
                    ) by {
                        assert(!same_key(es0[p], es0[q]));
                    }
                    assert forall|p: int| 0 <= p < es1.len() implies ((#[trigger] es1[p]).id
                        matches Some(x) && 0 < x < self.next_event_id) by {
                        assert((es0[p]).id matches Some(x) && 0 < x < old(self).next_event_id);
                    }
                    assert forall|p: int, q: int| 0 <= p < q < es1.len() implies (
                    #[trigger] es1[p]).id != (#[trigger] es1[q]).id by {
                        assert((es0[p]).id != (es0[q]).id);
                    }
                }
            },
            None => {},
        }
    }

    /// The index of the rule carrying `id`, if any.
    fn find_rule_by_id(&self, id: i64) -> (r: Option<usize>)
        requires
            self.wf(),
        ensures
            match r {
                Some(i) => i < self.project_rules@.len() && self.project_rules@[i as int].id
                    == Some(id) && has_rule_id(self.project_rules@, id) && rule_idx(
                    self.project_rules@,
                    id,
                ) == i,
                None => !has_rule_id(self.project_rules@, id),
            },
    {
        let n = self.project_rules.len();
        let mut i: usize = 0;
        while i < n
            invariant
                self.wf(),
                n == self.project_rules@.len(),
                i <= n,
                forall|j: int| 0 <= j < i ==> (#[trigger] self.project_rules@[j]).id != Some(id),
            decreases n - i,
        {
            let found = match self.project_rules[i].id {
                Some(x) => x == id,
                None => false,
            };
            if found {
                proof {
                    let ii = i as int;
                    let k = rule_idx(self.project_rules@, id);
                    assert(0 <= k < self.project_rules@.len() && self.project_rules@[k].id
                        == Some(id));
                    if k != ii {
                        assert(false);
                    }
                }
                return Some(i);
            }
            i += 1;
        }
        None
    }

    /// Does some rule, other than the one at `skip`, carry this (rule type,
    /// match value) pair?
    fn rule_pair_taken_besides(&self, rule_type: &str, match_value: &str, skip: Option<usize>) -> (r:
        bool)
        ensures
            r == exists|i: int|
                0 <= i < self.project_rules@.len() && (match skip {
                    Some(s) => i != s,
                    None => true,
                }) && (#[trigger] self.project_rules@[i]).rule_type@ == rule_type@
                    && self.project_rules@[i].match_value@ == match_value@,
    {
        let n = self.project_rules.len();
        let mut i: usize = 0;
        while i < n
            invariant
                n == self.project_rules@.len(),
                i <= n,
                forall|j: int|
                    0 <= j < i && (match skip {
                        Some(s) => j != s,
                        None => true,
                    }) ==> !((#[trigger] self.project_rules@[j]).rule_type@ == rule_type@
                        && self.project_rules@[j].match_value@ == match_value@),
            decreases n - i,
        {
            let skipped = match skip {
                Some(s) => i == s,
                None => false,
            };
            if !skipped && str_eq(self.project_rules[i].rule_type.as_str(), rule_type) && str_eq(
                self.project_rules[i].match_value.as_str(),
                match_value,
            ) {
                return true;
            }
            i += 1;
        }
        false
    }

    /// Creates a classification rule under a fresh id; a (rule type, match
    /// value) pair already in use is refused as a store conflict.
    pub fn create_project_rule(
        &mut self,
        project_id: i64,
        rule_type: &str,
        match_value: &str,
        now: i64,
    ) -> (r: Result<i64, crate::CoreError>)
        requires
            old(self).wf(),
            old(self).next_rule_id < i64::MAX,
        ensures
            final(self).wf(),
            final(self).events == old(self).events,
            final(self).projects == old(self).projects,
            final(self).contacts == old(self).contacts,
            final(self).work_domains == old(self).work_domains,
            final(self).settings == old(self).settings,
            final(self).github_orgs == old(self).github_orgs,
            final(self).sync_metadata == old(self).sync_metadata,
            final(self).next_event_id == old(self).next_event_id,
            match r {
                Ok(id) => {
                    &&& !rule_pair_taken(old(self).project_rules@, rule_type@, match_value@)
                    &&& id == old(self).next_rule_id
                    &&& final(self).next_rule_id == old(self).next_rule_id + 1
                    &&& final(self).project_rules@.len() == old(self).project_rules@.len() + 1
                    &&& (forall|j: int|
                        0 <= j < old(self).project_rules@.len() ==> final(self).project_rules@[j]
                            == old(self).project_rules@[j])
                    &&& final(self).project_rules@.last().id == Some(id)
                    &&& final(self).project_rules@.last().project_id == project_id
                    &&& final(self).project_rules@.last().rule_type@ == rule_type@
                    &&& final(self).project_rules@.last().match_value@ == match_value@
                    &&& final(self).project_rules@.last().created_at == now
                },
                Err(e) => {
                    &&& e == crate::CoreError::StoreError
                    &&& rule_pair_taken(old(self).project_rules@, rule_type@, match_value@)
                    &&& final(self).project_rules == old(self).project_rules
                    &&& final(self).next_rule_id == old(self).next_rule_id
                },
            },
    {
        if self.rule_pair_taken_besides(rule_type, match_value, None) {
            return Err(crate::CoreError::StoreError);
        }
        let id = self.next_rule_id;
        let rl = ProjectRule {
            id: Some(id),
            project_id,
            rule_type: String::from_str(rule_type),
            match_value: String::from_str(match_value),
            created_at: now,
        };
        self.project_rules.push(rl);
        self.next_rule_id = id + 1;
        Ok(id)
    }

    /// Rewrites a rule's type and match value; a pair held by another rule
    /// is refused as a store conflict, and an unknown id changes nothing.
    pub fn update_project_rule(&mut self, rule_id: i64, rule_type: &str, match_value: &str) -> (r:
        Result<(), crate::CoreError>)
        requires
            old(self).wf(),
        ensures
            final(self).wf(),
            final(self).events == old(self).events,
            final(self).projects == old(self).projects,
            final(self).contacts == old(self).contacts,
            final(self).work_domains == old(self).work_domains,
            final(self).settings == old(self).settings,
            final(self).github_orgs == old(self).github_orgs,
            final(self).sync_metadata == old(self).sync_metadata,
            final(self).next_event_id == old(self).next_event_id,
            final(self).next_rule_id == old(self).next_rule_id,
            if has_rule_id(old(self).project_rules@, rule_id) {
                let i = rule_idx(old(self).project_rules@, rule_id);
                if exists|k: int|
                    0 <= k < old(self).project_rules@.len() && k != i
                        && (#[trigger] old(self).project_rules@[k]).rule_type@ == rule_type@
                        && old(self).project_rules@[k].match_value@ == match_value@ {
                    &&& r == Result::<(), crate::CoreError>::Err(crate::CoreError::StoreError)
                    &&& final(self).project_rules == old(self).project_rules
                } else {
                    &&& r is Ok
                    &&& final(self).project_rules@.len() == old(self).project_rules@.len()
                    &&& (forall|j: int|
                        0 <= j < old(self).project_rules@.len() && j != i ==> final(self).project_rules@[j] == old(self).project_rules@[j])
                    &&& final(self).project_rules@[i].id == Some(rule_id)
                    &&& final(self).project_rules@[i].project_id == old(
                        self,
                    ).project_rules@[i].project_id
                    &&& final(self).project_rules@[i].rule_type@ == rule_type@
                    &&& final(self).project_rules@[i].match_value@ == match_value@
                    &&& final(self).project_rules@[i].created_at == old(
                        self,
                    ).project_rules@[i].created_at
                }
            } else {
                r is Ok && final(self).project_rules == old(self).project_rules
            },
    {
        match self.find_rule_by_id(rule_id) {
            Some(i) => {
                if self.rule_pair_taken_besides(rule_type, match_value, Some(i)) {
                    return Err(crate::CoreError::StoreError);
                }
                let rl = ProjectRule {
                    id: Some(rule_id),
                    project_id: self.project_rules[i].project_id,
                    rule_type: String::from_str(rule_type),
                    match_value: String::from_str(match_value),
                    created_at: self.project_rules[i].created_at,
                };
                self.project_rules.set(i, rl);
                Ok(())
            },
            None => Ok(()),
        }
    }

    /// Deletes the rule carrying this id; an unknown id changes nothing.
    pub fn delete_project_rule(&mut self, rule_id: i64)
        requires
            old(self).wf(),
        ensures
            final(self).wf(),
            final(self).events == old(self).events,
            final(self).projects == old(self).projects,
            final(self).contacts == old(self).contacts,
            final(self).work_domains == old(self).work_domains,
            final(self).settings == old(self).settings,
            final(self).github_orgs == old(self).github_orgs,
            final(self).sync_metadata == old(self).sync_metadata,
            final(self).next_event_id == old(self).next_event_id,
            final(self).project_rules@ == if has_rule_id(old(self).project_rules@, rule_id) {
                old(self).project_rules@.remove(rule_idx(old(self).project_rules@, rule_id))
            } else {
                old(self).project_rules@
            },
    {
        match self.find_rule_by_id(rule_id) {
            Some(i) => {
                self.project_rules.remove(i);
                proof {
                    let rs0 = old(self).project_rules@;
                    let rs1 = self.project_rules@;
                    assert(forall|j: int|
                        0 <= j < rs1.len() ==> rs1[j] == if j < i as int {
                            rs0[j]
                        } else {
                            rs0[j + 1]
                        });
                }
            },
            None => {},
        }
    }
}

/// Wildcard matching as the store's URL patterns use it: `%` matches any
/// run of characters, `_` any single character, all else itself.
pub open spec fn like_matches(pat: Seq<char>, s: Seq<char>) -> bool
    decreases pat.len(), s.len(),
{
    if pat.len() == 0 {
        s.len() == 0
    } else if pat[0] == '%' {
        like_matches(pat.skip(1), s) || (s.len() > 0 && like_matches(pat, s.skip(1)))
    } else if s.len() > 0 && (pat[0] == '_' || pat[0] == s[0]) {
        like_matches(pat.skip(1), s.skip(1))
    } else {
        false
    }
}

/// Wildcard matching from positions `pi` and `si` on.
fn like_rec(pat: &str, s: &str, pi: usize, si: usize) -> (r: bool)
    requires
        pi <= pat@.len(),
        si <= s@.len(),
    ensures
        r == like_matches(pat@.skip(pi as int), s@.skip(si as int)),
    decreases pat@.len() - pi, s@.len() - si,
{
    let p_len = vstd::string::StrSliceExecFns::unicode_len(pat);
    let s_len = vstd::string::StrSliceExecFns::unicode_len(s);
    let ghost sp = pat@.skip(pi as int);
    let ghost ss = s@.skip(si as int);
    if pi == p_len {
        return si == s_len;
    }
    let pc = vstd::string::StrSliceExecFns::get_char(pat, pi);
    proof {
        assert(sp[0] == pat@[pi as int]);
        assert(sp.skip(1) =~= pat@.skip(pi + 1));
    }
    if pc == '%' {
        if like_rec(pat, s, pi + 1, si) {
            return true;
        }
        if si < s_len {
            proof {
                assert(ss.skip(1) =~= s@.skip(si + 1));
            }
            return like_rec(pat, s, pi, si + 1);
        }
        return false;
    }
    if si == s_len {
        return false;
    }
    let sc = vstd::string::StrSliceExecFns::get_char(s, si);
    proof {
        assert(ss[0] == s@[si as int]);
        assert(ss.skip(1) =~= s@.skip(si + 1));
    }
    if pc == '_' || pc == sc {
        return like_rec(pat, s, pi + 1, si + 1);
    }
    false
}

/// Does the wildcard pattern `pat` match the whole of `s`?
pub fn like_matches_exec(pat: &str, s: &str) -> (r: bool)
    ensures
        r == like_matches(pat@, s@),
{
    let r = like_rec(pat, s, 0, 0);
    proof {
        assert(pat@.skip(0) =~= pat@);
        assert(s@.skip(0) =~= s@);
    }
    r
}

/// Does a rule's predicate hold of an event? Organizer rules name calendar
/// events through their organizer contact; title rules match calendar
/// titles case-insensitively; repository rules match the canonical path of
/// version-control and browser events; URL rules match a browser event's
/// raw URL against a wildcard pattern; domain rules match a browser
/// event's authority exactly. Unknown rule types match nothing.
pub open spec fn rule_matches(contacts: Seq<Contact>, rule: ProjectRule, ev: Event) -> bool {
    if rule.rule_type@ == "organizer"@ {
        ev.event_type == EventType::Calendar && (match ev.organizer_id {
            Some(oid) => exists|k: int|
                0 <= k < contacts.len() && (#[trigger] contacts[k]).id == Some(oid)
                    && contacts[k].name@ == rule.match_value@,
            None => false,
        })
    } else if rule.rule_type@ == "title_pattern"@ {
        ev.event_type == EventType::Calendar && crate::text::contains_seq(
            crate::text::lower_seq(ev.title@),
            crate::text::lower_seq(rule.match_value@),
        )
    } else if rule.rule_type@ == "repository"@ {
        (ev.event_type == EventType::Git || ev.event_type == EventType::BrowserHistory) && (
        match ev.repository_path {
            Some(rp) => rp@ == rule.match_value@,
            None => false,
        })
    } else if rule.rule_type@ == "url_pattern"@ {
        ev.event_type == EventType::BrowserHistory && (match ev.type_specific_data {
            Some(EventPayload::Browser(b)) => like_matches(
                crate::text::lower_seq(rule.match_value@),
                crate::text::lower_seq(b.url@),
            ),
            _ => false,
        })
    } else if rule.rule_type@ == "domain"@ {
        ev.event_type == EventType::BrowserHistory && (match ev.domain {
            Some(d) => d@ == rule.match_value@,
            None => false,
        })
    } else {
        false
    }
}

/// Whether a rule matches is blind to the event's project assignment.
pub proof fn lemma_rule_match_ignores_project(
    contacts: Seq<Contact>,
    rule: ProjectRule,
    a: Event,
    b: Event,
)
    requires
        (Event { project_id: None, ..a }) == (Event { project_id: None, ..b }),
    ensures
        rule_matches(contacts, rule, a) == rule_matches(contacts, rule, b),
{
    assert(a.event_type == b.event_type);
    assert(a.organizer_id == b.organizer_id);
    assert(a.title == b.title);
    assert(a.repository_path == b.repository_path);
    assert(a.type_specific_data == b.type_specific_data);
    assert(a.domain == b.domain);
}

/// The project an event ends up with after the rules run in stored order:
/// the project of the last rule that matches it, or its present assignment
/// where none does.
pub open spec fn assigned_project(
    contacts: Seq<Contact>,
    rules: Seq<ProjectRule>,
    ev: Event,
) -> Option<i64>
    decreases rules.len(),
{
    if rules.len() == 0 {
        ev.project_id
    } else {
        let prev = assigned_project(contacts, rules.drop_last(), ev);
        if rule_matches(contacts, rules.last(), ev) {
            Some(rules.last().project_id)
        } else {
            prev
        }
    }
}

/// How many events one rule matches.
pub open spec fn rule_match_count(
    contacts: Seq<Contact>,
    rule: ProjectRule,
    events: Seq<Event>,
) -> nat
    decreases events.len(),
{
    if events.len() == 0 {
        0
    } else {
        rule_match_count(contacts, rule, events.drop_last()) + if rule_matches(
            contacts,
            rule,
            events.last(),
        ) {
            1nat
        } else {
            0nat
        }
    }
}

/// The affected total over all rules: an event matched by two rules counts
/// twice.
pub open spec fn total_match_count(
    contacts: Seq<Contact>,
    rules: Seq<ProjectRule>,
    events: Seq<Event>,
) -> nat
    decreases rules.len(),
{
    if rules.len() == 0 {
        0
    } else {
        total_match_count(contacts, rules.drop_last(), events) + rule_match_count(
            contacts,
            rules.last(),
            events,
        )
    }
}

/// Does this rule match this event, against these contacts?
pub fn rule_matches_exec(contacts: &Vec<Contact>, rule: &ProjectRule, ev: &Event) -> (r: bool)
    ensures
        r == rule_matches(contacts@, *rule, *ev),
{
    if str_eq(rule.rule_type.as_str(), "organizer") {
        if !matches!(ev.event_type, EventType::Calendar) {
            return false;
        }
        match ev.organizer_id {
            Some(oid) => {
                let n = contacts.len();
                let mut k: usize = 0;
                while k < n
                    invariant
                        n == contacts@.len(),
                        k <= n,
                        rule.rule_type@ == "organizer"@,
                        ev.event_type == EventType::Calendar,
                        ev.organizer_id == Some(oid),
                        forall|j: int|
                            0 <= j < k ==> !((#[trigger] contacts@[j]).id == Some(oid)
                                && contacts@[j].name@ == rule.match_value@),
                    decreases n - k,
                {
                    let id_same = match contacts[k].id {
                        Some(x) => x == oid,
                        None => false,
                    };
                    if id_same && str_eq(contacts[k].name.as_str(), rule.match_value.as_str()) {
                        proof {
                            let ki = k as int;
                            assert(0 <= ki < contacts@.len() && contacts@[ki].id == Some(oid)
                                && contacts@[ki].name@ == rule.match_value@);
                        }
                        return true;
                    }
                    k += 1;
                }
                false
            },
            None => false,
        }
    } else if str_eq(rule.rule_type.as_str(), "title_pattern") {
        matches!(ev.event_type, EventType::Calendar) && crate::text::contains_ci(
            ev.title.as_str(),
            rule.match_value.as_str(),
        )
    } else if str_eq(rule.rule_type.as_str(), "repository") {
        let kind_ok = match ev.event_type {
            EventType::Git => true,
            EventType::BrowserHistory => true,
            EventType::Calendar => false,
        };
        kind_ok && (match &ev.repository_path {
            Some(rp) => str_eq(rp.as_str(), rule.match_value.as_str()),
            None => false,
        })
    } else if str_eq(rule.rule_type.as_str(), "url_pattern") {
        matches!(ev.event_type, EventType::BrowserHistory) && (match &ev.type_specific_data {
            Some(EventPayload::Browser(b)) => {
                let lp = crate::text::to_lower(rule.match_value.as_str());
                let lu = crate::text::to_lower(b.url.as_str());
                like_matches_exec(lp.as_str(), lu.as_str())
            },
            _ => false,
        })
    } else if str_eq(rule.rule_type.as_str(), "domain") {
        matches!(ev.event_type, EventType::BrowserHistory) && (match &ev.domain {
            Some(d) => str_eq(d.as_str(), rule.match_value.as_str()),
            None => false,
        })
    } else {
        false
    }
}

impl Database {
    /// Applies every stored rule, in stored order, to every stored event:
    /// each match assigns the rule's project, so an event matched by
    /// several rules ends up with the last one's; the returned total counts
    /// every match.
    #[verifier::loop_isolation(false)]
    pub fn apply_rules_to_events(&mut self) -> (r: usize)
        requires
            old(self).wf(),
            old(self).events@.len() * old(self).project_rules@.len() <= usize::MAX,
        ensures
            final(self).wf(),
            final(self).projects == old(self).projects,
            final(self).project_rules == old(self).project_rules,
            final(self).contacts == old(self).contacts,
            final(self).work_domains == old(self).work_domains,
            final(self).settings == old(self).settings,
            final(self).github_orgs == old(self).github_orgs,
            final(self).sync_metadata == old(self).sync_metadata,
            final(self).next_event_id == old(self).next_event_id,
            final(self).events@.len() == old(self).events@.len(),
            forall|i: int|
                0 <= i < old(self).events@.len() ==> final(self).events@[i] == (Event {
                    project_id: assigned_project(
                        old(self).contacts@,
                        old(self).project_rules@,
                        #[trigger] old(self).events@[i],
                    ),
                    ..old(self).events@[i]
                }),
            r == total_match_count(
                old(self).contacts@,
                old(self).project_rules@,
                old(self).events@,
            ),
    {
        let ghost contacts0 = self.contacts@;
        let ghost rules0 = self.project_rules@;
        let ghost events0 = self.events@;
        let nr = self.project_rules.len();
        let ne = self.events.len();
        let mut count: usize = 0;
        let mut ri: usize = 0;
        while ri < nr
            invariant
                self.projects == old(self).projects,
                self.project_rules == old(self).project_rules,
                self.contacts == old(self).contacts,
                self.work_domains == old(self).work_domains,
                self.settings == old(self).settings,
                self.github_orgs == old(self).github_orgs,
                self.sync_metadata == old(self).sync_metadata,
                self.next_event_id == old(self).next_event_id,
                self.next_project_id == old(self).next_project_id,
                self.next_rule_id == old(self).next_rule_id,
                self.next_contact_id == old(self).next_contact_id,
                self.next_work_domain_id == old(self).next_work_domain_id,
                ri <= nr,
                self.events@.len() == ne,
                forall|i: int|
                    0 <= i < ne ==> self.events@[i] == (Event {
                        project_id: assigned_project(
                            contacts0,
                            rules0.subrange(0, ri as int),
                            #[trigger] events0[i],
                        ),
                        ..events0[i]
                    }),
                count == total_match_count(contacts0, rules0.subrange(0, ri as int), events0),
                count <= ri * ne,
            decreases nr - ri,
        {
            let mut ei: usize = 0;
            while ei < ne
                invariant
                    self.projects == old(self).projects,
                    self.project_rules == old(self).project_rules,
                    self.contacts == old(self).contacts,
                    self.work_domains == old(self).work_domains,
                    self.settings == old(self).settings,
                    self.github_orgs == old(self).github_orgs,
                    self.sync_metadata == old(self).sync_metadata,
                    self.next_event_id == old(self).next_event_id,
                    self.next_project_id == old(self).next_project_id,
                    self.next_rule_id == old(self).next_rule_id,
                    self.next_contact_id == old(self).next_contact_id,
                    self.next_work_domain_id == old(self).next_work_domain_id,
                    ri < nr,
                    ei <= ne,
                    self.events@.len() == ne,
                    forall|i: int|
                        0 <= i < ei ==> self.events@[i] == (Event {
                            project_id: assigned_project(
                                contacts0,
                                rules0.subrange(0, ri + 1),
                                #[trigger] events0[i],
                            ),
                            ..events0[i]
                        }),
                    forall|i: int|
                        ei <= i < ne ==> self.events@[i] == (Event {
                            project_id: assigned_project(
                                contacts0,
                                rules0.subrange(0, ri as int),
                                #[trigger] events0[i],
                            ),
                            ..events0[i]
                        }),
                    count == total_match_count(contacts0, rules0.subrange(0, ri as int), events0)
                        + rule_match_count(
                        contacts0,
                        rules0[ri as int],
                        events0.subrange(0, ei as int),
                    ),
                    count <= ri * ne + ei,
                decreases ne - ei,
            {
                let ghost sub_pre = events0.subrange(0, ei as int);
                let ghost sub_post = events0.subrange(0, ei + 1);
                proof {
                    assert(sub_post.drop_last() =~= sub_pre);
                    assert(sub_post.last() == events0[ei as int]);
                    lemma_rule_match_ignores_project(
                        contacts0,
                        rules0[ri as int],
                        self.events@[ei as int],
                        events0[ei as int],
                    );
                }
                let m = rule_matches_exec(&self.contacts, &self.project_rules[ri], &self.events[ei]);
                if m {
                    let pid = self.project_rules[ri].project_id;
                    self.events[ei].project_id = Some(pid);
                    proof {
                        assert(ri * ne + ei + 1 <= (ri + 1) * ne <= nr * ne) by (nonlinear_arith)
                            requires
                                0 <= ri < nr,
                                0 <= ei < ne,
                        ;
                        assert(nr * ne == events0.len() * rules0.len()) by (nonlinear_arith)
                            requires
                                nr == rules0.len(),
                                ne == events0.len(),
                        ;
                    }
                    count += 1;
                }
                proof {
                    let sub_r1 = rules0.subrange(0, ri + 1);
                    assert(sub_r1.drop_last() =~= rules0.subrange(0, ri as int));
                    assert(sub_r1.last() == rules0[ri as int]);
                    assert(ri * ne + ei + 1 <= (ri + 1) * ne) by (nonlinear_arith)
                        requires
                            0 <= ri < nr,
                            0 <= ei < ne,
                    ;
                }
                ei += 1;
            }
            proof {
                let sub_r1 = rules0.subrange(0, ri + 1);
                assert(sub_r1.drop_last() =~= rules0.subrange(0, ri as int));
                assert(sub_r1.last() == rules0[ri as int]);
                assert(events0.subrange(0, ne as int) =~= events0);
                assert((ri + 1) * ne == ri * ne + ne) by (nonlinear_arith);
            }
            ri += 1;
        }
        proof {
            assert(rules0.subrange(0, nr as int) =~= rules0);
            let es1 = self.events@;
            assert forall|p: int, q: int| 0 <= p < q < es1.len() implies !same_key(
                es1[p],
                es1[q],
            ) by {
                assert(!same_key(events0[p], events0[q]));
            }
            assert forall|p: int| 0 <= p < es1.len() implies ((#[trigger] es1[p]).id
                matches Some(x) && 0 < x < self.next_event_id) by {
                assert((events0[p]).id matches Some(x) && 0 < x < old(self).next_event_id);
            }
            assert forall|p: int, q: int| 0 <= p < q < es1.len() implies (#[trigger] es1[p]).id
                != (#[trigger] es1[q]).id by {
                assert((events0[p]).id != (events0[q]).id);
            }
        }
        count
    }
}

/// The mathematical value of a calendar payload.
#[verifier::ext_equal]
pub struct CalendarDataModel {
    pub location: Option<Seq<char>>,
    pub notes: Option<Seq<char>>,
    pub is_all_day: bool,
    pub organizer: Option<Seq<char>>,
    pub attendees: Option<Seq<Seq<char>>>,
}

/// The mathematical value of a version-control payload.
#[verifier::ext_equal]
pub struct GitDataModel {
    pub repository_id: Seq<char>,
    pub repository_name: Seq<char>,
    pub activity_type: Seq<char>,
    pub ref_name: Option<Seq<char>>,
    pub commit_hash: Option<Seq<char>>,
    pub repository_path: Option<Seq<char>>,
    pub origin_url: Option<Seq<char>>,
}

/// The mathematical value of a browser payload.
#[verifier::ext_equal]
pub struct BrowserDataModel {
    pub url: Seq<char>,
    pub domain: Seq<char>,
    pub page_title: Option<Seq<char>>,
    pub visit_count: int,
    pub repository_path: Option<Seq<char>>,
}

/// The mathematical value of an event payload.
#[verifier::ext_equal]
pub enum PayloadModel {
    Calendar(CalendarDataModel),
    Git(GitDataModel),
    Browser(BrowserDataModel),
}

/// The mathematical value of a stored event: every text a sequence of
/// characters, every instant an integer.
#[verifier::ext_equal]
pub struct EventModel {
    pub id: Option<i64>,
    pub event_type: EventType,
    pub title: Seq<char>,
    pub start_date: int,
    pub end_date: int,
    pub external_id: Option<Seq<char>>,
    pub external_link: Option<Seq<char>>,
    pub payload: Option<PayloadModel>,
    pub project_id: Option<i64>,
    pub organizer_id: Option<i64>,
    pub repository_path: Option<Seq<char>>,
    pub domain: Option<Seq<char>>,
    pub created_at: int,
    pub updated_at: int,
}

/// The view of an optional text.
pub open spec fn opt_text(o: Option<String>) -> Option<Seq<char>> {
    match o {
        Some(s) => Some(s@),
        None => None,
    }
}

/// The view of an event payload.
pub open spec fn payload_model(p: EventPayload) -> PayloadModel {
    match p {
        EventPayload::Calendar(c) => PayloadModel::Calendar(
            CalendarDataModel {
                location: opt_text(c.location),
                notes: opt_text(c.notes),
                is_all_day: c.is_all_day,
                organizer: opt_text(c.organizer),
                attendees: match c.attendees {
                    Some(v) => Some(v@.map_values(|s: String| s@)),
                    None => None,
                },
            },
        ),
        EventPayload::Git(g) => PayloadModel::Git(
            GitDataModel {
                repository_id: g.repository_id@,
                repository_name: g.repository_name@,
                activity_type: g.activity_type@,
                ref_name: opt_text(g.ref_name),
                commit_hash: opt_text(g.commit_hash),
                repository_path: opt_text(g.repository_path),
                origin_url: opt_text(g.origin_url),
            },
        ),
        EventPayload::Browser(b) => PayloadModel::Browser(
            BrowserDataModel {
                url: b.url@,
                domain: b.domain@,
                page_title: opt_text(b.page_title),
                visit_count: b.visit_count as int,
                repository_path: opt_text(b.repository_path),
            },
        ),
    }
}

/// The view of a stored event.
pub open spec fn event_model(e: Event) -> EventModel {
    EventModel {
        id: e.id,
        event_type: e.event_type,
        title: e.title@,
        start_date: e.start_date as int,
        end_date: e.end_date as int,
        external_id: opt_text(e.external_id),
        external_link: opt_text(e.external_link),
        payload: match e.type_specific_data {
            Some(p) => Some(payload_model(p)),
            None => None,
        },
        project_id: e.project_id,
        organizer_id: e.organizer_id,
        repository_path: opt_text(e.repository_path),
        domain: opt_text(e.domain),
        created_at: e.created_at as int,
        updated_at: e.updated_at as int,
    }
}

/// The views of a whole sequence of events.
pub open spec fn models_of(s: Seq<Event>) -> Seq<EventModel> {
    s.map_values(|e: Event| event_model(e))
}

/// Orders two events by start instant, ascending or descending.
pub open spec fn start_ordered(a: Event, b: Event, descending: bool) -> bool {
    if descending {
        a.start_date >= b.start_date
    } else {
        a.start_date <= b.start_date
    }
}

/// The sequence is ordered by start instant.
pub open spec fn events_sorted_by_start(s: Seq<Event>, descending: bool) -> bool {
    forall|i: int, j: int| 0 <= i < j < s.len() ==> start_ordered(s[i], s[j], descending)
}

/// The index of an extreme element under the start-instant order.
fn extreme_start_idx(v: &Vec<Event>, descending: bool) -> (r: usize)
    requires
        v@.len() > 0,
    ensures
        r < v@.len(),
        forall|j: int| 0 <= j < v@.len() ==> start_ordered(v@[r as int], #[trigger] v@[j], descending),
{
    let n = v.len();
    let mut best: usize = 0;
    let mut i: usize = 1;
    while i < n
        invariant
            n == v@.len(),
            best < i <= n,
            forall|j: int|
                0 <= j < i ==> start_ordered(v@[best as int], #[trigger] v@[j], descending),
        decreases n - i,
    {
        let better = if descending {
            v[i].start_date > v[best].start_date
        } else {
            v[i].start_date < v[best].start_date
        };
        if better {
            best = i;
        }
        i += 1;
    }
    best
}

/// Orders a sequence of events by start instant, keeping exactly the same
/// collection of rows.
fn sort_events_by_start(v: Vec<Event>, descending: bool) -> (r: Vec<Event>)
    ensures
        models_of(r@).to_multiset() == models_of(v@).to_multiset(),
        events_sorted_by_start(r@, descending),
{
    let ghost orig = v@;
    let mut src = v;
    let mut out: Vec<Event> = Vec::new();
    proof {
        assert(models_of(out@) =~= Seq::<EventModel>::empty());
        assert(models_of(out@).to_multiset().add(models_of(src@).to_multiset())
            =~= models_of(orig).to_multiset());
    }
    while src.len() > 0
        invariant
            models_of(out@).to_multiset().add(models_of(src@).to_multiset()) == models_of(
                orig,
            ).to_multiset(),
            events_sorted_by_start(out@, descending),
            forall|a: int, b: int|
                0 <= a < out@.len() && 0 <= b < src@.len() ==> start_ordered(
                    #[trigger] out@[a],
                    #[trigger] src@[b],
                    descending,
                ),
        decreases src@.len(),
    {
        let mi = extreme_start_idx(&src, descending);
        let ghost out0 = out@;
        let ghost src0 = src@;
        let x = src.remove(mi);
        out.push(x);
        proof {
            let mx = event_model(x);
            assert(models_of(out@) =~= models_of(out0).push(mx));
            assert(models_of(src@) =~= models_of(src0).remove(mi as int));
            assert(models_of(src0)[mi as int] == mx);
            assert(models_of(src0).contains(mx));
            assert(models_of(src0).to_multiset().count(mx) > 0);
            assert(models_of(out@).to_multiset() =~= models_of(out0).to_multiset().insert(mx));
            assert(models_of(src@).to_multiset() =~= models_of(src0).to_multiset().remove(mx));
            assert(models_of(out@).to_multiset().add(models_of(src@).to_multiset()) =~= models_of(
                out0,
            ).to_multiset().add(models_of(src0).to_multiset()));
            assert(forall|b: int|
                0 <= b < src@.len() ==> src@[b] == if b < mi as int {
                    src0[b]
                } else {
                    src0[b + 1]
                });
            assert forall|i: int, j: int| 0 <= i < j < out@.len() implies start_ordered(
                out@[i],
                out@[j],
                descending,
            ) by {
                if j < out0.len() {
                    assert(start_ordered(out0[i], out0[j], descending));
                } else {
                    assert(out@[j] == src0[mi as int]);
                }
            }
        }
    }
    proof {
        assert(models_of(src@) =~= Seq::<EventModel>::empty());
        assert forall|m: EventModel| models_of(src@).to_multiset().count(m) == 0 by {
            if models_of(src@).to_multiset().count(m) > 0 {
                assert(models_of(src@).contains(m));
            }
        }
        assert(models_of(src@).to_multiset() =~= Multiset::<EventModel>::empty());
        assert(models_of(out@).to_multiset() =~= models_of(orig).to_multiset());
    }
    out
}

/// An event the store shows for a window and the work-domain allow-list:
/// inside the window, and, for browsing events, on an allow-listed domain.
pub open spec fn event_visible(
    ev: Event,
    start: Option<i64>,
    end: Option<i64>,
    domains: Seq<WorkDomain>,
) -> bool {
    &&& (match start {
        Some(s) => ev.start_date >= s,
        None => true,
    })
    &&& (match end {
        Some(e) => ev.end_date <= e,
        None => true,
    })
    &&& (ev.event_type == EventType::BrowserHistory ==> (match ev.domain {
        Some(d) => exists|k: int|
            0 <= k < domains.len() && (#[trigger] domains[k]).domain@ == d@,
        None => false,
    }))
}

/// The subsequence of events visible for a window, in stored order.
pub open spec fn visible_events(
    events: Seq<Event>,
    start: Option<i64>,
    end: Option<i64>,
    domains: Seq<WorkDomain>,
) -> Seq<Event>
    decreases events.len(),
{
    if events.len() == 0 {
        events
    } else {
        let rest = visible_events(events.drop_last(), start, end, domains);
        if event_visible(events.last(), start, end, domains) {
            rest.push(events.last())
        } else {
            rest
        }
    }
}

/// An event of this project inside the window.
pub open spec fn event_of_project(
    ev: Event,
    pid: i64,
    start: Option<i64>,
    end: Option<i64>,
) -> bool {
    &&& ev.project_id == Some(pid)
    &&& (match start {
        Some(s) => ev.start_date >= s,
        None => true,
    })
    &&& (match end {
        Some(e) => ev.end_date <= e,
        None => true,
    })
}

/// The subsequence of a project's events inside the window, in stored
/// order.
pub open spec fn project_events(
    events: Seq<Event>,
    pid: i64,
    start: Option<i64>,
    end: Option<i64>,
) -> Seq<Event>
    decreases events.len(),
{
    if events.len() == 0 {
        events
    } else {
        let rest = project_events(events.drop_last(), pid, start, end);
        if event_of_project(events.last(), pid, start, end) {
            rest.push(events.last())
        } else {
            rest
        }
    }
}

impl Database {
    /// Is this authority on the work-domain allow-list?
    fn domain_listed(&self, d: &str) -> (r: bool)
        ensures
            r == exists|k: int|
                0 <= k < self.work_domains@.len() && (#[trigger] self.work_domains@[k]).domain@
                    == d@,
    {
        let n = self.work_domains.len();
        let mut k: usize = 0;
        while k < n
            invariant
                n == self.work_domains@.len(),
                k <= n,
                forall|j: int|
                    0 <= j < k ==> (#[trigger] self.work_domains@[j]).domain@ != d@,
            decreases n - k,
        {
            if str_eq(self.work_domains[k].domain.as_str(), d) {
                return true;
            }
            k += 1;
        }
        false
    }

    /// One owned copy of the stored event at `i`.
    fn copy_event(&self, i: usize) -> (r: Event)
        requires
            i < self.events@.len(),
        ensures
            event_model(r) == event_model(self.events@[i as int]),
    {
        let e = &self.events[i];
        let r = Event {
            id: e.id,
            event_type: e.event_type,
            title: e.title.clone(),
            start_date: e.start_date,
            end_date: e.end_date,
            external_id: match &e.external_id {
                Some(x) => Some(x.clone()),
                None => None,
            },
            external_link: match &e.external_link {
                Some(x) => Some(x.clone()),
                None => None,
            },
            type_specific_data: match &e.type_specific_data {
                Some(p) => Some(copy_payload(p)),
                None => None,
            },
            project_id: e.project_id,
            organizer_id: e.organizer_id,
            repository_path: match &e.repository_path {
                Some(x) => Some(x.clone()),
                None => None,
            },
            domain: match &e.domain {
                Some(x) => Some(x.clone()),
                None => None,
            },
            created_at: e.created_at,
            updated_at: e.updated_at,
        };
        r
    }

    /// The events visible for a window under the work-domain allow-list,
    /// ordered by start instant ascending: browsing events appear only on
    /// allow-listed domains, so an empty allow-list hides them all.
    pub fn get_events(&self, start_date: Option<i64>, end_date: Option<i64>) -> (r: Vec<Event>)
        ensures
            models_of(r@).to_multiset() == models_of(
                visible_events(self.events@, start_date, end_date, self.work_domains@),
            ).to_multiset(),
            events_sorted_by_start(r@, false),
    {
        let n = self.events.len();
        let mut picked: Vec<Event> = Vec::new();
        let mut i: usize = 0;
        while i < n
            invariant
                n == self.events@.len(),
                i <= n,
                models_of(picked@) =~= models_of(
                    visible_events(
                        self.events@.subrange(0, i as int),
                        start_date,
                        end_date,
                        self.work_domains@,
                    ),
                ),
            decreases n - i,
        {
            let ghost pre = self.events@.subrange(0, i as int);
            let ghost post = self.events@.subrange(0, i + 1);
            proof {
                assert(post.drop_last() =~= pre);
                assert(post.last() == self.events@[i as int]);
            }
            let ev = &self.events[i];
            let start_ok = match start_date {
                Some(s) => ev.start_date >= s,
                None => true,
            };
            let end_ok = match end_date {
                Some(e) => ev.end_date <= e,
                None => true,
            };
            let domain_ok = match ev.event_type {
                EventType::BrowserHistory => match &ev.domain {
                    Some(d) => self.domain_listed(d.as_str()),
                    None => false,
                },
                _ => true,
            };
            if start_ok && end_ok && domain_ok {
                let c = self.copy_event(i);
                let ghost picked0 = picked@;
                picked.push(c);
                proof {
                    assert(event_visible(
                        self.events@[i as int],
                        start_date,
                        end_date,
                        self.work_domains@,
                    ));
                    let vpre = visible_events(pre, start_date, end_date, self.work_domains@);
                    let vpost = visible_events(post, start_date, end_date, self.work_domains@);
                    assert(vpost == vpre.push(self.events@[i as int]));
                    assert(models_of(picked@) =~= models_of(picked0).push(event_model(c)));
                    assert(models_of(vpost) =~= models_of(vpre).push(
                        event_model(self.events@[i as int]),
                    ));
                    assert(models_of(picked@) =~= models_of(vpost));
                }
            } else {
                proof {
                    assert(!event_visible(
                        self.events@[i as int],
                        start_date,
                        end_date,
                        self.work_domains@,
                    ));
                    assert(visible_events(post, start_date, end_date, self.work_domains@)
                        == visible_events(pre, start_date, end_date, self.work_domains@));
                }
            }
            i += 1;
        }
        proof {
            assert(self.events@.subrange(0, n as int) =~= self.events@);
        }
        sort_events_by_start(picked, false)
    }

    /// A project's events inside a window, ordered by start instant
    /// descending; the work-domain allow-list does not apply here.
    pub fn get_events_by_project(
        &self,
        project_id: i64,
        start_date: Option<i64>,
        end_date: Option<i64>,
    ) -> (r: Vec<Event>)
        ensures
            models_of(r@).to_multiset() == models_of(
                project_events(self.events@, project_id, start_date, end_date),
            ).to_multiset(),
            events_sorted_by_start(r@, true),
    {
        let n = self.events.len();
        let mut picked: Vec<Event> = Vec::new();
        let mut i: usize = 0;
        while i < n
            invariant
                n == self.events@.len(),
                i <= n,
                models_of(picked@) =~= models_of(
                    project_events(
                        self.events@.subrange(0, i as int),
                        project_id,
                        start_date,
                        end_date,
                    ),
                ),
            decreases n - i,
        {
            let ghost pre = self.events@.subrange(0, i as int);
            let ghost post = self.events@.subrange(0, i + 1);
            proof {
                assert(post.drop_last() =~= pre);
                assert(post.last() == self.events@[i as int]);
            }
            let ev = &self.events[i];
            let pid_ok = match ev.project_id {
                Some(p) => p == project_id,
                None => false,
            };
            let start_ok = match start_date {
                Some(s) => ev.start_date >= s,
                None => true,
            };
            let end_ok = match end_date {
                Some(e) => ev.end_date <= e,
                None => true,
            };
            if pid_ok && start_ok && end_ok {
                let c = self.copy_event(i);
                let ghost picked0 = picked@;
                picked.push(c);
                proof {
                    assert(event_of_project(
                        self.events@[i as int],
                        project_id,
                        start_date,
                        end_date,
                    ));
                    let vpre = project_events(pre, project_id, start_date, end_date);
                    let vpost = project_events(post, project_id, start_date, end_date);
                    assert(vpost == vpre.push(self.events@[i as int]));
                    assert(models_of(picked@) =~= models_of(picked0).push(event_model(c)));
                    assert(models_of(vpost) =~= models_of(vpre).push(
                        event_model(self.events@[i as int]),
                    ));
                    assert(models_of(picked@) =~= models_of(vpost));
                }
            } else {
                proof {
                    assert(!event_of_project(
                        self.events@[i as int],
                        project_id,
                        start_date,
                        end_date,
                    ));
                    assert(project_events(post, project_id, start_date, end_date)
                        == project_events(pre, project_id, start_date, end_date));
                }
            }
            i += 1;
        }
        proof {
            assert(self.events@.subrange(0, n as int) =~= self.events@);
        }
        sort_events_by_start(picked, true)
    }
}

/// One owned copy of an event payload.
fn copy_payload(p: &EventPayload) -> (r: EventPayload)
    ensures
        payload_model(r) == payload_model(*p),
{
    match p {
        EventPayload::Calendar(c) => EventPayload::Calendar(
            CalendarEventData {
                location: match &c.location {
                    Some(x) => Some(x.clone()),
                    None => None,
                },
                notes: match &c.notes {
                    Some(x) => Some(x.clone()),
                    None => None,
                },
                is_all_day: c.is_all_day,
                organizer: match &c.organizer {
                    Some(x) => Some(x.clone()),
                    None => None,
                },
                attendees: match &c.attendees {
                    Some(x) => Some(copy_string_list(x)),
                    None => None,
                },
            },
        ),
        EventPayload::Git(g) => EventPayload::Git(
            GitEventData {
                repository_id: g.repository_id.clone(),
                repository_name: g.repository_name.clone(),
                activity_type: g.activity_type.clone(),
                ref_name: match &g.ref_name {
                    Some(x) => Some(x.clone()),
                    None => None,
                },
                commit_hash: match &g.commit_hash {
                    Some(x) => Some(x.clone()),
                    None => None,
                },
                repository_path: match &g.repository_path {
                    Some(x) => Some(x.clone()),
                    None => None,
                },
                origin_url: match &g.origin_url {
                    Some(x) => Some(x.clone()),
                    None => None,
                },
            },
        ),
        EventPayload::Browser(b) => EventPayload::Browser(
            BrowserHistoryEventData {
                url: b.url.clone(),
                domain: b.domain.clone(),
                page_title: match &b.page_title {
                    Some(x) => Some(x.clone()),
                    None => None,
                },
                visit_count: b.visit_count,
                repository_path: match &b.repository_path {
                    Some(x) => Some(x.clone()),
                    None => None,
                },
            },
        ),
    }
}

/// One owned copy of a list of strings.
pub fn copy_string_list(v: &Vec<String>) -> (r: Vec<String>)
    ensures
        r@ == v@,
{
    let n = v.len();
    let mut out: Vec<String> = Vec::new();
    let mut i: usize = 0;
    while i < n
        invariant
            n == v@.len(),
            i <= n,
            out@ =~= v@.subrange(0, i as int),
        decreases n - i,
    {
        out.push(v[i].clone());
        i += 1;
    }
    proof {
        assert(v@.subrange(0, n as int) =~= v@);
    }
    out
}

/// The sequence is ordered by project name.
pub open spec fn projects_sorted_by_name(s: Seq<Project>) -> bool {
    forall|i: int, j: int|
        0 <= i < j < s.len() ==> crate::text::seq_le(
            (#[trigger] s[i]).name@,
            (#[trigger] s[j]).name@,
        )
}

/// The sequence is ordered by domain.
pub open spec fn domains_sorted(s: Seq<WorkDomain>) -> bool {
    forall|i: int, j: int|
        0 <= i < j < s.len() ==> crate::text::seq_le(
            (#[trigger] s[i]).domain@,
            (#[trigger] s[j]).domain@,
        )
}

/// The sequence is ordered by creation instant, newest first.
pub open spec fn rules_sorted_newest_first(s: Seq<ProjectRule>) -> bool {
    forall|i: int, j: int|
        0 <= i < j < s.len() ==> (#[trigger] s[i]).created_at >= (#[trigger] s[j]).created_at
}

/// The rules owned by `pid`, or all rules, in stored order.
pub open spec fn rules_of(rules: Seq<ProjectRule>, pid: Option<i64>) -> Seq<ProjectRule>
    decreases rules.len(),
{
    if rules.len() == 0 {
        rules
    } else {
        let rest = rules_of(rules.drop_last(), pid);
        if match pid {
            Some(p) => rules.last().project_id == p,
            None => true,
        } {
            rest.push(rules.last())
        } else {
            rest
        }
    }
}

/// The index of the earliest-named project in a non-empty list.
fn min_name_idx(v: &Vec<Project>) -> (r: usize)
    requires
        v@.len() > 0,
    ensures
        r < v@.len(),
        forall|j: int|
            0 <= j < v@.len() ==> crate::text::seq_le(
                v@[r as int].name@,
                (#[trigger] v@[j]).name@,
            ),
{
    let n = v.len();
    let mut best: usize = 0;
    proof {
        crate::text::lemma_seq_le_refl(v@[0].name@);
    }
    let mut i: usize = 1;
    while i < n
        invariant
            n == v@.len(),
            best < i <= n,
            forall|j: int|
                0 <= j < i ==> crate::text::seq_le(
                    v@[best as int].name@,
                    (#[trigger] v@[j]).name@,
                ),
        decreases n - i,
    {
        if str_le(v[i].name.as_str(), v[best].name.as_str()) {
            proof {
                assert forall|j: int| 0 <= j < i + 1 implies crate::text::seq_le(
                    v@[i as int].name@,
                    (#[trigger] v@[j]).name@,
                ) by {
                    if j < i {
                        crate::text::lemma_seq_le_trans(
                            v@[i as int].name@,
                            v@[best as int].name@,
                            v@[j].name@,
                        );
                    } else {
                        crate::text::lemma_seq_le_refl(v@[i as int].name@);
                    }
                }
            }
            best = i;
        } else {
            proof {
                crate::text::lemma_seq_le_total(v@[i as int].name@, v@[best as int].name@);
            }
        }
        i += 1;
    }
    best
}

/// The index of the earliest domain in a non-empty list.
fn min_domain_idx(v: &Vec<WorkDomain>) -> (r: usize)
    requires
        v@.len() > 0,
    ensures
        r < v@.len(),
        forall|j: int|
            0 <= j < v@.len() ==> crate::text::seq_le(
                v@[r as int].domain@,
                (#[trigger] v@[j]).domain@,
            ),
{
    let n = v.len();
    let mut best: usize = 0;
    proof {
        crate::text::lemma_seq_le_refl(v@[0].domain@);
    }
    let mut i: usize = 1;
    while i < n
        invariant
            n == v@.len(),
            best < i <= n,
            forall|j: int|
                0 <= j < i ==> crate::text::seq_le(
                    v@[best as int].domain@,
                    (#[trigger] v@[j]).domain@,
                ),
        decreases n - i,
    {
        if str_le(v[i].domain.as_str(), v[best].domain.as_str()) {
            proof {
                assert forall|j: int| 0 <= j < i + 1 implies crate::text::seq_le(
                    v@[i as int].domain@,
                    (#[trigger] v@[j]).domain@,
                ) by {
                    if j < i {
                        crate::text::lemma_seq_le_trans(
                            v@[i as int].domain@,
                            v@[best as int].domain@,
                            v@[j].domain@,
                        );
                    } else {
                        crate::text::lemma_seq_le_refl(v@[i as int].domain@);
                    }
                }
            }
            best = i;
        } else {
            proof {
                crate::text::lemma_seq_le_total(v@[i as int].domain@, v@[best as int].domain@);
            }
        }
        i += 1;
    }
    best
}

/// The index of the newest rule in a non-empty list.
fn max_created_idx(v: &Vec<ProjectRule>) -> (r: usize)
    requires
        v@.len() > 0,
    ensures
        r < v@.len(),
        forall|j: int|
            0 <= j < v@.len() ==> v@[r as int].created_at >= (#[trigger] v@[j]).created_at,
{
    let n = v.len();
    let mut best: usize = 0;
    let mut i: usize = 1;
    while i < n
        invariant
            n == v@.len(),
            best < i <= n,
            forall|j: int|
                0 <= j < i ==> v@[best as int].created_at >= (#[trigger] v@[j]).created_at,
        decreases n - i,
    {
        if v[i].created_at > v[best].created_at {
            best = i;
        }
        i += 1;
    }
    best
}

impl Database {
    /// Every project, ordered by name.
    pub fn get_all_projects(&self) -> (r: Vec<Project>)
        ensures
            r@.to_multiset() == self.projects@.to_multiset(),
            projects_sorted_by_name(r@),
    {
        let n = self.projects.len();
        let mut src: Vec<Project> = Vec::new();
        let mut i: usize = 0;
        while i < n
            invariant
                n == self.projects@.len(),
                i <= n,
                src@ =~= self.projects@.subrange(0, i as int),
            decreases n - i,
        {
            let p = Project {
                id: self.projects[i].id,
                name: self.projects[i].name.clone(),
                color: match &self.projects[i].color {
                    Some(c) => Some(c.clone()),
                    None => None,
                },
                created_at: self.projects[i].created_at,
            };
            proof {
                assert(p == self.projects@[i as int]);
            }
            src.push(p);
            i += 1;
        }
        proof {
            assert(self.projects@.subrange(0, n as int) =~= self.projects@);
        }
        let ghost orig = src@;
        let mut out: Vec<Project> = Vec::new();
        while src.len() > 0
            invariant
                out@.to_multiset().add(src@.to_multiset()) == orig.to_multiset(),
                projects_sorted_by_name(out@),
                forall|a: int, b: int|
                    0 <= a < out@.len() && 0 <= b < src@.len() ==> crate::text::seq_le(
                        (#[trigger] out@[a]).name@,
                        (#[trigger] src@[b]).name@,
                    ),
                orig == self.projects@,
            decreases src@.len(),
        {
            let mi = min_name_idx(&src);
            let ghost out0 = out@;
            let ghost src0 = src@;
            let x = src.remove(mi);
            out.push(x);
            proof {
                assert(src0.contains(x));
                assert(src0.to_multiset().count(x) > 0);
                assert(out@.to_multiset() =~= out0.to_multiset().insert(x));
                assert(src@.to_multiset() =~= src0.to_multiset().remove(x));
                assert(out@.to_multiset().add(src@.to_multiset()) =~= out0.to_multiset().add(
                    src0.to_multiset(),
                ));
                assert(forall|b: int|
                    0 <= b < src@.len() ==> src@[b] == if b < mi as int {
                        src0[b]
                    } else {
                        src0[b + 1]
                    });
                assert forall|p: int, q: int| 0 <= p < q < out@.len() implies crate::text::seq_le(
                    (#[trigger] out@[p]).name@,
                    (#[trigger] out@[q]).name@,
                ) by {
                    if q < out0.len() {
                        assert(crate::text::seq_le(out0[p].name@, out0[q].name@));
                    } else {
                        assert(out@[q] == src0[mi as int]);
                    }
                }
            }
        }
        proof {
            assert forall|m: Project| src@.to_multiset().count(m) == 0 by {
                if src@.to_multiset().count(m) > 0 {
                    assert(src@.contains(m));
                }
            }
            assert(src@.to_multiset() =~= Multiset::<Project>::empty());
            assert(out@.to_multiset() =~= orig.to_multiset());
        }
        out
    }

    /// The work-domain allow-list, ordered by domain.
    pub fn get_work_domains(&self) -> (r: Vec<WorkDomain>)
        ensures
            r@.to_multiset() == self.work_domains@.to_multiset(),
            domains_sorted(r@),
    {
        let n = self.work_domains.len();
        let mut src: Vec<WorkDomain> = Vec::new();
        let mut i: usize = 0;
        while i < n
            invariant
                n == self.work_domains@.len(),
                i <= n,
                src@ =~= self.work_domains@.subrange(0, i as int),
            decreases n - i,
        {
            let d = WorkDomain {
                id: self.work_domains[i].id,
                domain: self.work_domains[i].domain.clone(),
                created_at: self.work_domains[i].created_at,
            };
            proof {
                assert(d == self.work_domains@[i as int]);
            }
            src.push(d);
            i += 1;
        }
        proof {
            assert(self.work_domains@.subrange(0, n as int) =~= self.work_domains@);
        }
        let ghost orig = src@;
        let mut out: Vec<WorkDomain> = Vec::new();
        while src.len() > 0
            invariant
                out@.to_multiset().add(src@.to_multiset()) == orig.to_multiset(),
                domains_sorted(out@),
                forall|a: int, b: int|
                    0 <= a < out@.len() && 0 <= b < src@.len() ==> crate::text::seq_le(
                        (#[trigger] out@[a]).domain@,
                        (#[trigger] src@[b]).domain@,
                    ),
                orig == self.work_domains@,
            decreases src@.len(),
        {
            let mi = min_domain_idx(&src);
            let ghost out0 = out@;
            let ghost src0 = src@;
            let x = src.remove(mi);
            out.push(x);
            proof {
                assert(src0.contains(x));
                assert(src0.to_multiset().count(x) > 0);
                assert(out@.to_multiset() =~= out0.to_multiset().insert(x));
                assert(src@.to_multiset() =~= src0.to_multiset().remove(x));
                assert(out@.to_multiset().add(src@.to_multiset()) =~= out0.to_multiset().add(
                    src0.to_multiset(),
                ));
                assert(forall|b: int|
                    0 <= b < src@.len() ==> src@[b] == if b < mi as int {
                        src0[b]
                    } else {
                        src0[b + 1]
                    });
                assert forall|p: int, q: int| 0 <= p < q < out@.len() implies crate::text::seq_le(
                    (#[trigger] out@[p]).domain@,
                    (#[trigger] out@[q]).domain@,
                ) by {
                    if q < out0.len() {
                        assert(crate::text::seq_le(out0[p].domain@, out0[q].domain@));
                    } else {
                        assert(out@[q] == src0[mi as int]);
                    }
                }
            }
        }
        proof {
            assert forall|m: WorkDomain| src@.to_multiset().count(m) == 0 by {
                if src@.to_multiset().count(m) > 0 {
                    assert(src@.contains(m));
                }
            }
            assert(src@.to_multiset() =~= Multiset::<WorkDomain>::empty());
            assert(out@.to_multiset() =~= orig.to_multiset());
        }
        out
    }

    /// The rules of one project, or all rules, ordered by creation instant
    /// newest first.
    pub fn get_project_rules(&self, project_id: Option<i64>) -> (r: Vec<ProjectRule>)
        ensures
            r@.to_multiset() == rules_of(self.project_rules@, project_id).to_multiset(),
            rules_sorted_newest_first(r@),
    {
        let n = self.project_rules.len();
        let mut src: Vec<ProjectRule> = Vec::new();
        let mut i: usize = 0;
        while i < n
            invariant
                n == self.project_rules@.len(),
                i <= n,
                src@ =~= rules_of(self.project_rules@.subrange(0, i as int), project_id),
            decreases n - i,
        {
            let ghost pre = self.project_rules@.subrange(0, i as int);
            let ghost post = self.project_rules@.subrange(0, i + 1);
            proof {
                assert(post.drop_last() =~= pre);
                assert(post.last() == self.project_rules@[i as int]);
            }
            let keep = match project_id {
                Some(p) => self.project_rules[i].project_id == p,
                None => true,
            };
            if keep {
                let rl = ProjectRule {
                    id: self.project_rules[i].id,
                    project_id: self.project_rules[i].project_id,
                    rule_type: self.project_rules[i].rule_type.clone(),
                    match_value: self.project_rules[i].match_value.clone(),
                    created_at: self.project_rules[i].created_at,
                };
                proof {
                    assert(rl == self.project_rules@[i as int]);
                }
                src.push(rl);
            }
            i += 1;
        }
        proof {
            assert(self.project_rules@.subrange(0, n as int) =~= self.project_rules@);
        }
        let ghost orig = src@;
        let mut out: Vec<ProjectRule> = Vec::new();
        while src.len() > 0
            invariant
                out@.to_multiset().add(src@.to_multiset()) == orig.to_multiset(),
                rules_sorted_newest_first(out@),
                forall|a: int, b: int|
                    0 <= a < out@.len() && 0 <= b < src@.len() ==> (#[trigger] out@[a]).created_at
                        >= (#[trigger] src@[b]).created_at,
                orig == rules_of(self.project_rules@, project_id),
            decreases src@.len(),
        {
            let mi = max_created_idx(&src);
            let ghost out0 = out@;
            let ghost src0 = src@;
            let x = src.remove(mi);
            out.push(x);
            proof {
                assert(src0.contains(x));
                assert(src0.to_multiset().count(x) > 0);
                assert(out@.to_multiset() =~= out0.to_multiset().insert(x));
                assert(src@.to_multiset() =~= src0.to_multiset().remove(x));
                assert(out@.to_multiset().add(src@.to_multiset()) =~= out0.to_multiset().add(
                    src0.to_multiset(),
                ));
                assert(forall|b: int|
                    0 <= b < src@.len() ==> src@[b] == if b < mi as int {
                        src0[b]
                    } else {
                        src0[b + 1]
                    });
                assert forall|p: int, q: int| 0 <= p < q < out@.len() implies (
                #[trigger] out@[p]).created_at >= (#[trigger] out@[q]).created_at by {
                    if q < out0.len() {
                        assert(out0[p].created_at >= out0[q].created_at);
                    } else {
                        assert(out@[q] == src0[mi as int]);
                    }
                }
            }
        }
        proof {
            assert forall|m: ProjectRule| src@.to_multiset().count(m) == 0 by {
                if src@.to_multiset().count(m) > 0 {
                    assert(src@.contains(m));
                }
            }
            assert(src@.to_multiset() =~= Multiset::<ProjectRule>::empty());
            assert(out@.to_multiset() =~= orig.to_multiset());
        }
        out
    }

    /// A canonical path stands among the version-control events.
    pub open spec fn is_discovered_path(self, p: Seq<char>) -> bool {
        exists|j: int|
            0 <= j < self.events@.len() && (#[trigger] self.events@[j]).event_type
                == EventType::Git && (match self.events@[j].type_specific_data {
                Some(EventPayload::Git(g)) => g.repository_path matches Some(rp) && rp@ == p,
                _ => false,
            })
    }

    /// The distinct canonical repository paths that version-control events
    /// carry.
    pub fn get_discovered_repository_paths(&self) -> (r: Vec<String>)
        ensures
            forall|a: int, b: int| 0 <= a < b < r@.len() ==> (#[trigger] r@[a])@ != (
            #[trigger] r@[b])@,
            forall|a: int| 0 <= a < r@.len() ==> self.is_discovered_path((#[trigger] r@[a])@),
            forall|p: Seq<char>| self.is_discovered_path(p) ==> exists|a: int|
                0 <= a < r@.len() && (#[trigger] r@[a])@ == p,
    {
        let n = self.events.len();
        let mut out: Vec<String> = Vec::new();
        let mut i: usize = 0;
        while i < n
            invariant
                n == self.events@.len(),
                i <= n,
                forall|a: int, b: int| 0 <= a < b < out@.len() ==> (#[trigger] out@[a])@ != (
                #[trigger] out@[b])@,
                forall|a: int|
                    0 <= a < out@.len() ==> self.is_discovered_path((#[trigger] out@[a])@),
                forall|j: int|
                    0 <= j < i && (#[trigger] self.events@[j]).event_type == EventType::Git ==> (
                    match self.events@[j].type_specific_data {
                        Some(EventPayload::Git(g)) => g.repository_path matches Some(rp)
                            ==> exists|a: int| 0 <= a < out@.len() && (#[trigger] out@[a])@ == rp@,
                        _ => true,
                    }),
            decreases n - i,
        {
            let ghost out0 = out@;
            let ev = &self.events[i];
            let is_git = match ev.event_type {
                EventType::Git => true,
                _ => false,
            };
            if is_git {
                match &ev.type_specific_data {
                    Some(EventPayload::Git(g)) => {
                        match &g.repository_path {
                            Some(rp) => {
                                let mut seen = false;
                                let m = out.len();
                                let mut k: usize = 0;
                                while k < m
                                    invariant_except_break
                                        m == out@.len(),
                                        k <= m,
                                        !seen,
                                        out@ == out0,
                                        forall|a: int|
                                            0 <= a < k ==> (#[trigger] out@[a])@ != rp@,
                                    ensures
                                        m == out@.len(),
                                        out@ == out0,
                                        seen == exists|a: int|
                                            0 <= a < out@.len() && (#[trigger] out@[a])@ == rp@,
                                    decreases m - k,
                                {
                                    if str_eq(out[k].as_str(), rp.as_str()) {
                                        seen = true;
                                        proof {
                                            assert((out@[k as int])@ == rp@);
                                        }
                                        break;
                                    }
                                    k += 1;
                                }
                                if !seen {
                                    out.push(rp.clone());
                                    proof {
                                        assert(out@.last()@ == rp@);
                                        assert(self.is_discovered_path(out@.last()@));
                                    }
                                }
                            },
                            None => {},
                        }
                    },
                    _ => {},
                }
            }
            proof {
                assert(forall|a: int| 0 <= a < out0.len() ==> #[trigger] out@[a] == out0[a]);
                assert forall|j: int|
                    0 <= j < i + 1 && (#[trigger] self.events@[j]).event_type
                        == EventType::Git implies (match self.events@[j].type_specific_data {
                    Some(EventPayload::Git(g2)) => g2.repository_path matches Some(rp2)
                        ==> exists|a: int| 0 <= a < out@.len() && (#[trigger] out@[a])@ == rp2@,
                    _ => true,
                }) by {
                    if j < i {
                        match self.events@[j].type_specific_data {
                            Some(EventPayload::Git(g2)) => {
                                match g2.repository_path {
                                    Some(rp2) => {
                                        let a = choose|a: int|
                                            0 <= a < out0.len() && (#[trigger] out0[a])@ == rp2@;
                                        assert(out@[a] == out0[a]);
                                        assert((out@[a])@ == rp2@);
                                    },
                                    None => {},
                                }
                            },
                            _ => {},
                        }
                    }
                }
            }
            i += 1;
        }
        out
    }
}

/// The built-in work-domain allow-list, in its stored order.
pub open spec fn default_domain_name(i: int) -> Seq<char> {
    if i == 0 {
        "dropbox.com"@
    } else if i == 1 {
        "paper.dropbox.com"@
    } else if i == 2 {
        "docs.google.com"@
    } else if i == 3 {
        "sheets.google.com"@
    } else if i == 4 {
        "slides.google.com"@
    } else if i == 5 {
        "drive.google.com"@
    } else if i == 6 {
        "monday.com"@
    } else if i == 7 {
        "notion.so"@
    } else if i == 8 {
        "linear.app"@
    } else if i == 9 {
        "github.com"@
    } else if i == 10 {
        "gitlab.com"@
    } else if i == 11 {
        "stackoverflow.com"@
    } else {
        "developer.mozilla.org"@
    }
}

impl Database {
    /// Seeds a fresh store: the development folder and browser profile, if
    /// known and not yet set, and the built-in work-domain allow-list if
    /// none is configured.
    pub fn init_default_settings(
        &mut self,
        git_dev_folder: Option<&str>,
        zen_profile_path: Option<&str>,
        now: i64,
    )
        requires
            old(self).wf(),
            old(self).next_work_domain_id <= i64::MAX - 13,
        ensures
            final(self).wf(),
            final(self).events == old(self).events,
            final(self).projects == old(self).projects,
            final(self).project_rules == old(self).project_rules,
            final(self).contacts == old(self).contacts,
            final(self).github_orgs == old(self).github_orgs,
            final(self).sync_metadata == old(self).sync_metadata,
            final(self).next_event_id == old(self).next_event_id,
            forall|j: int|
                0 <= j < old(self).settings@.len() ==> final(self).settings@[j] == old(
                    self,
                ).settings@[j],
            ({
                let g_add = !has_setting(old(self).settings@, "git_dev_folder"@)
                    && git_dev_folder is Some;
                let z_add = !has_setting(old(self).settings@, "zen_browser_profile_path"@)
                    && zen_profile_path is Some;
                let base = old(self).settings@.len() as int;
                &&& final(self).settings@.len() == base + (if g_add {
                    1int
                } else {
                    0int
                }) + (if z_add {
                    1int
                } else {
                    0int
                })
                &&& (g_add ==> final(self).settings@[base].key@ == "git_dev_folder"@
                    && final(self).settings@[base].value@ == git_dev_folder->0@
                    && final(self).settings@[base].updated_at == now)
                &&& (z_add ==> {
                    let zi = base + (if g_add {
                        1int
                    } else {
                        0int
                    });
                    final(self).settings@[zi].key@ == "zen_browser_profile_path"@
                        && final(self).settings@[zi].value@ == zen_profile_path->0@
                        && final(self).settings@[zi].updated_at == now
                })
            }),
            if old(self).work_domains@.len() == 0 {
                &&& final(self).work_domains@.len() == 13
                &&& (forall|i: int|
                    0 <= i < 13 ==> (#[trigger] final(self).work_domains@[i]).domain@
                        == default_domain_name(i))
                &&& (forall|i: int|
                    0 <= i < 13 ==> (#[trigger] final(self).work_domains@[i]).id == Some(
                        (old(self).next_work_domain_id + i) as i64,
                    ))
                &&& (forall|i: int|
                    0 <= i < 13 ==> (#[trigger] final(self).work_domains@[i]).created_at == now)
                &&& final(self).next_work_domain_id == old(self).next_work_domain_id + 13
            } else {
                final(self).work_domains == old(self).work_domains
                    && final(self).next_work_domain_id == old(self).next_work_domain_id
            },
    {
        proof {
            reveal_strlit("git_dev_folder");
            reveal_strlit("zen_browser_profile_path");
        }
        match git_dev_folder {
            Some(folder) => {
                if self.find_setting("git_dev_folder").is_none() {
                    self.set_setting("git_dev_folder", folder, now);
                }
            },
            None => {},
        }
        if self.work_domains.len() == 0 {
            let base = self.next_work_domain_id;
            self.work_domains.push(
                WorkDomain { id: Some(base), domain: String::from_str("dropbox.com"), created_at: now },
            );
            self.work_domains.push(
                WorkDomain {
                    id: Some(base + 1),
                    domain: String::from_str("paper.dropbox.com"),
                    created_at: now,
                },
            );
            self.work_domains.push(
                WorkDomain {
                    id: Some(base + 2),
                    domain: String::from_str("docs.google.com"),
                    created_at: now,
                },
            );
            self.work_domains.push(
                WorkDomain {
                    id: Some(base + 3),
                    domain: String::from_str("sheets.google.com"),
                    created_at: now,
                },
            );
            self.work_domains.push(
                WorkDomain {
                    id: Some(base + 4),
                    domain: String::from_str("slides.google.com"),
                    created_at: now,
                },
            );
            self.work_domains.push(
                WorkDomain {
                    id: Some(base + 5),
                    domain: String::from_str("drive.google.com"),
                    created_at: now,
                },
            );
            self.work_domains.push(
                WorkDomain {
                    id: Some(base + 6),
                    domain: String::from_str("monday.com"),
                    created_at: now,
                },
            );
            self.work_domains.push(
                WorkDomain {
                    id: Some(base + 7),
                    domain: String::from_str("notion.so"),
                    created_at: now,
                },
            );
            self.work_domains.push(
                WorkDomain {
                    id: Some(base + 8),
                    domain: String::from_str("linear.app"),
                    created_at: now,
                },
            );
            self.work_domains.push(
                WorkDomain {
                    id: Some(base + 9),
                    domain: String::from_str("github.com"),
                    created_at: now,
                },
            );
            self.work_domains.push(
                WorkDomain {
                    id: Some(base + 10),
                    domain: String::from_str("gitlab.com"),
                    created_at: now,
                },
            );
            self.work_domains.push(
                WorkDomain {
                    id: Some(base + 11),
                    domain: String::from_str("stackoverflow.com"),
                    created_at: now,
                },
            );
            self.work_domains.push(
                WorkDomain {
                    id: Some(base + 12),
                    domain: String::from_str("developer.mozilla.org"),
                    created_at: now,
                },
            );
            self.next_work_domain_id = base + 13;
        }
        proof {
            assert("git_dev_folder"@.len() == 14);
            assert("zen_browser_profile_path"@.len() == 24);
            let zkey = "zen_browser_profile_path"@;
            if has_setting(self.settings@, zkey) {
                let i = choose|i: int|
                    0 <= i < self.settings@.len() && self.settings@[i].key@ == zkey;
                assert(i < old(self).settings@.len());
                assert(has_setting(old(self).settings@, zkey));
            }
            if has_setting(old(self).settings@, zkey) {
                let i = choose|i: int|
                    0 <= i < old(self).settings@.len() && old(self).settings@[i].key@ == zkey;
                assert(self.settings@[i].key@ == zkey);
                assert(has_setting(self.settings@, zkey));
            }
        }
        match zen_profile_path {
            Some(profile) => {
                if self.find_setting("zen_browser_profile_path").is_none() {
                    self.set_setting("zen_browser_profile_path", profile, now);
                }
            },
            None => {},
        }
    }
}

/// The events after one upsert: a known key is overwritten in place, a
/// fresh key appended under the given id.
pub open spec fn upsert_result_events(
    events: Seq<Event>,
    next_id: i64,
    event: Event,
    now: i64,
) -> Seq<Event> {
    if has_key(events, event) {
        events.update(
            key_idx(events, event),
            merged_event(events[key_idx(events, event)], event, now),
        )
    } else {
        events.push(inserted_event(event, next_id, now))
    }
}

/// Whether one upsert reports a fresh row.
pub open spec fn upsert_was_new(events: Seq<Event>, event: Event) -> bool {
    !has_key(events, event)
}

/// Among key-unique events, the key of `e` names one index only.
pub proof fn lemma_key_idx_unique(events: Seq<Event>, e: Event, i: int)
    requires
        events_unique(events),
        0 <= i < events.len(),
        same_key(events[i], e),
    ensures
        has_key(events, e),
        key_idx(events, e) == i,
{
    assert(has_key(events, e));
    let k = key_idx(events, e);
    assert(0 <= k < events.len() && same_key(events[k], e));
    if k != i {
        assert(same_key(events[k], events[i]));
        assert(same_key(events[i], events[k]));
        if k < i {
            assert(!same_key(events[k], events[i]));
        } else {
            assert(!same_key(events[i], events[k]));
        }
        assert(false);
    }
}

/// Law: in a well-formed store no two events share an (event type,
/// external id) key.
pub proof fn lemma_store_keys_unique(db: Database)
    requires
        db.wf(),
    ensures
        forall|i: int, j: int|
            0 <= i < j < db.events@.len() ==> !same_key(db.events@[i], db.events@[j]),
{
}

/// Law: upserting the same record over an unchanged window twice changes
/// nothing but the update time. The second pass reports no new row, the
/// row count stays, the creation time of the first pass is kept, and the
/// update time advances to the second pass's instant.
pub proof fn lemma_resync_is_idempotent(
    events: Seq<Event>,
    next_id: i64,
    e: Event,
    t1: i64,
    t2: i64,
)
    requires
        events_unique(events),
        e.external_id is Some,
    ensures
        ({
            let after1 = upsert_result_events(events, next_id, e, t1);
            let after2 = upsert_result_events(after1, next_id, e, t2);
            &&& !upsert_was_new(after1, e)
            &&& after2.len() == after1.len()
            &&& after2[key_idx(after1, e)].created_at == after1[key_idx(after1, e)].created_at
            &&& after2[key_idx(after1, e)].updated_at == t2
        }),
{
    let after1 = upsert_result_events(events, next_id, e, t1);
    if has_key(events, e) {
        let i = key_idx(events, e);
        assert(0 <= i < events.len() && same_key(events[i], e));
        assert(after1[i] == merged_event(events[i], e, t1));
        assert(same_key(after1[i], e));
        assert forall|p: int, q: int| 0 <= p < q < after1.len() implies !same_key(
            after1[p],
            after1[q],
        ) by {
            assert(!same_key(events[p], events[q]));
        }
        lemma_key_idx_unique(after1, e, i);
        let after2 = upsert_result_events(after1, next_id, e, t2);
        assert(after2[i] == merged_event(after1[i], e, t2));
    } else {
        assert(after1 == events.push(inserted_event(e, next_id, t1)));
        let i = events.len() as int;
        assert(after1[i] == inserted_event(e, next_id, t1));
        assert(same_key(after1[i], e));
        assert forall|p: int, q: int| 0 <= p < q < after1.len() implies !same_key(
            after1[p],
            after1[q],
        ) by {
            if q < i {
                assert(!same_key(events[p], events[q]));
            } else {
                assert(after1[q] == inserted_event(e, next_id, t1));
                if same_key(after1[p], after1[q]) {
                    assert(same_key(events[p], e));
                    assert(has_key(events, e));
                }
            }
        }
        lemma_key_idx_unique(after1, e, i);
        let after2 = upsert_result_events(after1, next_id, e, t2);
        assert(after2[i] == merged_event(after1[i], e, t2));
    }
}

/// The row stored when an incoming event lands on an existing key: every
/// field from the incoming record but the id and creation time, which stay,
/// and the update time, which advances to `now`.
pub open spec fn merged_event(existing: Event, incoming: Event, now: i64) -> Event {
    Event { id: existing.id, created_at: existing.created_at, updated_at: now, ..incoming }
}

/// The row stored for a fresh key: the incoming record under a fresh id,
/// created now unless it already carries a creation time, updated now.
pub open spec fn inserted_event(incoming: Event, id: i64, now: i64) -> Event {
    Event {
        id: Some(id),
        created_at: if incoming.created_at == 0 {
            now
        } else {
            incoming.created_at
        },
        updated_at: now,
        ..incoming
    }
}

} // verus!
