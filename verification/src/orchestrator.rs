//! The sync orchestrator, as a state machine over the store: window
//! selection, one isolated phase per source, cooperative cancellation
//! honoured between phases and between items, and a progress trace. The
//! surrounding program performs the fetches and polls the cancellation
//! flag; every decision and every store write stands here.

use vstd::prelude::*;

use crate::browser::BrowserVisit;
use crate::calendar::CalendarEvent;
use crate::db::{Database, Event, SyncStatus};
use crate::git::{GitActivity, GitRepository};
use crate::sync_events::{ProgressStatus, SyncEvent, SyncSource};

verus! {

/// Where a sync pass stands.
#[derive(Debug, Clone, Copy, PartialEq, Eq, Structural)]
pub enum SyncPhase {
    Idle,
    SyncingCalendar,
    SyncingVersionControl,
    SyncingBrowser,
    UpdatingStatus,
    Cancelled,
    Failed,
}

/// The window rule: with no prior completed sync the window opens 90 days
/// before now, afterwards at the last recorded completion instant.
pub open spec fn window_start_spec(last_sync: Option<i64>, now: i64) -> int {
    match last_sync {
        Some(t) => t as int,
        None => now - 90 * 86400,
    }
}

/// The completion instant the store records, if any.
pub open spec fn last_sync_of(db: Database) -> Option<i64> {
    match db.sync_metadata {
        Some(s) => s.last_sync_time,
        None => None,
    }
}

/// The phase that ingests a source's records.
pub open spec fn phase_of_source(source: SyncSource) -> SyncPhase {
    match source {
        SyncSource::Calendar => SyncPhase::SyncingCalendar,
        SyncSource::Git => SyncPhase::SyncingVersionControl,
        SyncSource::Browser => SyncPhase::SyncingBrowser,
    }
}

/// The phase after a source's phase ends.
pub open spec fn next_phase_of(source: SyncSource) -> SyncPhase {
    match source {
        SyncSource::Calendar => SyncPhase::SyncingVersionControl,
        SyncSource::Git => SyncPhase::SyncingBrowser,
        SyncSource::Browser => SyncPhase::UpdatingStatus,
    }
}

/// A phase in which records are being ingested.
pub open spec fn is_syncing_phase(p: SyncPhase) -> bool {
    p == SyncPhase::SyncingCalendar || p == SyncPhase::SyncingVersionControl || p
        == SyncPhase::SyncingBrowser
}

/// One sync pass in flight: its phase, its window, its counts, and the
/// notifications emitted so far, in emission order.
pub struct SyncRun {
    pub phase: SyncPhase,
    pub window_start: i64,
    pub window_end: i64,
    pub begun: bool,
    pub source_new: usize,
    pub source_updated: usize,
    pub total_new: usize,
    pub total_updated: usize,
    pub item_errors: usize,
    pub emitted: Vec<SyncEvent>,
}

impl SyncRun {
    /// Begins a sync pass: marks the store in progress, chooses the window
    /// by the window rule, and emits the start notification.
    pub fn start(db: &mut Database, now: i64) -> (r: SyncRun)
        requires
            old(db).wf(),
            now >= i64::MIN + 90 * 86400,
        ensures
            final(db).wf(),
            final(db).events == old(db).events,
            final(db).projects == old(db).projects,
            final(db).project_rules == old(db).project_rules,
            final(db).contacts == old(db).contacts,
            final(db).work_domains == old(db).work_domains,
            final(db).settings == old(db).settings,
            final(db).github_orgs == old(db).github_orgs,
            final(db).sync_metadata == Some(
                SyncStatus {
                    last_sync_time: last_sync_of(*old(db)),
                    sync_in_progress: true,
                    updated_at: now,
                },
            ),
            r.phase == SyncPhase::SyncingCalendar,
            r.window_start == window_start_spec(last_sync_of(*old(db)), now),
            r.window_end == now,
            !r.begun,
            r.source_new == 0 && r.source_updated == 0 && r.total_new == 0 && r.total_updated
                == 0 && r.item_errors == 0,
            r.emitted@.len() == 1,
            (r.emitted@[0] matches SyncEvent::Started { timestamp } && timestamp@
                == crate::timefmt::rfc3339_of(now as int)),
    {
        db.update_sync_status(None, true, now);
        let status = db.get_sync_status(now);
        let window_start = match status.last_sync_time {
            Some(t) => t,
            None => now - 90 * 86400,
        };
        let mut emitted: Vec<SyncEvent> = Vec::new();
        emitted.push(SyncEvent::Started { timestamp: crate::timefmt::format_rfc3339(now) });
        SyncRun {
            phase: SyncPhase::SyncingCalendar,
            window_start,
            window_end: now,
            begun: false,
            source_new: 0,
            source_updated: 0,
            total_new: 0,
            total_updated: 0,
            item_errors: 0,
            emitted,
        }
    }

    /// Opens a source's phase and emits its starting notification.
    pub fn begin_source(&mut self, source: SyncSource, message: String)
        requires
            old(self).phase == phase_of_source(source),
            !old(self).begun,
        ensures
            final(self).phase == old(self).phase,
            final(self).begun,
            final(self).source_new == 0 && final(self).source_updated == 0,
            final(self).item_errors == 0,
            final(self).window_start == old(self).window_start,
            final(self).window_end == old(self).window_end,
            final(self).total_new == old(self).total_new,
            final(self).total_updated == old(self).total_updated,
            final(self).emitted@.len() == old(self).emitted@.len() + 1,
            forall|j: int|
                0 <= j < old(self).emitted@.len() ==> final(self).emitted@[j] == old(
                    self,
                ).emitted@[j],
            (final(self).emitted@.last() matches SyncEvent::Progress { source: s, status, message: m }
                && s == source && status == ProgressStatus::Starting && m@ == message@),
    {
        self.begun = true;
        self.source_new = 0;
        self.source_updated = 0;
        self.item_errors = 0;
        self.emitted.push(
            SyncEvent::Progress { source, status: ProgressStatus::Starting, message },
        );
    }

    /// Ingests one calendar record inside the calendar phase, counting it
    /// as new or updated; a record that cannot be parsed is counted as a
    /// per-item error and the phase goes on.
    pub fn ingest_calendar_item(
        &mut self,
        db: &mut Database,
        item: &CalendarEvent,
        now: i64,
    ) -> (r: Result<usize, crate::CoreError>)
        requires
            old(self).phase == SyncPhase::SyncingCalendar,
            old(self).begun,
            old(db).wf(),
            old(db).next_event_id < i64::MAX,
            old(db).next_contact_id < i64::MAX,
            old(self).source_new < usize::MAX,
            old(self).source_updated < usize::MAX,
            old(self).item_errors < usize::MAX,
        ensures
            final(db).wf(),
            final(self).phase == old(self).phase,
            final(self).begun,
            final(self).emitted == old(self).emitted,
            final(self).total_new == old(self).total_new,
            final(self).total_updated == old(self).total_updated,
            final(self).window_start == old(self).window_start,
            final(self).window_end == old(self).window_end,
            final(db).projects == old(db).projects,
            final(db).project_rules == old(db).project_rules,
            final(db).work_domains == old(db).work_domains,
            final(db).settings == old(db).settings,
            final(db).github_orgs == old(db).github_orgs,
            final(db).sync_metadata == old(db).sync_metadata,
            match r {
                Ok(cnt) => {
                    &&& (cnt == 1 ==> final(self).source_new == old(self).source_new + 1
                        && final(self).source_updated == old(self).source_updated)
                    &&& (cnt == 0 ==> final(self).source_updated == old(self).source_updated + 1
                        && final(self).source_new == old(self).source_new)
                    &&& final(self).item_errors == old(self).item_errors
                    &&& exists|ev: Event, oid: Option<i64>|
                        {
                            &&& #[trigger] crate::sync::calendar_event_shape(
                                ev,
                                *item,
                                oid,
                                crate::timefmt::rfc3339_seconds(item.start_date@)->0,
                                crate::timefmt::rfc3339_seconds(item.end_date@)->0,
                            )
                            &&& final(db).events@ == crate::db::upsert_result_events(
                                old(db).events@,
                                old(db).next_event_id,
                                ev,
                                now,
                            )
                            &&& cnt == (if crate::db::upsert_was_new(old(db).events@, ev) {
                                1int
                            } else {
                                0int
                            })
                            &&& (match item.organizer {
                                Some(o) => oid matches Some(ro) && crate::db::contact_upsert_post(
                                    old(db).contacts@,
                                    old(db).next_contact_id,
                                    final(db).contacts@,
                                    final(db).next_contact_id,
                                    ro,
                                    o@,
                                    (match item.organizer_email {
                                        Some(e) => Some(e@),
                                        None => None,
                                    }),
                                    now,
                                ),
                                None => oid is None && final(db).contacts == old(db).contacts,
                            })
                        }
                },
                Err(e) => {
                    &&& e == crate::CoreError::ParseError
                    &&& *final(db) == *old(db)
                    &&& final(self).item_errors == old(self).item_errors + 1
                    &&& final(self).source_new == old(self).source_new
                    &&& final(self).source_updated == old(self).source_updated
                },
            },
    {
        match crate::sync::sync_single_event(db, item, now) {
            Ok(cnt) => {
                if cnt == 1 {
                    self.source_new = self.source_new + 1;
                } else {
                    self.source_updated = self.source_updated + 1;
                }
                Ok(cnt)
            },
            Err(e) => {
                self.item_errors = self.item_errors + 1;
                Err(e)
            },
        }
    }

    /// Ingests one version-control activity inside its phase.
    pub fn ingest_git_item(
        &mut self,
        db: &mut Database,
        activity: &GitActivity,
        repo: &GitRepository,
        now: i64,
    ) -> (r: Result<usize, crate::CoreError>)
        requires
            old(self).phase == SyncPhase::SyncingVersionControl,
            old(self).begun,
            old(db).wf(),
            old(db).next_event_id < i64::MAX,
            old(self).source_new < usize::MAX,
            old(self).source_updated < usize::MAX,
            old(self).item_errors < usize::MAX,
        ensures
            final(db).wf(),
            final(self).phase == old(self).phase,
            final(self).begun,
            final(self).emitted == old(self).emitted,
            final(self).total_new == old(self).total_new,
            final(self).total_updated == old(self).total_updated,
            final(self).window_start == old(self).window_start,
            final(self).window_end == old(self).window_end,
            final(db).projects == old(db).projects,
            final(db).project_rules == old(db).project_rules,
            final(db).contacts == old(db).contacts,
            final(db).work_domains == old(db).work_domains,
            final(db).settings == old(db).settings,
            final(db).github_orgs == old(db).github_orgs,
            final(db).sync_metadata == old(db).sync_metadata,
            match r {
                Ok(cnt) => {
                    &&& (cnt == 1 ==> final(self).source_new == old(self).source_new + 1
                        && final(self).source_updated == old(self).source_updated)
                    &&& (cnt == 0 ==> final(self).source_updated == old(self).source_updated + 1
                        && final(self).source_new == old(self).source_new)
                    &&& final(self).item_errors == old(self).item_errors
                    &&& exists|ev: Event|
                        {
                            &&& #[trigger] crate::sync::git_event_shape(
                                ev,
                                *activity,
                                *repo,
                                crate::timefmt::rfc3339_seconds(activity.timestamp@)->0,
                            )
                            &&& final(db).events@ == crate::db::upsert_result_events(
                                old(db).events@,
                                old(db).next_event_id,
                                ev,
                                now,
                            )
                            &&& cnt == (if crate::db::upsert_was_new(old(db).events@, ev) {
                                1int
                            } else {
                                0int
                            })
                        }
                },
                Err(e) => {
                    &&& e == crate::CoreError::ParseError
                    &&& *final(db) == *old(db)
                    &&& final(self).item_errors == old(self).item_errors + 1
                    &&& final(self).source_new == old(self).source_new
                    &&& final(self).source_updated == old(self).source_updated
                },
            },
    {
        match crate::sync::sync_git_activity(db, activity, repo, now) {
            Ok(cnt) => {
                if cnt == 1 {
                    self.source_new = self.source_new + 1;
                } else {
                    self.source_updated = self.source_updated + 1;
                }
                Ok(cnt)
            },
            Err(e) => {
                self.item_errors = self.item_errors + 1;
                Err(e)
            },
        }
    }

    /// Ingests one browser visit inside its phase; a repository visit the
    /// hybrid filter excludes counts as neither new nor updated.
    pub fn ingest_browser_item(
        &mut self,
        db: &mut Database,
        visit: &BrowserVisit,
        discovered_repos: &Vec<String>,
        github_orgs: &Vec<String>,
        now: i64,
    ) -> (r: Result<usize, crate::CoreError>)
        requires
            old(self).phase == SyncPhase::SyncingBrowser,
            old(self).begun,
            old(db).wf(),
            old(db).next_event_id < i64::MAX,
            visit.visit_date >= 0,
            old(self).source_new < usize::MAX,
            old(self).source_updated < usize::MAX,
        ensures
            final(db).wf(),
            final(self).phase == old(self).phase,
            final(self).begun,
            final(self).emitted == old(self).emitted,
            final(self).total_new == old(self).total_new,
            final(self).total_updated == old(self).total_updated,
            final(self).item_errors == old(self).item_errors,
            final(self).window_start == old(self).window_start,
            final(self).window_end == old(self).window_end,
            final(db).projects == old(db).projects,
            final(db).project_rules == old(db).project_rules,
            final(db).contacts == old(db).contacts,
            final(db).work_domains == old(db).work_domains,
            final(db).settings == old(db).settings,
            final(db).github_orgs == old(db).github_orgs,
            final(db).sync_metadata == old(db).sync_metadata,
            match r {
                Ok(cnt) => {
                    &&& (if crate::sync::url_repo_spec(visit.url@) matches Some(rp)
                        && !crate::sync::repo_visit_included(
                        rp,
                        discovered_repos@,
                        github_orgs@,
                    ) {
                        cnt == 0 && final(db).events == old(db).events && final(self).source_new
                            == old(self).source_new && final(self).source_updated == old(
                            self,
                        ).source_updated
                    } else {
                        &&& (cnt == 1 ==> final(self).source_new == old(self).source_new + 1
                            && final(self).source_updated == old(self).source_updated)
                        &&& (cnt == 0 ==> final(self).source_updated == old(self).source_updated
                            + 1 && final(self).source_new == old(self).source_new)
                        &&& exists|ev: Event|
                            {
                                &&& #[trigger] crate::sync::browser_event_shape(ev, *visit)
                                &&& final(db).events@ == crate::db::upsert_result_events(
                                    old(db).events@,
                                    old(db).next_event_id,
                                    ev,
                                    now,
                                )
                                &&& cnt == (if crate::db::upsert_was_new(old(db).events@, ev) {
                                    1int
                                } else {
                                    0int
                                })
                            }
                    })
                },
                Err(_) => false,
            },
    {
        let skipped = crate::sync::repo_filter_excludes(
            visit.url.as_str(),
            discovered_repos,
            github_orgs,
        );
        match crate::sync::sync_browser_visit(db, visit, discovered_repos, github_orgs, now) {
            Ok(cnt) => {
                if !skipped {
                    if cnt == 1 {
                        self.source_new = self.source_new + 1;
                    } else {
                        self.source_updated = self.source_updated + 1;
                    }
                }
                Ok(cnt)
            },
            Err(e) => Err(e),
        }
    }

    /// Closes a source's phase: emits its completion notification with the
    /// phase's counts, folds them into the totals, and moves to the next
    /// phase.
    pub fn finish_source(&mut self, source: SyncSource)
        requires
            old(self).phase == phase_of_source(source),
            old(self).begun,
            old(self).total_new + old(self).source_new <= usize::MAX,
            old(self).total_updated + old(self).source_updated <= usize::MAX,
        ensures
            final(self).phase == next_phase_of(source),
            !final(self).begun,
            final(self).total_new == old(self).total_new + old(self).source_new,
            final(self).total_updated == old(self).total_updated + old(self).source_updated,
            final(self).window_start == old(self).window_start,
            final(self).window_end == old(self).window_end,
            final(self).emitted@.len() == old(self).emitted@.len() + 1,
            forall|j: int|
                0 <= j < old(self).emitted@.len() ==> final(self).emitted@[j] == old(
                    self,
                ).emitted@[j],
            (final(self).emitted@.last() matches SyncEvent::SourceCompleted {
                source: s,
                new_events,
                updated_events,
            } && s == source && new_events == old(self).source_new && updated_events == old(
                self,
            ).source_updated),
    {
        self.emitted.push(
            SyncEvent::SourceCompleted {
                source,
                new_events: self.source_new,
                updated_events: self.source_updated,
            },
        );
        self.total_new = self.total_new + self.source_new;
        self.total_updated = self.total_updated + self.source_updated;
        self.begun = false;
        self.phase = match source {
            SyncSource::Calendar => SyncPhase::SyncingVersionControl,
            SyncSource::Git => SyncPhase::SyncingBrowser,
            SyncSource::Browser => SyncPhase::UpdatingStatus,
        };
    }

    /// Isolates a failed source: emits a failed progress notification and a
    /// completion carrying zero counts, and moves on to the next phase
    /// regardless.
    pub fn fail_source(&mut self, source: SyncSource, error: String)
        requires
            old(self).phase == phase_of_source(source),
        ensures
            final(self).phase == next_phase_of(source),
            !final(self).begun,
            final(self).total_new == old(self).total_new,
            final(self).total_updated == old(self).total_updated,
            final(self).window_start == old(self).window_start,
            final(self).window_end == old(self).window_end,
            final(self).emitted@.len() == old(self).emitted@.len() + 2,
            forall|j: int|
                0 <= j < old(self).emitted@.len() ==> final(self).emitted@[j] == old(
                    self,
                ).emitted@[j],
            (final(self).emitted@[final(self).emitted@.len() - 2] matches SyncEvent::Progress {
                source: s,
                status,
                message: m,
            } && s == source && status == ProgressStatus::Failed && m@ == error@),
            (final(self).emitted@.last() matches SyncEvent::SourceCompleted {
                source: s,
                new_events,
                updated_events,
            } && s == source && new_events == 0 && updated_events == 0),
    {
        self.emitted.push(
            SyncEvent::Progress { source, status: ProgressStatus::Failed, message: error },
        );
        self.emitted.push(
            SyncEvent::SourceCompleted { source, new_events: 0, updated_events: 0 },
        );
        self.begun = false;
        self.phase = match source {
            SyncSource::Calendar => SyncPhase::SyncingVersionControl,
            SyncSource::Git => SyncPhase::SyncingBrowser,
            SyncSource::Browser => SyncPhase::UpdatingStatus,
        };
    }

    /// Honours the cancellation flag: emits the cancellation notification,
    /// clears the in-progress mark, keeps the last completion instant, and
    /// ends the pass without the final status update. No stored event is
    /// touched.
    pub fn cancel(&mut self, db: &mut Database, now: i64)
        requires
            is_syncing_phase(old(self).phase),
            old(db).wf(),
        ensures
            final(db).wf(),
            final(self).phase == SyncPhase::Cancelled,
            final(db).events == old(db).events,
            final(db).projects == old(db).projects,
            final(db).project_rules == old(db).project_rules,
            final(db).contacts == old(db).contacts,
            final(db).work_domains == old(db).work_domains,
            final(db).settings == old(db).settings,
            final(db).github_orgs == old(db).github_orgs,
            final(db).sync_metadata == Some(
                SyncStatus {
                    last_sync_time: last_sync_of(*old(db)),
                    sync_in_progress: false,
                    updated_at: now,
                },
            ),
            final(self).window_start == old(self).window_start,
            final(self).window_end == old(self).window_end,
            final(self).total_new == old(self).total_new,
            final(self).total_updated == old(self).total_updated,
            final(self).emitted@.len() == old(self).emitted@.len() + 1,
            forall|j: int|
                0 <= j < old(self).emitted@.len() ==> final(self).emitted@[j] == old(
                    self,
                ).emitted@[j],
            (final(self).emitted@.last() matches SyncEvent::Cancelled { timestamp } && timestamp@
                == crate::timefmt::rfc3339_of(now as int)),
    {
        db.update_sync_status(None, false, now);
        self.emitted.push(SyncEvent::Cancelled { timestamp: crate::timefmt::format_rfc3339(now) });
        self.phase = SyncPhase::Cancelled;
    }

    /// Ends a failed pass: emits the failure notification and clears the
    /// in-progress mark.
    pub fn fail(&mut self, db: &mut Database, source: Option<SyncSource>, error: String, now: i64)
        requires
            old(self).phase != SyncPhase::Idle,
            old(self).phase != SyncPhase::Cancelled,
            old(self).phase != SyncPhase::Failed,
            old(db).wf(),
        ensures
            final(db).wf(),
            final(self).phase == SyncPhase::Failed,
            final(db).events == old(db).events,
            final(db).projects == old(db).projects,
            final(db).project_rules == old(db).project_rules,
            final(db).contacts == old(db).contacts,
            final(db).work_domains == old(db).work_domains,
            final(db).settings == old(db).settings,
            final(db).github_orgs == old(db).github_orgs,
            final(db).sync_metadata == Some(
                SyncStatus {
                    last_sync_time: last_sync_of(*old(db)),
                    sync_in_progress: false,
                    updated_at: now,
                },
            ),
            final(self).emitted@.len() == old(self).emitted@.len() + 1,
            forall|j: int|
                0 <= j < old(self).emitted@.len() ==> final(self).emitted@[j] == old(
                    self,
                ).emitted@[j],
            (final(self).emitted@.last() matches SyncEvent::Failed { source: s, error: e } && s
                == source && e@ == error@),
    {
        db.update_sync_status(None, false, now);
        self.emitted.push(SyncEvent::Failed { source, error });
        self.phase = SyncPhase::Failed;
    }

    /// Ends a successful pass: records the completion instant, clears the
    /// in-progress mark, and emits the completion notification with the
    /// totals.
    pub fn complete(&mut self, db: &mut Database, now: i64, duration_ms: u128)
        requires
            old(self).phase == SyncPhase::UpdatingStatus,
            old(db).wf(),
        ensures
            final(db).wf(),
            final(self).phase == SyncPhase::Idle,
            final(db).events == old(db).events,
            final(db).projects == old(db).projects,
            final(db).project_rules == old(db).project_rules,
            final(db).contacts == old(db).contacts,
            final(db).work_domains == old(db).work_domains,
            final(db).settings == old(db).settings,
            final(db).github_orgs == old(db).github_orgs,
            final(db).sync_metadata == Some(
                SyncStatus { last_sync_time: Some(now), sync_in_progress: false, updated_at: now },
            ),
            final(self).total_new == old(self).total_new,
            final(self).total_updated == old(self).total_updated,
            final(self).emitted@.len() == old(self).emitted@.len() + 1,
            forall|j: int|
                0 <= j < old(self).emitted@.len() ==> final(self).emitted@[j] == old(
                    self,
                ).emitted@[j],
            (final(self).emitted@.last() matches SyncEvent::Completed {
                total_new,
                total_updated,
                duration_ms: d,
            } && total_new == old(self).total_new && total_updated == old(self).total_updated && d
                == duration_ms),
    {
        db.update_sync_status(Some(now), false, now);
        self.emitted.push(
            SyncEvent::Completed {
                total_new: self.total_new,
                total_updated: self.total_updated,
                duration_ms,
            },
        );
        self.phase = SyncPhase::Idle;
    }
}

/// Browser records can be ingested only inside an open browser phase.
pub open spec fn browser_ingest_enabled(m: SyncRun) -> bool {
    m.phase == SyncPhase::SyncingBrowser && m.begun
}

/// Law: a cancelled pass is terminal; in particular the browser phase can
/// never run after a cancellation between the version-control phase and
/// the browser phase, since no method leaves the cancelled phase.
pub proof fn lemma_cancelled_runs_no_browser(m: SyncRun)
    requires
        m.phase == SyncPhase::Cancelled,
    ensures
        !browser_ingest_enabled(m),
{
}

/// Law: the window rule. A pass with no recorded completion opens its
/// window 90 days before now; any later pass opens it at the last recorded
/// completion instant.
pub proof fn lemma_window_rule(last_sync: Option<i64>, now: i64)
    ensures
        last_sync is None ==> window_start_spec(last_sync, now) == now - 90 * 86400,
        last_sync matches Some(t) ==> window_start_spec(last_sync, now) == t,
{
}

} // verus!
