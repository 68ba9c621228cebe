//! Calendar source adapter: the raw record shape the host calendar hands
//! over, and the authorization states its permission system reports.

use vstd::prelude::*;

verus! {

/// One raw calendar record: one event overlapping the queried window.
#[derive(Debug, Clone)]
pub struct CalendarEvent {
    pub event_id: String,
    pub title: String,
    pub start_date: String,
    pub end_date: String,
    pub location: Option<String>,
    pub notes: Option<String>,
    pub is_all_day: bool,
    pub attendees: Vec<String>,
    pub organizer: Option<String>,
    pub organizer_email: Option<String>,
}

/// The host system's answer on calendar authorization.
#[derive(Debug, Clone, Copy, PartialEq, Eq, Structural)]
pub enum CalendarPermissionStatus {
    FullAccess,
    Denied,
    Restricted,
    NotDetermined,
}

/// Maps the host's raw authorization code to a permission status: full
/// access, denied and restricted each have their code, and anything else
/// counts as not yet determined.
pub fn permission_status_from_code(code: i32) -> (r: CalendarPermissionStatus)
    ensures
        r == (if code == 3 {
            CalendarPermissionStatus::FullAccess
        } else if code == 2 {
            CalendarPermissionStatus::Denied
        } else if code == 1 {
            CalendarPermissionStatus::Restricted
        } else {
            CalendarPermissionStatus::NotDetermined
        }),
{
    if code == 3 {
        CalendarPermissionStatus::FullAccess
    } else if code == 2 {
        CalendarPermissionStatus::Denied
    } else if code == 1 {
        CalendarPermissionStatus::Restricted
    } else {
        CalendarPermissionStatus::NotDetermined
    }
}

/// Where no host calendar integration is present, the grant is simply not
/// yet determined.
pub fn check_calendar_permission() -> (r: CalendarPermissionStatus)
    ensures
        r == CalendarPermissionStatus::NotDetermined,
{
    CalendarPermissionStatus::NotDetermined
}

} // verus!
