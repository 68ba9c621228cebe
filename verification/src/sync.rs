//! The normalizer: turns raw calendar, version-control and browser records
//! into the canonical event shape, computing stable keys and derived
//! fields, and hands them to the store's idempotent upsert.

use vstd::prelude::*;
use vstd::string::StrSliceExecFns;
use vstd::string::StringExecFns;
use vstd::string::StringSliceAdditionalSpecFns;

use crate::db::{
    BrowserHistoryEventData, CalendarEventData, Database, Event, EventPayload, EventType,
    GitEventData,
};
use crate::git::{GitActivity, GitActivityType, GitRepository};
use crate::text::{
    contains_char, contains_seq, contains_sub, find_char, find_sub, first_char_of, first_match_of,
    join_with, join_with_exec, lemma_first_char_unique, lemma_first_match_unique,
    push_char, split_char, split_char_exec, split_lines, split_lines_exec, str_eq, starts_with,
    trim_end, trim_end_spec, views_of,
};

verus! {

/// Each line with its trailing whitespace removed.
pub open spec fn trim_lines(ls: Seq<Seq<char>>) -> Seq<Seq<char>> {
    ls.map_values(|l: Seq<char>| trim_end_spec(l))
}

/// The lines kept after collapsing runs of blank lines to a single blank
/// line; `prev_blank` says whether the line before was blank.
pub open spec fn collapse_blanks_from(ls: Seq<Seq<char>>, prev_blank: bool) -> Seq<Seq<char>>
    decreases ls.len(),
{
    if ls.len() == 0 {
        Seq::empty()
    } else {
        let l = ls.first();
        let blank = l.len() == 0;
        if blank && prev_blank {
            collapse_blanks_from(ls.drop_first(), prev_blank)
        } else {
            seq![l] + collapse_blanks_from(ls.drop_first(), blank)
        }
    }
}

/// The lines with trailing blank lines removed.
pub open spec fn drop_trailing_blanks(ls: Seq<Seq<char>>) -> Seq<Seq<char>>
    decreases ls.len(),
{
    if ls.len() > 0 && ls.last().len() == 0 {
        drop_trailing_blanks(ls.drop_last())
    } else {
        ls
    }
}

/// The lines with leading blank lines removed.
pub open spec fn drop_leading_blanks(ls: Seq<Seq<char>>) -> Seq<Seq<char>>
    decreases ls.len(),
{
    if ls.len() > 0 && ls.first().len() == 0 {
        drop_leading_blanks(ls.drop_first())
    } else {
        ls
    }
}

/// Notes text after normalization: every line trimmed at its end, runs of
/// blank lines collapsed to one, and leading and trailing blank lines
/// removed.
pub open spec fn clean_notes_spec(s: Seq<char>) -> Seq<char> {
    join_with(
        drop_leading_blanks(
            drop_trailing_blanks(collapse_blanks_from(trim_lines(split_lines(s)), false)),
        ),
        '\n',
    )
}

/// Normalizes notes text; an all-blank result becomes absent.
pub fn clean_notes(notes: Option<String>) -> (r: Option<String>)
    ensures
        match r {
            Some(t) => notes matches Some(n) && t@ == clean_notes_spec(n@) && t@.len() > 0,
            None => match notes {
                Some(n) => clean_notes_spec(n@).len() == 0,
                None => true,
            },
        },
{
    let text = match notes {
        Some(t) => t,
        None => {
            return None;
        },
    };
    let raw_lines = split_lines_exec(text.as_str());
    let n = raw_lines.len();
    let mut trimmed: Vec<String> = Vec::new();
    let mut i: usize = 0;
    while i < n
        invariant
            n == raw_lines@.len(),
            i <= n,
            views_of(trimmed@) =~= trim_lines(views_of(raw_lines@)).subrange(0, i as int),
        decreases n - i,
    {
        let t = trim_end(raw_lines[i].as_str());
        let ghost tr0 = trimmed@;
        trimmed.push(String::from_str(t));
        proof {
            assert(views_of(trimmed@) =~= views_of(tr0).push(t@));
            assert(trim_lines(views_of(raw_lines@)).subrange(0, i + 1) =~= trim_lines(
                views_of(raw_lines@),
            ).subrange(0, i as int).push(trim_end_spec(raw_lines@[i as int]@)));
        }
        i += 1;
    }
    proof {
        assert(trim_lines(views_of(raw_lines@)).subrange(
            0,
            trim_lines(views_of(raw_lines@)).len() as int,
        ) =~= trim_lines(views_of(raw_lines@)));
    }
    let ghost tls = trim_lines(views_of(raw_lines@));
    let m = trimmed.len();
    let mut kept: Vec<String> = Vec::new();
    let mut prev_blank = false;
    let mut k: usize = 0;
    while k < m
        invariant
            m == trimmed@.len(),
            views_of(trimmed@) == tls,
            k <= m,
            collapse_blanks_from(tls, false) == views_of(kept@) + collapse_blanks_from(
                tls.subrange(k as int, m as int),
                prev_blank,
            ),
        decreases m - k,
    {
        let ghost sub = tls.subrange(k as int, m as int);
        proof {
            assert(sub.first() == tls[k as int]);
            assert(sub.drop_first() =~= tls.subrange(k + 1, m as int));
        }
        let line_blank = trimmed[k].as_str().unicode_len() == 0;
        if !(line_blank && prev_blank) {
            let ghost kept0 = kept@;
            kept.push(trimmed[k].clone());
            proof {
                assert(views_of(kept@) =~= views_of(kept0).push(tls[k as int]));
                assert(views_of(kept@) + collapse_blanks_from(
                    tls.subrange(k + 1, m as int),
                    line_blank,
                ) =~= views_of(kept0) + collapse_blanks_from(sub, prev_blank));
            }
            prev_blank = line_blank;
        }
        k += 1;
    }
    proof {
        assert(tls.subrange(m as int, m as int).len() == 0);
        assert(collapse_blanks_from(tls, false) =~= views_of(kept@));
    }
    let ghost collapsed = collapse_blanks_from(tls, false);
    loop
        invariant_except_break
            drop_trailing_blanks(collapsed) == drop_trailing_blanks(views_of(kept@)),
        ensures
            drop_trailing_blanks(collapsed) == views_of(kept@),
        decreases kept@.len(),
    {
        let le = kept.len();
        if le == 0 {
            proof {
                assert(views_of(kept@).len() == 0);
            }
            break;
        }
        if kept[le - 1].as_str().unicode_len() > 0 {
            proof {
                let kv = views_of(kept@);
                assert(kv.last() == kept@[le - 1]@);
                assert(drop_trailing_blanks(kv) == kv);
            }
            break;
        }
        let ghost kv = views_of(kept@);
        proof {
            assert(kv.last() == kept@[le - 1]@);
        }
        kept.pop();
        proof {
            assert(views_of(kept@) =~= kv.drop_last());
        }
    }
    let ghost after_trail = drop_trailing_blanks(collapsed);
    loop
        invariant_except_break
            drop_leading_blanks(after_trail) == drop_leading_blanks(views_of(kept@)),
        ensures
            drop_leading_blanks(after_trail) == views_of(kept@),
        decreases kept@.len(),
    {
        let le = kept.len();
        if le == 0 {
            proof {
                assert(views_of(kept@).len() == 0);
            }
            break;
        }
        if kept[0].as_str().unicode_len() > 0 {
            proof {
                let kv = views_of(kept@);
                assert(kv.first() == kept@[0]@);
                assert(drop_leading_blanks(kv) == kv);
            }
            break;
        }
        let ghost kv = views_of(kept@);
        proof {
            assert(kv.first() == kept@[0]@);
        }
        kept.remove(0);
        proof {
            assert(views_of(kept@) =~= kv.drop_first());
        }
    }
    let joined = join_with_exec(&kept, '\n');
    if joined.as_str().unicode_len() == 0 {
        None
    } else {
        Some(joined)
    }
}

/// The authority of a URL: the text between "://" and the next slash, the
/// rest of the text where no slash follows, or the whole text where no
/// scheme separator occurs.
pub open spec fn domain_spec(u: Seq<char>) -> Seq<char> {
    if contains_seq(u, "://"@) {
        let rest = u.subrange(first_match_of(u, "://"@) + 3, u.len() as int);
        if contains_char(rest, '/') {
            rest.subrange(0, first_char_of(rest, '/'))
        } else {
            rest
        }
    } else {
        u
    }
}

/// Extracts the authority of a URL.
pub fn extract_domain(url: &str) -> (r: String)
    ensures
        r@ == domain_spec(url@),
{
    let u_len = url.unicode_len();
    match find_sub(url, "://") {
        Some(pi) => {
            proof {
                lemma_first_match_unique(url@, "://"@, pi as int);
                reveal_strlit("://");
            }
            let rest = url.substring_char(pi + 3, u_len);
            let r_len = rest.unicode_len();
            match find_char(rest, '/') {
                Some(si) => {
                    proof {
                        lemma_first_char_unique(rest@, '/', si as int);
                    }
                    String::from_str(rest.substring_char(0, si))
                },
                None => String::from_str(rest),
            }
        },
        None => String::from_str(url),
    }
}

/// A path segment at which the canonical repository path ends: a reserved
/// site area, or an empty segment.
pub open spec fn is_reserved_segment(seg: Seq<char>) -> bool {
    ||| seg == "issues"@
    ||| seg == "pull"@
    ||| seg == "pulls"@
    ||| seg == "pull-requests"@
    ||| seg == "merge_requests"@
    ||| seg == "tree"@
    ||| seg == "blob"@
    ||| seg == "commit"@
    ||| seg == "commits"@
    ||| seg == "releases"@
    ||| seg == "actions"@
    ||| seg == "wiki"@
    ||| seg.len() == 0
}

/// The leading path segments before the first reserved one.
pub open spec fn repo_segments(segs: Seq<Seq<char>>) -> Seq<Seq<char>>
    decreases segs.len(),
{
    if segs.len() == 0 {
        Seq::empty()
    } else if is_reserved_segment(segs.first()) {
        Seq::empty()
    } else {
        seq![segs.first()] + repo_segments(segs.drop_first())
    }
}

/// The canonical repository path a code-hosting URL names: for URLs whose
/// authority names a known code host, the path segments before the first
/// reserved or empty segment, when at least two qualify.
pub open spec fn url_repo_spec(u: Seq<char>) -> Option<Seq<char>> {
    let d = domain_spec(u);
    if !(contains_seq(d, "github.com"@) || contains_seq(d, "gitlab.com"@) || contains_seq(
        d,
        "bitbucket.org"@,
    )) {
        None
    } else if contains_seq(u, "://"@) {
        let after = u.subrange(first_match_of(u, "://"@) + 3, u.len() as int);
        if contains_char(after, '/') {
            let path = after.subrange(first_char_of(after, '/') + 1, after.len() as int);
            let segs = split_char(path, '/');
            if segs.len() >= 2 {
                let rs = repo_segments(segs);
                if rs.len() >= 2 {
                    Some(join_with(rs, '/'))
                } else {
                    None
                }
            } else {
                None
            }
        } else {
            None
        }
    } else {
        None
    }
}

/// Is this path segment one of the reserved site areas, or empty?
fn is_reserved_segment_exec(seg: &str) -> (r: bool)
    ensures
        r == is_reserved_segment(seg@),
{
    seg.unicode_len() == 0 || str_eq(seg, "issues") || str_eq(seg, "pull") || str_eq(seg, "pulls")
        || str_eq(seg, "pull-requests") || str_eq(seg, "merge_requests") || str_eq(seg, "tree")
        || str_eq(seg, "blob") || str_eq(seg, "commit") || str_eq(seg, "commits") || str_eq(
        seg,
        "releases",
    ) || str_eq(seg, "actions") || str_eq(seg, "wiki")
}

/// Extracts the canonical repository path from a code-hosting URL.
pub fn extract_repository_path_from_url(url: &str) -> (r: Option<String>)
    ensures
        match r {
            Some(p) => url_repo_spec(url@) == Some(p@),
            None => url_repo_spec(url@) is None,
        },
{
    let domain = extract_domain(url);
    let on_host = contains_sub(domain.as_str(), "github.com") || contains_sub(
        domain.as_str(),
        "gitlab.com",
    ) || contains_sub(domain.as_str(), "bitbucket.org");
    if !on_host {
        return None;
    }
    let u_len = url.unicode_len();
    match find_sub(url, "://") {
        Some(pi) => {
            proof {
                lemma_first_match_unique(url@, "://"@, pi as int);
                reveal_strlit("://");
            }
            let after = url.substring_char(pi + 3, u_len);
            let a_len = after.unicode_len();
            match find_char(after, '/') {
                Some(si) => {
                    proof {
                        lemma_first_char_unique(after@, '/', si as int);
                    }
                    let path = after.substring_char(si + 1, a_len);
                    let segs = split_char_exec(path, '/');
                    let ghost segv = split_char(path@, '/');
                    if segs.len() < 2 {
                        return None;
                    }
                    let ns = segs.len();
                    let mut picked: Vec<String> = Vec::new();
                    proof {
                        assert(segv.subrange(0, ns as int) =~= segv);
                        assert(views_of(picked@) =~= Seq::<Seq<char>>::empty());
                        assert(repo_segments(segv) =~= views_of(picked@) + repo_segments(
                            segv.subrange(0, ns as int),
                        ));
                    }
                    let mut stopped = false;
                    let mut i: usize = 0;
                    while i < ns
                        invariant_except_break
                            ns == segs@.len(),
                            i <= ns,
                            !stopped,
                            views_of(segs@) == segv,
                            repo_segments(segv) == views_of(picked@) + repo_segments(
                                segv.subrange(i as int, ns as int),
                            ),
                        ensures
                            views_of(segs@) == segv,
                            views_of(picked@) == repo_segments(segv),
                        decreases ns - i,
                    {
                        let ghost sub = segv.subrange(i as int, ns as int);
                        proof {
                            assert(sub.first() == segv[i as int]);
                            assert(sub.drop_first() =~= segv.subrange(i + 1, ns as int));
                        }
                        if is_reserved_segment_exec(segs[i].as_str()) {
                            stopped = true;
                            proof {
                                assert(repo_segments(sub) =~= Seq::<Seq<char>>::empty());
                                assert(repo_segments(segv) =~= views_of(picked@));
                            }
                            break;
                        }
                        let ghost picked0 = picked@;
                        picked.push(segs[i].clone());
                        proof {
                            assert(views_of(picked@) =~= views_of(picked0).push(segv[i as int]));
                            assert(views_of(picked@) + repo_segments(
                                segv.subrange(i + 1, ns as int),
                            ) =~= views_of(picked0) + repo_segments(sub));
                        }
                        i += 1;
                    }
                    proof {
                        if !stopped {
                            assert(segv.subrange(ns as int, ns as int).len() == 0);
                            assert(repo_segments(segv) =~= views_of(picked@));
                        }
                    }
                    if picked.len() >= 2 {
                        Some(join_with_exec(&picked, '/'))
                    } else {
                        None
                    }
                },
                None => None,
            }
        },
        None => {
            proof {
                assert(!contains_seq(url@, "://"@));
            }
            None
        },
    }
}

/// A URL shortened for display: over 80 characters it is cut at 77 and
/// marked with an ellipsis.
pub open spec fn truncate_url_spec(u: Seq<char>) -> Seq<char> {
    if u.len() > 80 {
        u.subrange(0, 77) + "..."@
    } else {
        u
    }
}

/// Shortens a URL for display.
pub fn truncate_url(url: &str) -> (r: String)
    ensures
        r@ == truncate_url_spec(url@),
{
    let u_len = url.unicode_len();
    if u_len > 80 {
        String::from_str(url.substring_char(0, 77)).concat("...")
    } else {
        String::from_str(url)
    }
}

/// The FNV-1a running hash of a byte sequence.
pub open spec fn fnv1a(bytes: Seq<u8>, acc: u64) -> u64
    decreases bytes.len(),
{
    if bytes.len() == 0 {
        acc
    } else {
        fnv1a(
            bytes.drop_first(),
            ((((acc ^ (bytes.first() as u64)) as int) * 0x100000001b3) % 0x10000000000000000) as u64,
        )
    }
}

/// Computes the FNV-1a hash of the bytes, from the standard offset basis.
fn fnv1a_exec(bytes: &[u8]) -> (r: u64)
    ensures
        r == fnv1a(bytes@, 0xcbf29ce484222325u64),
{
    let n = bytes.len();
    let mut acc: u64 = 0xcbf29ce484222325;
    let mut i: usize = 0;
    proof {
        assert(bytes@.skip(0) =~= bytes@);
    }
    while i < n
        invariant
            n == bytes@.len(),
            i <= n,
            fnv1a(bytes@, 0xcbf29ce484222325u64) == fnv1a(bytes@.skip(i as int), acc),
        decreases n - i,
    {
        let ghost sub = bytes@.skip(i as int);
        proof {
            assert(sub.first() == bytes@[i as int]);
            assert(sub.drop_first() =~= bytes@.skip(i + 1));
        }
        let b = bytes[i];
        let x = acc ^ (b as u64);
        acc = x.wrapping_mul(0x100000001b3);
        i += 1;
    }
    acc
}

/// One lowercase hex digit.
pub open spec fn hex_digit(d: int) -> char {
    if d < 10 {
        ((d + 48) as u8) as char
    } else {
        ((d + 87) as u8) as char
    }
}

/// The lowercase hex rendering of a number, without leading zeros.
pub open spec fn hex_of(n: nat) -> Seq<char>
    decreases n,
{
    if n < 16 {
        seq![hex_digit(n as int)]
    } else {
        hex_of(n / 16) + seq![hex_digit((n % 16) as int)]
    }
}

/// Appends the lowercase hex rendering of `n`.
fn hex_push(n: u64, out: &mut String)
    ensures
        final(out)@ == old(out)@ + hex_of(n as nat),
    decreases n,
{
    if n >= 16 {
        hex_push(n / 16, out);
    }
    let d = (n % 16) as u8;
    let c = if d < 10 {
        (d + 48) as char
    } else {
        (d + 87) as char
    };
    push_char(out, c);
}

/// The stable key of one browser visit: a deterministic hash of the URL's
/// bytes folded with the visit instant, rendered in hex under a "browser-"
/// prefix.
pub open spec fn visit_key_spec(url: Seq<char>, visit_date: i64) -> Seq<char> {
    "browser-"@ + hex_of(
        (fnv1a(vstd::utf8::encode_utf8(url), 0xcbf29ce484222325u64) ^ (visit_date as u64)) as nat,
    )
}

/// Computes the stable key of one browser visit.
pub fn browser_visit_key(url: &str, visit_date: i64) -> (r: String)
    requires
        visit_date >= 0,
    ensures
        r@ == visit_key_spec(url@, visit_date),
{
    let h = fnv1a_exec(url.as_bytes());
    let key = h ^ (visit_date as u64);
    let mut out = String::from_str("browser-");
    hex_push(key, &mut out);
    out
}

/// What an encoded title looks like in a calendar deep link.
pub uninterp spec fn url_encoded(s: Seq<char>) -> Seq<char>;

/// Relies on urlencoding::encode: percent-encodes every byte except
/// alphanumerics and `-`, `_`, `.`, `~`; the result depends on the text
/// alone.
#[verifier::external_body]
fn url_encode(s: &str) -> (r: String)
    ensures
        r@ == url_encoded(s@),
{
    urlencoding::encode(s).into_owned()
}

/// The stored name of an activity kind.
pub open spec fn activity_name_spec(t: GitActivityType) -> Seq<char> {
    match t {
        GitActivityType::Commit => "commit"@,
        GitActivityType::Checkout => "checkout"@,
        GitActivityType::Merge => "merge"@,
        GitActivityType::Rebase => "rebase"@,
        GitActivityType::Pull => "pull"@,
        GitActivityType::Push => "push"@,
        GitActivityType::Stash => "stash"@,
        GitActivityType::Reset => "reset"@,
        GitActivityType::CherryPick => "cherrypick"@,
    }
}

/// Renders the stored name of an activity kind.
fn activity_name(t: &GitActivityType) -> (r: String)
    ensures
        r@ == activity_name_spec(*t),
{
    match t {
        GitActivityType::Commit => String::from_str("commit"),
        GitActivityType::Checkout => String::from_str("checkout"),
        GitActivityType::Merge => String::from_str("merge"),
        GitActivityType::Rebase => String::from_str("rebase"),
        GitActivityType::Pull => String::from_str("pull"),
        GitActivityType::Push => String::from_str("push"),
        GitActivityType::Stash => String::from_str("stash"),
        GitActivityType::Reset => String::from_str("reset"),
        GitActivityType::CherryPick => String::from_str("cherrypick"),
    }
}

/// The title of a version-control event is the activity's rendered
/// message.
pub fn format_git_event_title(activity: &GitActivity) -> (r: String)
    ensures
        r@ == activity.message@,
{
    activity.message.clone()
}

/// The canonical event a calendar record normalizes to.
pub open spec fn calendar_event_shape(
    ev: Event,
    c: crate::calendar::CalendarEvent,
    organizer_id: Option<i64>,
    st: int,
    en: int,
) -> bool {
    &&& ev.id is None
    &&& ev.event_type == EventType::Calendar
    &&& ev.title@ == c.title@
    &&& ev.start_date == st
    &&& ev.end_date == en
    &&& crate::db::opt_text(ev.external_id) == Some(c.event_id@)
    &&& crate::db::opt_text(ev.external_link) == Some(
        "x-apple-calendar://event?title="@ + url_encoded(c.title@),
    )
    &&& (ev.type_specific_data matches Some(EventPayload::Calendar(d)) && {
        &&& crate::db::opt_text(d.location) == crate::db::opt_text(c.location)
        &&& (match d.notes {
            Some(t) => c.notes matches Some(nn) && t@ == clean_notes_spec(nn@) && t@.len() > 0,
            None => (match c.notes {
                Some(nn) => clean_notes_spec(nn@).len() == 0,
                None => true,
            }),
        })
        &&& d.is_all_day == c.is_all_day
        &&& crate::db::opt_text(d.organizer) == crate::db::opt_text(c.organizer)
        &&& (match d.attendees {
            Some(v) => c.attendees@.len() > 0 && v@.map_values(|x: String| x@)
                == c.attendees@.map_values(|x: String| x@),
            None => c.attendees@.len() == 0,
        })
    })
    &&& ev.project_id is None
    &&& ev.organizer_id == organizer_id
    &&& ev.repository_path is None
    &&& ev.domain is None
    &&& ev.created_at == 0
    &&& ev.updated_at == 0
}

/// Normalizes and stores one calendar record: a named organizer becomes a
/// contact, the record's native identifier is the stable key, and the
/// result counts 1 for a fresh row. Records whose timestamps do not parse
/// are rejected and leave the store unchanged.
pub fn sync_single_event(
    db: &mut Database,
    cal_event: &crate::calendar::CalendarEvent,
    now: i64,
) -> (r: Result<usize, crate::CoreError>)
    requires
        old(db).wf(),
        old(db).next_event_id < i64::MAX,
        old(db).next_contact_id < i64::MAX,
    ensures
        final(db).wf(),
        final(db).projects == old(db).projects,
        final(db).project_rules == old(db).project_rules,
        final(db).work_domains == old(db).work_domains,
        final(db).settings == old(db).settings,
        final(db).github_orgs == old(db).github_orgs,
        final(db).sync_metadata == old(db).sync_metadata,
        match r {
            Ok(cnt) => {
                &&& crate::timefmt::rfc3339_seconds(cal_event.start_date@) is Some
                &&& crate::timefmt::rfc3339_seconds(cal_event.end_date@) is Some
                &&& (cal_event.organizer is None ==> final(db).contacts == old(db).contacts
                    && final(db).next_contact_id == old(db).next_contact_id)
                &&& exists|ev: Event, oid: Option<i64>|
                    {
                        &&& #[trigger] calendar_event_shape(
                            ev,
                            *cal_event,
                            oid,
                            crate::timefmt::rfc3339_seconds(cal_event.start_date@)->0,
                            crate::timefmt::rfc3339_seconds(cal_event.end_date@)->0,
                        )
                        &&& final(db).events@ == crate::db::upsert_result_events(
                            old(db).events@,
                            old(db).next_event_id,
                            ev,
                            now,
                        )
                        &&& cnt == (if crate::db::upsert_was_new(old(db).events@, ev) {
                            1int
                        } else {
                            0int
                        })
                        &&& (match cal_event.organizer {
                            Some(o) => oid matches Some(ro) && crate::db::contact_upsert_post(
                                old(db).contacts@,
                                old(db).next_contact_id,
                                final(db).contacts@,
                                final(db).next_contact_id,
                                ro,
                                o@,
                                (match cal_event.organizer_email {
                                    Some(e) => Some(e@),
                                    None => None,
                                }),
                                now,
                            ),
                            None => oid is None,
                        })
                    }
            },
            Err(e) => {
                &&& e == crate::CoreError::ParseError
                &&& (crate::timefmt::rfc3339_seconds(cal_event.start_date@) is None
                    || crate::timefmt::rfc3339_seconds(cal_event.end_date@) is None)
                &&& *final(db) == *old(db)
            },
        },
{
    let start_timestamp = match crate::timefmt::parse_rfc3339(cal_event.start_date.as_str()) {
        Some(t) => t,
        None => {
            return Err(crate::CoreError::ParseError);
        },
    };
    let end_timestamp = match crate::timefmt::parse_rfc3339(cal_event.end_date.as_str()) {
        Some(t) => t,
        None => {
            return Err(crate::CoreError::ParseError);
        },
    };
    let organizer_id = match &cal_event.organizer {
        Some(o) => {
            let email = match &cal_event.organizer_email {
                Some(e) => Some(e.as_str()),
                None => None,
            };
            Some(db.upsert_contact(o.as_str(), email, now))
        },
        None => None,
    };
    let external_link = String::from_str("x-apple-calendar://event?title=").concat(
        url_encode(cal_event.title.as_str()).as_str(),
    );
    let attendees = if cal_event.attendees.len() == 0 {
        None
    } else {
        Some(crate::db::copy_string_list(&cal_event.attendees))
    };
    let payload = CalendarEventData {
        location: match &cal_event.location {
            Some(l) => Some(l.clone()),
            None => None,
        },
        notes: clean_notes(
            match &cal_event.notes {
                Some(t) => Some(t.clone()),
                None => None,
            },
        ),
        is_all_day: cal_event.is_all_day,
        organizer: match &cal_event.organizer {
            Some(o) => Some(o.clone()),
            None => None,
        },
        attendees,
    };
    let event = Event {
        id: None,
        event_type: EventType::Calendar,
        title: cal_event.title.clone(),
        start_date: start_timestamp,
        end_date: end_timestamp,
        external_id: Some(cal_event.event_id.clone()),
        external_link: Some(external_link),
        type_specific_data: Some(EventPayload::Calendar(payload)),
        project_id: None,
        organizer_id,
        repository_path: None,
        domain: None,
        created_at: 0,
        updated_at: 0,
    };
    let ghost ev_g = event;
    let (_event_id, was_new) = db.upsert_event(event, now);
    proof {
        assert(calendar_event_shape(
            ev_g,
            *cal_event,
            organizer_id,
            crate::timefmt::rfc3339_seconds(cal_event.start_date@)->0,
            crate::timefmt::rfc3339_seconds(cal_event.end_date@)->0,
        ));
    }
    Ok(if was_new {
        1
    } else {
        0
    })
}

/// The canonical event a version-control activity normalizes to.
pub open spec fn git_event_shape(
    ev: Event,
    a: GitActivity,
    repo: GitRepository,
    ts: int,
) -> bool {
    &&& ev.id is None
    &&& ev.event_type == EventType::Git
    &&& ev.title@ == a.message@
    &&& ev.start_date == ts
    &&& ev.end_date == ts
    &&& crate::db::opt_text(ev.external_id) == Some(a.repository_id@ + ":"@ + a.timestamp@)
    &&& ev.external_link is None
    &&& (ev.type_specific_data matches Some(EventPayload::Git(d)) && {
        &&& d.repository_id@ == a.repository_id@
        &&& d.repository_name@ == a.repository_name@
        &&& d.activity_type@ == activity_name_spec(a.activity_type)
        &&& crate::db::opt_text(d.ref_name) == crate::db::opt_text(a.ref_name)
        &&& crate::db::opt_text(d.commit_hash) == crate::db::opt_text(a.commit_hash)
        &&& crate::db::opt_text(d.repository_path) == crate::db::opt_text(repo.repository_path)
        &&& crate::db::opt_text(d.origin_url) == crate::db::opt_text(repo.origin_url)
    })
    &&& ev.project_id is None
    &&& ev.organizer_id is None
    &&& crate::db::opt_text(ev.repository_path) == crate::db::opt_text(repo.repository_path)
    &&& ev.domain is None
    &&& ev.created_at == 0
    &&& ev.updated_at == 0
}

/// Normalizes and stores one version-control activity: the stable key is
/// the repository id joined with the activity instant, and the event is a
/// point in time. Activities whose timestamps do not parse are rejected
/// and leave the store unchanged.
pub fn sync_git_activity(
    db: &mut Database,
    git_activity: &GitActivity,
    repo_info: &GitRepository,
    now: i64,
) -> (r: Result<usize, crate::CoreError>)
    requires
        old(db).wf(),
        old(db).next_event_id < i64::MAX,
    ensures
        final(db).wf(),
        final(db).projects == old(db).projects,
        final(db).project_rules == old(db).project_rules,
        final(db).contacts == old(db).contacts,
        final(db).work_domains == old(db).work_domains,
        final(db).settings == old(db).settings,
        final(db).github_orgs == old(db).github_orgs,
        final(db).sync_metadata == old(db).sync_metadata,
        match r {
            Ok(cnt) => {
                &&& crate::timefmt::rfc3339_seconds(git_activity.timestamp@) is Some
                &&& exists|ev: Event|
                    {
                        &&& #[trigger] git_event_shape(
                            ev,
                            *git_activity,
                            *repo_info,
                            crate::timefmt::rfc3339_seconds(git_activity.timestamp@)->0,
                        )
                        &&& final(db).events@ == crate::db::upsert_result_events(
                            old(db).events@,
                            old(db).next_event_id,
                            ev,
                            now,
                        )
                        &&& cnt == (if crate::db::upsert_was_new(old(db).events@, ev) {
                            1int
                        } else {
                            0int
                        })
                    }
            },
            Err(e) => {
                &&& e == crate::CoreError::ParseError
                &&& crate::timefmt::rfc3339_seconds(git_activity.timestamp@) is None
                &&& *final(db) == *old(db)
            },
        },
{
    let timestamp = match crate::timefmt::parse_rfc3339(git_activity.timestamp.as_str()) {
        Some(t) => t,
        None => {
            return Err(crate::CoreError::ParseError);
        },
    };
    let external_id = git_activity.repository_id.clone().concat(":").concat(
        git_activity.timestamp.as_str(),
    );
    let payload = GitEventData {
        repository_id: git_activity.repository_id.clone(),
        repository_name: git_activity.repository_name.clone(),
        activity_type: activity_name(&git_activity.activity_type),
        ref_name: match &git_activity.ref_name {
            Some(x) => Some(x.clone()),
            None => None,
        },
        commit_hash: match &git_activity.commit_hash {
            Some(x) => Some(x.clone()),
            None => None,
        },
        repository_path: match &repo_info.repository_path {
            Some(x) => Some(x.clone()),
            None => None,
        },
        origin_url: match &repo_info.origin_url {
            Some(x) => Some(x.clone()),
            None => None,
        },
    };
    let title = format_git_event_title(git_activity);
    let event = Event {
        id: None,
        event_type: EventType::Git,
        title,
        start_date: timestamp,
        end_date: timestamp,
        external_id: Some(external_id),
        external_link: None,
        type_specific_data: Some(EventPayload::Git(payload)),
        project_id: None,
        organizer_id: None,
        repository_path: match &repo_info.repository_path {
            Some(x) => Some(x.clone()),
            None => None,
        },
        domain: None,
        created_at: 0,
        updated_at: 0,
    };
    let ghost ev_g = event;
    let (_event_id, was_new) = db.upsert_event(event, now);
    proof {
        assert(git_event_shape(
            ev_g,
            *git_activity,
            *repo_info,
            crate::timefmt::rfc3339_seconds(git_activity.timestamp@)->0,
        ));
    }
    Ok(if was_new {
        1
    } else {
        0
    })
}

/// The canonical event a browser visit normalizes to.
pub open spec fn browser_event_shape(ev: Event, v: crate::browser::BrowserVisit) -> bool {
    &&& ev.id is None
    &&& ev.event_type == EventType::BrowserHistory
    &&& ev.title@ == (match v.title {
        Some(t) => t@,
        None => truncate_url_spec(v.url@),
    })
    &&& ev.start_date == v.visit_date / 1000000
    &&& ev.end_date == ev.start_date
    &&& crate::db::opt_text(ev.external_id) == Some(visit_key_spec(v.url@, v.visit_date))
    &&& crate::db::opt_text(ev.external_link) == Some(v.url@)
    &&& (ev.type_specific_data matches Some(EventPayload::Browser(d)) && {
        &&& d.url@ == v.url@
        &&& d.domain@ == domain_spec(v.url@)
        &&& crate::db::opt_text(d.page_title) == crate::db::opt_text(v.title)
        &&& d.visit_count == v.visit_count
        &&& crate::db::opt_text(d.repository_path) == url_repo_spec(v.url@)
    })
    &&& ev.project_id is None
    &&& ev.organizer_id is None
    &&& crate::db::opt_text(ev.repository_path) == url_repo_spec(v.url@)
    &&& crate::db::opt_text(ev.domain) == Some(domain_spec(v.url@))
    &&& ev.created_at == 0
    &&& ev.updated_at == 0
}

/// A repository visit passes the hybrid filter: its canonical path is one
/// of the discovered repositories, or lies under a configured
/// organization.
pub open spec fn repo_visit_included(
    rp: Seq<char>,
    discovered: Seq<String>,
    orgs: Seq<String>,
) -> bool {
    ||| exists|i: int| 0 <= i < discovered.len() && (#[trigger] discovered[i])@ == rp
    ||| exists|i: int|
        0 <= i < orgs.len() && crate::text::is_prefix_of((#[trigger] orgs[i])@ + "/"@, rp)
}

/// Does the hybrid filter exclude this URL: a repository visit whose
/// canonical path matches neither a discovered repository nor a configured
/// organization? URLs naming no repository are never excluded here.
pub fn repo_filter_excludes(
    url: &str,
    discovered_repos: &Vec<String>,
    github_orgs: &Vec<String>,
) -> (r: bool)
    ensures
        r == (match url_repo_spec(url@) {
            Some(rp) => !repo_visit_included(rp, discovered_repos@, github_orgs@),
            None => false,
        }),
{
    let repository_path = extract_repository_path_from_url(url);
    match &repository_path {
        Some(path) => {
            let mut found = false;
            let nd = discovered_repos.len();
            let mut i: usize = 0;
            while i < nd
                invariant_except_break
                    nd == discovered_repos@.len(),
                    i <= nd,
                    !found,
                    forall|j: int| 0 <= j < i ==> (#[trigger] discovered_repos@[j])@ != path@,
                ensures
                    found == exists|j: int|
                        0 <= j < discovered_repos@.len() && (#[trigger] discovered_repos@[j])@
                            == path@,
                decreases nd - i,
            {
                if str_eq(discovered_repos[i].as_str(), path.as_str()) {
                    found = true;
                    proof {
                        assert((discovered_repos@[i as int])@ == path@);
                    }
                    break;
                }
                i += 1;
            }
            if !found {
                let no = github_orgs.len();
                let mut k: usize = 0;
                while k < no
                    invariant_except_break
                        no == github_orgs@.len(),
                        k <= no,
                        !found,
                        forall|j: int|
                            0 <= j < k ==> !crate::text::is_prefix_of(
                                (#[trigger] github_orgs@[j])@ + "/"@,
                                path@,
                            ),
                    ensures
                        found == exists|j: int|
                            0 <= j < github_orgs@.len() && crate::text::is_prefix_of(
                                (#[trigger] github_orgs@[j])@ + "/"@,
                                path@,
                            ),
                    decreases no - k,
                {
                    let org_slash = github_orgs[k].clone().concat("/");
                    if starts_with(path.as_str(), org_slash.as_str()) {
                        found = true;
                        proof {
                            assert(crate::text::is_prefix_of(
                                (github_orgs@[k as int])@ + "/"@,
                                path@,
                            ));
                        }
                        break;
                    }
                    k += 1;
                }
            }
            !found
        },
        None => false,
    }
}

/// Normalizes and stores one browser visit: the URL's authority and, for
/// code-hosting URLs, the canonical repository path become stored fields;
/// a repository visit matching neither the discovered repositories nor the
/// configured organizations is skipped with a count of zero.
pub fn sync_browser_visit(
    db: &mut Database,
    visit: &crate::browser::BrowserVisit,
    discovered_repos: &Vec<String>,
    github_orgs: &Vec<String>,
    now: i64,
) -> (r: Result<usize, crate::CoreError>)
    requires
        old(db).wf(),
        old(db).next_event_id < i64::MAX,
        visit.visit_date >= 0,
    ensures
        final(db).wf(),
        final(db).projects == old(db).projects,
        final(db).project_rules == old(db).project_rules,
        final(db).contacts == old(db).contacts,
        final(db).work_domains == old(db).work_domains,
        final(db).settings == old(db).settings,
        final(db).github_orgs == old(db).github_orgs,
        final(db).sync_metadata == old(db).sync_metadata,
        match r {
            Ok(cnt) => {
                if url_repo_spec(visit.url@) matches Some(rp) && !repo_visit_included(
                    rp,
                    discovered_repos@,
                    github_orgs@,
                ) {
                    cnt == 0 && *final(db) == *old(db)
                } else {
                    exists|ev: Event|
                        {
                            &&& #[trigger] browser_event_shape(ev, *visit)
                            &&& final(db).events@ == crate::db::upsert_result_events(
                                old(db).events@,
                                old(db).next_event_id,
                                ev,
                                now,
                            )
                            &&& cnt == (if crate::db::upsert_was_new(old(db).events@, ev) {
                                1int
                            } else {
                                0int
                            })
                        }
                }
            },
            Err(_) => false,
        },
{
    let domain = extract_domain(visit.url.as_str());
    let repository_path = extract_repository_path_from_url(visit.url.as_str());
    if repo_filter_excludes(visit.url.as_str(), discovered_repos, github_orgs) {
        return Ok(0);
    }
    let external_id = browser_visit_key(visit.url.as_str(), visit.visit_date);
    let timestamp = visit.visit_date / 1000000;
    let title = match &visit.title {
        Some(t) => t.clone(),
        None => truncate_url(visit.url.as_str()),
    };
    let payload = BrowserHistoryEventData {
        url: visit.url.clone(),
        domain: domain.clone(),
        page_title: match &visit.title {
            Some(t) => Some(t.clone()),
            None => None,
        },
        visit_count: visit.visit_count,
        repository_path: match &repository_path {
            Some(p) => Some(p.clone()),
            None => None,
        },
    };
    let event = Event {
        id: None,
        event_type: EventType::BrowserHistory,
        title,
        start_date: timestamp,
        end_date: timestamp,
        external_id: Some(external_id),
        external_link: Some(visit.url.clone()),
        type_specific_data: Some(EventPayload::Browser(payload)),
        project_id: None,
        organizer_id: None,
        repository_path,
        domain: Some(domain),
        created_at: 0,
        updated_at: 0,
    };
    let ghost ev_g = event;
    let (_event_id, was_new) = db.upsert_event(event, now);
    proof {
        assert(browser_event_shape(ev_g, *visit));
    }
    Ok(if was_new {
        1
    } else {
        0
    })
}

} // verus!
