//! Version-control source adapter: classifying reference-log entries,
//! deriving canonical repository paths from remote URLs, and turning raw
//! reference-log records into activity records.

use vstd::prelude::*;
use vstd::string::StrSliceExecFns;
use vstd::string::StringExecFns;

use crate::text::{
    contains_char, contains_seq, contains_sub, count_char, count_char_exec, ends_with, find_char,
    find_sub, first_char_of, first_match_of, is_prefix_of, is_suffix_of,
    lemma_count_char_zero_absent, lemma_first_char_unique, lemma_first_match_unique, matches_at,
    second_token, second_token_spec, starts_with, str_eq, strip_suffix_all, strip_suffix_all_exec,
};

verus! {

/// A discovered local repository, identified by a stable id and, when a
/// remote origin is known, by its canonical "org/repo" path.
#[derive(Debug, Clone)]
pub struct GitRepository {
    pub repository_id: String,
    pub repository_name: String,
    pub local_path: String,
    pub repository_path: Option<String>,
    pub origin_url: Option<String>,
}

/// One activity mined from a reference log.
#[derive(Debug, Clone)]
pub struct GitActivity {
    pub repository_id: String,
    pub repository_name: String,
    pub activity_type: GitActivityType,
    pub timestamp: String,
    pub ref_name: Option<String>,
    pub commit_hash: Option<String>,
    pub message: String,
}

#[derive(Debug, Clone, Copy, PartialEq, Eq, Structural)]
pub enum GitActivityType {
    Commit,
    Checkout,
    Merge,
    Rebase,
    Pull,
    Push,
    Stash,
    Reset,
    CherryPick,
}

/// The activity kind a reference-log message denotes, by its prefix;
/// messages that speak of a stash anywhere count as stash activity.
pub open spec fn classify_reflog(m: Seq<char>) -> Option<GitActivityType> {
    if is_prefix_of("commit"@, m) {
        Some(GitActivityType::Commit)
    } else if is_prefix_of("checkout"@, m) {
        Some(GitActivityType::Checkout)
    } else if is_prefix_of("merge"@, m) {
        Some(GitActivityType::Merge)
    } else if is_prefix_of("rebase"@, m) {
        Some(GitActivityType::Rebase)
    } else if is_prefix_of("pull"@, m) {
        Some(GitActivityType::Pull)
    } else if is_prefix_of("reset"@, m) {
        Some(GitActivityType::Reset)
    } else if is_prefix_of("cherry-pick"@, m) {
        Some(GitActivityType::CherryPick)
    } else if contains_seq(m, "stash"@) {
        Some(GitActivityType::Stash)
    } else {
        None
    }
}

impl GitActivityType {
    /// Classifies a reference-log message by its leading keyword.
    pub fn from_reflog_message(message: &str) -> (r: Option<GitActivityType>)
        ensures
            r == classify_reflog(message@),
    {
        if starts_with(message, "commit") {
            Some(GitActivityType::Commit)
        } else if starts_with(message, "checkout") {
            Some(GitActivityType::Checkout)
        } else if starts_with(message, "merge") {
            Some(GitActivityType::Merge)
        } else if starts_with(message, "rebase") {
            Some(GitActivityType::Rebase)
        } else if starts_with(message, "pull") {
            Some(GitActivityType::Pull)
        } else if starts_with(message, "reset") {
            Some(GitActivityType::Reset)
        } else if starts_with(message, "cherry-pick") {
            Some(GitActivityType::CherryPick)
        } else if contains_sub(message, "stash") {
            Some(GitActivityType::Stash)
        } else {
            None
        }
    }
}

/// A reference name matches a pattern with exactly one `*` when the text
/// before the star is a prefix and the text after it a suffix of the name;
/// any other pattern matches only itself.
pub open spec fn matches_pattern_spec(name: Seq<char>, pattern: Seq<char>) -> bool {
    if count_char(pattern, '*') == 1 {
        let i = first_char_of(pattern, '*');
        is_prefix_of(pattern.subrange(0, i), name) && is_suffix_of(
            pattern.subrange(i + 1, pattern.len() as int),
            name,
        )
    } else {
        name == pattern
    }
}

/// Glob matching for reference names, with a single `*` wildcard.
pub fn matches_pattern(name: &str, pattern: &str) -> (r: bool)
    ensures
        r == matches_pattern_spec(name@, pattern@),
{
    let stars = count_char_exec(pattern, '*');
    if stars == 1 {
        match find_char(pattern, '*') {
            Some(i) => {
                proof {
                    lemma_first_char_unique(pattern@, '*', i as int);
                }
                let p_len = pattern.unicode_len();
                let before = pattern.substring_char(0, i);
                let after = pattern.substring_char(i + 1, p_len);
                starts_with(name, before) && ends_with(name, after)
            },
            None => {
                proof {
                    lemma_count_char_zero_absent(pattern@, '*');
                    assert(false);
                }
                false
            },
        }
    } else {
        str_eq(name, pattern)
    }
}

/// Directory names the repository walk descends into: not hidden, and not a
/// known build-artifact directory.
pub open spec fn should_descend_spec(name: Seq<char>) -> bool {
    &&& !is_prefix_of("."@, name)
    &&& name != "node_modules"@
    &&& name != "target"@
    &&& name != "dist"@
    &&& name != "build"@
    &&& name != "vendor"@
}

/// Should the repository walk descend into a directory with this name?
pub fn should_descend(name: &str) -> (r: bool)
    ensures
        r == should_descend_spec(name@),
{
    !starts_with(name, ".") && !str_eq(name, "node_modules") && !str_eq(name, "target") && !str_eq(
        name,
        "dist",
    ) && !str_eq(name, "build") && !str_eq(name, "vendor")
}

/// Canonical "org/repo" path parsed from a remote origin URL: the part after
/// the host for `git@host:path` and `scheme://host/path` forms, with every
/// trailing ".git" stripped; other shapes yield nothing.
pub open spec fn repo_path_spec(u: Seq<char>) -> Option<Seq<char>> {
    if is_prefix_of("git@"@, u) {
        if contains_char(u, ':') {
            Some(
                strip_suffix_all(
                    u.subrange(first_char_of(u, ':') + 1, u.len() as int),
                    ".git"@,
                ),
            )
        } else {
            None
        }
    } else if is_prefix_of("http://"@, u) || is_prefix_of("https://"@, u) {
        let rest = u.subrange(first_match_of(u, "://"@) + 3, u.len() as int);
        if contains_char(rest, '/') {
            Some(
                strip_suffix_all(
                    rest.subrange(first_char_of(rest, '/') + 1, rest.len() as int),
                    ".git"@,
                ),
            )
        } else {
            None
        }
    } else {
        None
    }
}

/// Parses the canonical repository path out of a remote origin URL.
pub fn parse_repository_path(origin_url: &str) -> (r: Option<String>)
    ensures
        match r {
            Some(p) => repo_path_spec(origin_url@) == Some(p@),
            None => repo_path_spec(origin_url@) is None,
        },
{
    let u_len = origin_url.unicode_len();
    if starts_with(origin_url, "git@") {
        match find_char(origin_url, ':') {
            Some(ci) => {
                proof {
                    lemma_first_char_unique(origin_url@, ':', ci as int);
                    reveal_strlit(".git");
                }
                let path = origin_url.substring_char(ci + 1, u_len);
                let cleaned = strip_suffix_all_exec(path, ".git");
                Some(String::from_str(cleaned))
            },
            None => None,
        }
    } else if starts_with(origin_url, "http://") || starts_with(origin_url, "https://") {
        match find_sub(origin_url, "://") {
            Some(pi) => {
                proof {
                    lemma_first_match_unique(origin_url@, "://"@, pi as int);
                    reveal_strlit("://");
                }
                let after = origin_url.substring_char(pi + 3, u_len);
                match find_char(after, '/') {
                    Some(si) => {
                        proof {
                            lemma_first_char_unique(after@, '/', si as int);
                            reveal_strlit(".git");
                        }
                        let a_len = after.unicode_len();
                        let path = after.substring_char(si + 1, a_len);
                        let cleaned = strip_suffix_all_exec(path, ".git");
                        Some(String::from_str(cleaned))
                    },
                    None => None,
                }
            },
            None => {
                proof {
                    reveal_strlit("http://");
                    reveal_strlit("https://");
                    reveal_strlit("://");
                    let u = origin_url@;
                    if is_prefix_of("http://"@, u) {
                        assert(u.subrange(0, 7) == "http://"@);
                        assert(u.subrange(0, 7)[4] == u[4] && u.subrange(0, 7)[5] == u[5]
                            && u.subrange(0, 7)[6] == u[6]);
                        assert(u[4] == ':' && u[5] == '/' && u[6] == '/');
                        assert(u.subrange(4, 7)[0] == u[4] && u.subrange(4, 7)[1] == u[5]
                            && u.subrange(4, 7)[2] == u[6]);
                        assert(u.subrange(4, 7) =~= "://"@);
                        assert(matches_at(u, "://"@, 4));
                    } else {
                        assert(u.subrange(0, 8) == "https://"@);
                        assert(u.subrange(0, 8)[5] == u[5] && u.subrange(0, 8)[6] == u[6]
                            && u.subrange(0, 8)[7] == u[7]);
                        assert(u[5] == ':' && u[6] == '/' && u[7] == '/');
                        assert(u.subrange(5, 8)[0] == u[5] && u.subrange(5, 8)[1] == u[6]
                            && u.subrange(5, 8)[2] == u[7]);
                        assert(u.subrange(5, 8) =~= "://"@);
                        assert(matches_at(u, "://"@, 5));
                    }
                    assert(false);
                }
                None
            },
        }
    } else {
        None
    }
}

/// The reference name an activity's message carries: for checkouts the text
/// after the first " to ", for merges the second token with trailing colons
/// stripped, for rebases the second token.
pub open spec fn ref_name_spec(m: Seq<char>, t: GitActivityType) -> Option<Seq<char>> {
    match t {
        GitActivityType::Checkout => if contains_seq(m, " to "@) {
            Some(m.subrange(first_match_of(m, " to "@) + 4, m.len() as int))
        } else {
            None
        },
        GitActivityType::Merge => match second_token_spec(m) {
            Some(tok) => Some(strip_suffix_all(tok, ":"@)),
            None => None,
        },
        GitActivityType::Rebase => second_token_spec(m),
        _ => None,
    }
}

/// The first line of a text: up to the first newline, with a carriage
/// return left by a CRLF ending dropped; a text without newlines is its own
/// first line.
pub open spec fn first_line(s: Seq<char>) -> Seq<char> {
    if contains_char(s, '\n') {
        let raw = s.subrange(0, first_char_of(s, '\n'));
        if raw.len() > 0 && raw.last() == '\r' {
            raw.drop_last()
        } else {
            raw
        }
    } else {
        s
    }
}

/// Returns the first line of `s`.
pub fn first_line_exec(s: &str) -> (r: String)
    ensures
        r@ == first_line(s@),
{
    match find_char(s, '\n') {
        Some(i) => {
            proof {
                lemma_first_char_unique(s@, '\n', i as int);
            }
            if i > 0 && s.get_char(i - 1) == '\r' {
                let raw = s.substring_char(0, i - 1);
                proof {
                    assert(s@.subrange(0, i as int).drop_last() =~= s@.subrange(0, i - 1));
                    assert(s@.subrange(0, i as int).last() == s@[i - 1]);
                }
                String::from_str(raw)
            } else {
                let raw = s.substring_char(0, i);
                proof {
                    if i > 0 {
                        assert(s@.subrange(0, i as int).last() == s@[i - 1]);
                    }
                }
                String::from_str(raw)
            }
        },
        None => String::from_str(s),
    }
}

/// The title rendered for a reference-log entry: the first line of the
/// commit message for commits, "Switched to Y (from X)" for checkouts,
/// "Merged <branch>" for merges, "Reset to <target>" for resets, a fixed
/// phrase for pulls and rebases, and the raw message otherwise.
pub open spec fn format_activity_spec(m: Seq<char>, cm: Seq<char>) -> Seq<char> {
    if is_prefix_of("commit"@, m) && cm.len() > 0 {
        first_line(cm)
    } else if is_prefix_of("checkout: moving from "@, m) && contains_seq(m, " to "@)
        && first_match_of(m, " to "@) >= 22 {
        let ti = first_match_of(m, " to "@);
        "Switched to "@ + m.subrange(ti + 4, m.len() as int) + " (from "@ + m.subrange(22, ti)
            + ")"@
    } else if is_prefix_of("merge "@, m) && contains_char(m, ':') {
        "Merged "@ + crate::text::trim_spec(m.subrange(6, first_char_of(m, ':')))
    } else if is_prefix_of("reset: moving to "@, m) {
        "Reset to "@ + m.subrange(17, m.len() as int)
    } else if is_prefix_of("pull"@, m) {
        if contains_seq(m, "Fast-forward"@) {
            "Pulled (fast-forward)"@
        } else {
            "Pulled"@
        }
    } else if is_prefix_of("rebase"@, m) {
        if contains_seq(m, "(start)"@) {
            "Rebase started"@
        } else if contains_seq(m, "(finish)"@) {
            "Rebase finished"@
        } else {
            "Rebase"@
        }
    } else {
        m
    }
}

/// Renders the title of a reference-log entry from its message and, for
/// commits, the commit message.
pub fn format_activity_message(reflog_message: &str, commit_message: &str) -> (r: String)
    ensures
        r@ == format_activity_spec(reflog_message@, commit_message@),
{
    let m_len = reflog_message.unicode_len();
    if starts_with(reflog_message, "commit") && commit_message.unicode_len() > 0 {
        return first_line_exec(commit_message);
    }
    if starts_with(reflog_message, "checkout: moving from ") {
        match find_sub(reflog_message, " to ") {
            Some(ti) => {
                proof {
                    lemma_first_match_unique(reflog_message@, " to "@, ti as int);
                    reveal_strlit(" to ");
                    reveal_strlit("checkout: moving from ");
                }
                if ti >= 22 {
                    let to_part = reflog_message.substring_char(ti + 4, m_len);
                    let from_part = reflog_message.substring_char(22, ti);
                    let r = String::from_str("Switched to ").concat(to_part).concat(
                        " (from ",
                    ).concat(from_part).concat(")");
                    proof {
                        assert(r@ =~= format_activity_spec(reflog_message@, commit_message@));
                    }
                    return r;
                }
            },
            None => {},
        }
    }
    if starts_with(reflog_message, "merge ") {
        match find_char(reflog_message, ':') {
            Some(ci) => {
                proof {
                    lemma_first_char_unique(reflog_message@, ':', ci as int);
                    reveal_strlit("merge ");
                    let m = reflog_message@;
                    assert(m.subrange(0, 6) == "merge "@);
                    assert(forall|j: int|
                        0 <= j < 6 ==> m.subrange(0, 6)[j] == #[trigger] m[j]);
                    assert(ci >= 6);
                }
                let branch = crate::text::trim_both(reflog_message.substring_char(6, ci));
                let r = String::from_str("Merged ").concat(branch);
                return r;
            },
            None => {},
        }
    }
    if starts_with(reflog_message, "reset: moving to ") {
        proof {
            reveal_strlit("reset: moving to ");
        }
        let target = reflog_message.substring_char(17, m_len);
        let r = String::from_str("Reset to ").concat(target);
        return r;
    }
    if starts_with(reflog_message, "pull") {
        if contains_sub(reflog_message, "Fast-forward") {
            return String::from_str("Pulled (fast-forward)");
        }
        return String::from_str("Pulled");
    }
    if starts_with(reflog_message, "rebase") {
        if contains_sub(reflog_message, "(start)") {
            return String::from_str("Rebase started");
        }
        if contains_sub(reflog_message, "(finish)") {
            return String::from_str("Rebase finished");
        }
        return String::from_str("Rebase");
    }
    String::from_str(reflog_message)
}

/// The 32-digit lowercase hex rendering of the MD5 digest of a text's bytes.
pub uninterp spec fn md5_hex(s: Seq<char>) -> Seq<char>;

/// Relies on md5::compute and the LowerHex rendering of its digest: 32
/// lowercase hex digits, determined by the input bytes alone.
#[verifier::external_body]
fn md5_hex_exec(s: &str) -> (r: String)
    ensures
        r@ == md5_hex(s@),
        r@.len() == 32,
{
    format!("{:x}", md5::compute(s.as_bytes()))
}

/// The raw facts about one candidate repository directory, as the directory
/// walk gathers them: its name, its path as shown, its canonicalized path,
/// and the remote origin URL where one is configured.
#[derive(Debug, Clone)]
pub struct RepoProbe {
    pub name: String,
    pub local_path: String,
    pub canonical_path: String,
    pub origin_url: Option<String>,
}

/// `g` is the repository record derived from the probe `p`: identified by
/// the digest of its origin URL, or by the digest of its canonical local
/// path marked "local-" where no origin is configured.
pub open spec fn identified(p: RepoProbe, g: GitRepository) -> bool {
    &&& g.repository_name == p.name
    &&& g.local_path == p.local_path
    &&& g.origin_url == p.origin_url
    &&& match p.origin_url {
        Some(u) => {
            &&& g.repository_id@ == md5_hex(u@)
            &&& match g.repository_path {
                Some(rp) => repo_path_spec(u@) == Some(rp@),
                None => repo_path_spec(u@) is None,
            }
        },
        None => {
            &&& g.repository_id@ == "local-"@ + md5_hex(p.canonical_path@)
            &&& g.repository_path is None
        },
    }
}

/// Derives the repository record for one probed directory.
pub fn identify_repository(probe: &RepoProbe) -> (r: GitRepository)
    ensures
        identified(*probe, r),
{
    let (repository_id, repository_path) = match &probe.origin_url {
        Some(u) => {
            let id = md5_hex_exec(u.as_str());
            let rp = parse_repository_path(u.as_str());
            (id, rp)
        },
        None => {
            let h = md5_hex_exec(probe.canonical_path.as_str());
            (String::from_str("local-").concat(h.as_str()), None)
        },
    };
    GitRepository {
        repository_id,
        repository_name: probe.name.clone(),
        local_path: probe.local_path.clone(),
        repository_path,
        origin_url: match &probe.origin_url {
            Some(u) => Some(u.clone()),
            None => None,
        },
    }
}

/// Derives the repository records for every probed directory, in order.
pub fn discover_repositories(probes: &Vec<RepoProbe>) -> (r: Vec<GitRepository>)
    ensures
        r@.len() == probes@.len(),
        forall|i: int| 0 <= i < r@.len() ==> identified(probes@[i], #[trigger] r@[i]),
{
    let mut out: Vec<GitRepository> = Vec::new();
    let mut i: usize = 0;
    while i < probes.len()
        invariant
            i <= probes@.len(),
            out@.len() == i,
            forall|j: int| 0 <= j < i ==> identified(probes@[j], #[trigger] out@[j]),
        decreases probes@.len() - i,
    {
        let g = identify_repository(&probes[i]);
        out.push(g);
        i += 1;
    }
    out
}

/// One raw reference-log record, as the repository reader hands it over:
/// the entry's message, the message of the commit it points to (empty where
/// none could be read), its instant, and the new commit hash.
#[derive(Debug, Clone)]
pub struct ReflogEntry {
    pub message: String,
    pub commit_message: String,
    pub timestamp: i64,
    pub commit_hash: String,
}

/// Turns one reference-log record into an activity record: entries before
/// the window start, entries whose message classifies as no known activity,
/// and fetch or clone entries are dropped.
pub fn activity_from_entry(
    repo: &GitRepository,
    entry: &ReflogEntry,
    since: Option<i64>,
) -> (r: Option<GitActivity>)
    ensures
        match r {
            Some(a) => {
                &&& (match since {
                    Some(s) => entry.timestamp >= s,
                    None => true,
                })
                &&& classify_reflog(entry.message@) == Some(a.activity_type)
                &&& !contains_seq(entry.message@, "fetch"@)
                &&& !contains_seq(entry.message@, "clone"@)
                &&& a.repository_id == repo.repository_id
                &&& a.repository_name == repo.repository_name
                &&& a.timestamp@ == crate::timefmt::rfc3339_of(entry.timestamp as int)
                &&& match a.ref_name {
                    Some(n) => ref_name_spec(entry.message@, a.activity_type) == Some(n@),
                    None => ref_name_spec(entry.message@, a.activity_type) is None,
                }
                &&& match a.commit_hash {
                    Some(h) => h@ == entry.commit_hash@,
                    None => false,
                }
                &&& a.message@ == format_activity_spec(entry.message@, entry.commit_message@)
            },
            None => {
                ||| (since matches Some(s) && entry.timestamp < s)
                ||| classify_reflog(entry.message@) is None
                ||| contains_seq(entry.message@, "fetch"@)
                ||| contains_seq(entry.message@, "clone"@)
            },
        },
{
    match since {
        Some(s) => {
            if entry.timestamp < s {
                return None;
            }
        },
        None => {},
    }
    let activity_type = match GitActivityType::from_reflog_message(entry.message.as_str()) {
        Some(t) => t,
        None => {
            return None;
        },
    };
    if contains_sub(entry.message.as_str(), "fetch") || contains_sub(
        entry.message.as_str(),
        "clone",
    ) {
        return None;
    }
    let ref_name = extract_ref_name(entry.message.as_str(), &activity_type);
    let message = format_activity_message(
        entry.message.as_str(),
        entry.commit_message.as_str(),
    );
    Some(
        GitActivity {
            repository_id: repo.repository_id.clone(),
            repository_name: repo.repository_name.clone(),
            activity_type,
            timestamp: crate::timefmt::format_rfc3339(entry.timestamp),
            ref_name,
            commit_hash: Some(entry.commit_hash.clone()),
            message,
        },
    )
}

/// Extracts the reference name named by a reference-log message.
pub fn extract_ref_name(message: &str, activity_type: &GitActivityType) -> (r: Option<String>)
    ensures
        match r {
            Some(n) => ref_name_spec(message@, *activity_type) == Some(n@),
            None => ref_name_spec(message@, *activity_type) is None,
        },
{
    match activity_type {
        GitActivityType::Checkout => {
            match find_sub(message, " to ") {
                Some(ti) => {
                    proof {
                        lemma_first_match_unique(message@, " to "@, ti as int);
                        reveal_strlit(" to ");
                    }
                    let m_len = message.unicode_len();
                    let n = message.substring_char(ti + 4, m_len);
                    Some(String::from_str(n))
                },
                None => None,
            }
        },
        GitActivityType::Merge => {
            match second_token(message) {
                Some(tok) => {
                    proof {
                        reveal_strlit(":");
                    }
                    let cleaned = strip_suffix_all_exec(tok.as_str(), ":");
                    Some(String::from_str(cleaned))
                },
                None => None,
            }
        },
        GitActivityType::Rebase => second_token(message),
        _ => None,
    }
}

} // verus!
