//! Browser-history source adapter: the raw visit shape, the URL denylist
//! that keeps private pages out of the store, and the browser-profile
//! choice rule.

use vstd::prelude::*;
use vstd::string::StrSliceExecFns;

use crate::db::{like_matches, like_matches_exec};
use crate::text::{
    contains_seq, contains_sub, is_prefix_of, lower_seq, starts_with, to_lower,
};

verus! {

/// One raw browser visit.
#[derive(Debug, Clone)]
pub struct BrowserVisit {
    pub url: String,
    pub title: Option<String>,
    pub visit_date: i64,
    pub visit_count: i32,
}

/// A URL the history query must never hand over, compared without regard
/// to ASCII case: browser-internal schemes, localhost and loopback,
/// authentication and OAuth flows, credential-bearing query parameters,
/// password, security, payment and admin paths, and specific webmail deep
/// links.
pub open spec fn excluded_url_spec(u: Seq<char>) -> bool {
    let lu = lower_seq(u);
    ||| is_prefix_of("chrome://"@, lu)
    ||| is_prefix_of("about:"@, lu)
    ||| is_prefix_of("moz-extension://"@, lu)
    ||| is_prefix_of("http://localhost"@, lu)
    ||| is_prefix_of("https://localhost"@, lu)
    ||| is_prefix_of("http://127.0.0.1"@, lu)
    ||| is_prefix_of("https://127.0.0.1"@, lu)
    ||| contains_seq(lu, ".local/"@)
    ||| contains_seq(lu, "/auth/"@)
    ||| contains_seq(lu, "/oauth/"@)
    ||| contains_seq(lu, "/login"@)
    ||| contains_seq(lu, "/signin"@)
    ||| contains_seq(lu, "/sso/"@)
    ||| contains_seq(lu, "/saml/"@)
    ||| contains_seq(lu, "/authorize"@)
    ||| contains_seq(lu, "/callback"@)
    ||| contains_seq(lu, "access_token="@)
    ||| contains_seq(lu, "id_token="@)
    ||| contains_seq(lu, "refresh_token="@)
    ||| contains_seq(lu, "api_key="@)
    ||| contains_seq(lu, "apikey="@)
    ||| contains_seq(lu, "secret="@)
    ||| contains_seq(lu, "password="@)
    ||| contains_seq(lu, "session_id="@)
    ||| contains_seq(lu, "/password/"@)
    ||| contains_seq(lu, "/security/"@)
    ||| contains_seq(lu, "/2fa/"@)
    ||| contains_seq(lu, "/mfa/"@)
    ||| contains_seq(lu, "/checkout"@)
    ||| contains_seq(lu, "/payment"@)
    ||| contains_seq(lu, "/billing"@)
    ||| contains_seq(lu, "/admin/"@)
    ||| contains_seq(lu, "/wp-admin/"@)
    ||| like_matches("%mail.google.com/mail/u/%/#%"@, lu)
    ||| like_matches("%outlook.live.com/mail/%/inbox/id/%"@, lu)
}

/// Must this URL stay out of the store?
pub fn is_excluded_url(url: &str) -> (r: bool)
    ensures
        r == excluded_url_spec(url@),
{
    let low = to_lower(url);
    let lu = low.as_str();
    starts_with(lu, "chrome://") || starts_with(lu, "about:") || starts_with(
        lu,
        "moz-extension://",
    ) || starts_with(lu, "http://localhost") || starts_with(lu, "https://localhost")
        || starts_with(lu, "http://127.0.0.1") || starts_with(lu, "https://127.0.0.1")
        || contains_sub(lu, ".local/") || contains_sub(lu, "/auth/") || contains_sub(
        lu,
        "/oauth/",
    ) || contains_sub(lu, "/login") || contains_sub(lu, "/signin") || contains_sub(lu, "/sso/")
        || contains_sub(lu, "/saml/") || contains_sub(lu, "/authorize") || contains_sub(
        lu,
        "/callback",
    ) || contains_sub(lu, "access_token=") || contains_sub(lu, "id_token=") || contains_sub(
        lu,
        "refresh_token=",
    ) || contains_sub(lu, "api_key=") || contains_sub(lu, "apikey=") || contains_sub(
        lu,
        "secret=",
    ) || contains_sub(lu, "password=") || contains_sub(lu, "session_id=") || contains_sub(
        lu,
        "/password/",
    ) || contains_sub(lu, "/security/") || contains_sub(lu, "/2fa/") || contains_sub(lu, "/mfa/")
        || contains_sub(lu, "/checkout") || contains_sub(lu, "/payment") || contains_sub(
        lu,
        "/billing",
    ) || contains_sub(lu, "/admin/") || contains_sub(lu, "/wp-admin/") || like_matches_exec(
        "%mail.google.com/mail/u/%/#%",
        lu,
    ) || like_matches_exec("%outlook.live.com/mail/%/inbox/id/%", lu)
}

/// A profile directory that can serve as the browser's default profile.
pub open spec fn is_default_profile(n: Seq<char>) -> bool {
    contains_seq(lower_seq(n), "default"@)
}

/// A default profile marked as the release channel.
pub open spec fn is_release_profile(n: Seq<char>) -> bool {
    is_default_profile(n) && contains_seq(lower_seq(n), "release"@)
}

/// Chooses the browser profile among directory names: the first default
/// profile on the release channel, else the first default profile of any
/// kind.
pub fn pick_default_profile(names: &Vec<String>) -> (r: Option<usize>)
    ensures
        match r {
            Some(i) => i < names@.len() && if is_release_profile(names@[i as int]@) {
                forall|j: int| 0 <= j < i ==> !is_release_profile((#[trigger] names@[j])@)
            } else {
                is_default_profile(names@[i as int]@) && (forall|j: int|
                    0 <= j < names@.len() ==> !is_release_profile((#[trigger] names@[j])@))
                    && (forall|j: int|
                    0 <= j < i ==> !is_default_profile((#[trigger] names@[j])@))
            },
            None => forall|j: int|
                0 <= j < names@.len() ==> !is_default_profile((#[trigger] names@[j])@),
        },
{
    let n = names.len();
    let mut i: usize = 0;
    while i < n
        invariant
            n == names@.len(),
            i <= n,
            forall|j: int| 0 <= j < i ==> !is_release_profile((#[trigger] names@[j])@),
        decreases n - i,
    {
        let low = to_lower(names[i].as_str());
        if contains_sub(low.as_str(), "default") && contains_sub(low.as_str(), "release") {
            return Some(i);
        }
        i += 1;
    }
    let mut k: usize = 0;
    while k < n
        invariant
            n == names@.len(),
            k <= n,
            forall|j: int| 0 <= j < n ==> !is_release_profile((#[trigger] names@[j])@),
            forall|j: int| 0 <= j < k ==> !is_default_profile((#[trigger] names@[j])@),
        decreases n - k,
    {
        let low = to_lower(names[k].as_str());
        if contains_sub(low.as_str(), "default") {
            return Some(k);
        }
        k += 1;
    }
    None
}

} // verus!
