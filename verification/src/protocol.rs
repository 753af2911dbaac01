//! The mark-call authorization protocol: an HTTP status decides whether a
//! mark attempt succeeded, failed, or must be retried once after refreshing
//! the bearer token. A 401 response triggers exactly one refresh and one
//! retry; any non-2xx status after that is a failure.

use vstd::prelude::*;

verus! {

/// A status is a success exactly when it lies in the 2xx range.
pub open spec fn is_success_spec(status: u16) -> bool {
    200 <= status < 300
}

/// A first response demands a token refresh and a retry exactly on 401.
pub open spec fn needs_retry_spec(status: u16) -> bool {
    status == 401
}

pub fn is_success(status: u16) -> (r: bool)
    ensures
        r == is_success_spec(status),
{
    200 <= status && status < 300
}

pub fn needs_retry(status: u16) -> (r: bool)
    ensures
        r == needs_retry_spec(status),
{
    status == 401
}

/// What one mark exchange did: whether the token was refreshed, whether a
/// second request was sent, and whether the mark ended in success.
pub struct MarkRun {
    pub refreshed: bool,
    pub retried: bool,
    pub ok: bool,
}

/// Decides a whole mark exchange from the first response status and, where a
/// retry was demanded, the status of the retry. A 401 first response causes
/// exactly one refresh and exactly one retry; every other first response ends
/// the exchange at once.
pub fn mark_run(first: u16, retry: Option<u16>) -> (r: MarkRun)
    requires
        needs_retry_spec(first) ==> retry is Some,
    ensures
        r.refreshed == needs_retry_spec(first),
        r.retried == needs_retry_spec(first),
        needs_retry_spec(first) ==> r.ok == is_success_spec(retry->0),
        !needs_retry_spec(first) ==> r.ok == is_success_spec(first),
{
    if needs_retry(first) {
        let second = match retry {
            Some(s) => s,
            None => 0,
        };
        MarkRun { refreshed: true, retried: true, ok: is_success(second) }
    } else {
        MarkRun { refreshed: false, retried: false, ok: is_success(first) }
    }
}

/// The mark-as-watched URL of the streamer's wire protocol, for an account,
/// a content identifier and the two configured locales.
pub open spec fn mark_url_spec(
    account: Seq<char>,
    content_id: Seq<char>,
    audio: Seq<char>,
    locale: Seq<char>,
) -> Seq<char> {
    "https://www.crunchyroll.com/content/v2/discover/"@ + account + "/mark_as_watched/"@
        + content_id + "?preferred_audio_language="@ + audio + "&locale="@ + locale
}

/// Builds the mark-as-watched URL.
pub fn mark_url(account: &str, content_id: &str, audio: &str, locale: &str) -> (r: String)
    ensures
        r@ == mark_url_spec(account@, content_id@, audio@, locale@),
{
    let mut r = String::from_str("https://www.crunchyroll.com/content/v2/discover/");
    r.append(account);
    r.append("/mark_as_watched/");
    r.append(content_id);
    r.append("?preferred_audio_language=");
    r.append(audio);
    r.append("&locale=");
    r.append(locale);
    proof {
        assert(r@ =~= mark_url_spec(account@, content_id@, audio@, locale@));
    }
    r
}

} // verus!
