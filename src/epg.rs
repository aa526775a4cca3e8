//! Programme guide entries of Xtream panels: decoding of a listing,
//! timeshift URLs for archived programmes, and the filter of unusable entries.
use crate::error::Error;
use crate::text::opt_view;
use crate::types::{EPG, Source, SourceView};
use crate::xtream::{string_result, url_with_pair, append_query_pair};
use base64::Engine;
use std::fmt::Write;
use vstd::prelude::*;

verus! {

/// One entry of a panel's short programme listing.
#[derive(Clone, Debug, PartialEq)]
pub struct XtreamEPGItem {
    pub id: String,
    pub title: String,
    pub description: String,
    pub start_timestamp: String,
    pub stop_timestamp: String,
    pub now_playing: u8,
    pub has_archive: u8,
    pub start: String,
    pub end: String,
}

/// How listings write programme times.
pub const LISTING_TIME_FORMAT: &'static str = "%Y-%m-%d %H:%M:%S";

/// How timeshift requests write a programme's start.
pub const TIMESHIFT_START_FORMAT: &'static str = "%Y-%m-%d:%H-%M";

/// How programme times are shown.
pub const DISPLAY_TIME_FORMAT: &'static str = "%B %d, %H:%M";

pub const TIMESHIFT_PATH: &'static str = "/streaming/timeshift.php";

pub const STREAM_KEY: &'static str = "stream";

pub const START_KEY: &'static str = "start";

pub const DURATION_KEY: &'static str = "duration";

/// The bytes that standard base64 decodes `s` to.
pub uninterp spec fn base64_decoded(s: Seq<char>) -> Option<Seq<u8>>;

/// The text that `bytes` hold, when they are valid UTF-8.
pub uninterp spec fn utf8_text(bytes: Seq<u8>) -> Option<Seq<char>>;

/// The seconds since the epoch of a time written in `fmt`, read as UTC.
pub uninterp spec fn naive_seconds_of(s: Seq<char>, fmt: Seq<char>) -> Option<i64>;

/// A time, given in seconds since the epoch, written in `fmt` as UTC.
pub uninterp spec fn naive_text_of(secs: i64, fmt: Seq<char>) -> Option<Seq<char>>;

/// Relies on `base64`'s standard engine `decode`.
#[verifier::external_body]
fn base64_decode(s: &str) -> (r: Option<Vec<u8>>)
    ensures
        match r {
            Some(v) => base64_decoded(s@) == Some(v@),
            None => base64_decoded(s@) is None,
        },
{
    base64::prelude::BASE64_STANDARD.decode(s).ok()
}

/// Relies on `String::from_utf8`.
#[verifier::external_body]
fn utf8_string(bytes: Vec<u8>) -> (r: Option<String>)
    ensures
        opt_view(r) == utf8_text(bytes@),
{
    String::from_utf8(bytes).ok()
}

/// Relies on `chrono::NaiveDateTime::parse_from_str`, `and_utc` and `timestamp`.
#[verifier::external_body]
fn naive_seconds(s: &str, fmt: &str) -> (r: Option<i64>)
    ensures
        r == naive_seconds_of(s@, fmt@),
{
    match chrono::NaiveDateTime::parse_from_str(s, fmt) {
        Ok(t) => Some(t.and_utc().timestamp()),
        Err(_) => None,
    }
}

/// Relies on `chrono::DateTime::from_timestamp` and `NaiveDateTime::format`.
#[verifier::external_body]
fn naive_text(secs: i64, fmt: &str) -> (r: Option<String>)
    ensures
        opt_view(r) == naive_text_of(secs, fmt@),
{
    let t = chrono::DateTime::from_timestamp(secs, 0)?.naive_utc();
    let mut out = String::new();
    match write!(out, "{}", t.format(fmt)) {
        Ok(()) => Some(out),
        Err(_) => None,
    }
}

/// Relies on `chrono::DateTime::from_timestamp` and the conversion to
/// `chrono::Local`: the text depends on the machine's time zone.
#[verifier::external_body]
fn local_time_text(secs: i64, fmt: &str) -> (r: Option<String>) {
    let t = chrono::DateTime::from_timestamp(secs, 0)?;
    let local = chrono::DateTime::<chrono::Local>::from(t);
    let mut out = String::new();
    match write!(out, "{}", local.format(fmt)) {
        Ok(()) => Some(out),
        Err(_) => None,
    }
}

pub open spec fn digit_of(c: char) -> int {
    c as int - '0' as int
}

pub open spec fn digits_int(s: Seq<char>) -> int
    decreases s.len(),
{
    if s.len() == 0 {
        0
    } else {
        digits_int(s.drop_last()) * 10 + digit_of(s.last())
    }
}

/// The number that `str::parse::<i64>` reads from `s`: an optional sign
/// followed by at least one decimal digit, within range.
pub open spec fn signed_value(s: Seq<char>) -> Option<i64> {
    let neg = s.len() > 0 && s[0] == '-';
    let d = if s.len() > 0 && (s[0] == '+' || s[0] == '-') {
        s.drop_first()
    } else {
        s
    };
    let v = if neg {
        -digits_int(d)
    } else {
        digits_int(d)
    };
    if d.len() > 0 && (forall|i: int| 0 <= i < d.len() ==> '0' <= #[trigger] d[i] <= '9') && i64::MIN
        <= v <= i64::MAX {
        Some(v as i64)
    } else {
        None
    }
}

/// Relies on `str::parse::<i64>`.
#[verifier::external_body]
fn parse_i64(s: &str) -> (r: Option<i64>)
    ensures
        r == signed_value(s@),
{
    s.parse::<i64>().ok()
}

/// The decimal representation of `n`, with a `-` when negative.
pub open spec fn signed_digits(n: int) -> Seq<char> {
    if n < 0 {
        seq!['-'] + crate::text::decimal_digits((-n) as nat)
    } else {
        crate::text::decimal_digits(n as nat)
    }
}

/// Relies on `i64::to_string`.
#[verifier::external_body]
fn i64_to_string(n: i64) -> (r: String)
    ensures
        r@ == signed_digits(n as int),
{
    n.to_string()
}

/// Base64 text decoded to UTF-8 text.
pub open spec fn decoded_text(s: Seq<char>) -> Option<Seq<char>> {
    match base64_decoded(s) {
        Some(b) => utf8_text(b),
        None => None,
    }
}

fn decode_text(s: &str) -> (r: Result<String, Error>)
    ensures
        match decoded_text(s@) {
            Some(t) => r is Ok && r->Ok_0@ == t,
            None => r == Err::<String, Error>(Error::InvalidText),
        },
{
    match base64_decode(s) {
        Some(b) => match utf8_string(b) {
            Some(t) => Ok(t),
            None => Err(Error::InvalidText),
        },
        None => Err(Error::InvalidText),
    }
}

/// Whole minutes between two times, truncated toward zero.
pub open spec fn minutes_between(start: i64, end: i64) -> int {
    let d = end as int - start as int;
    if d >= 0 {
        d / 60
    } else {
        -((-d) / 60)
    }
}

/// The request base of timeshift playback: the panel's origin, the
/// timeshift path, and the credentials.
pub open spec fn timeshift_base_of(src: SourceView) -> Result<Seq<char>, Error> {
    if src.url_origin is None {
        Err(Error::InvalidUrl)
    } else if src.username is None {
        Err(Error::MissingUsername)
    } else if src.password is None {
        Err(Error::MissingPassword)
    } else {
        match url_with_pair(src.url_origin->0 + TIMESHIFT_PATH@, crate::xtream::USERNAME_KEY@, src.username->0) {
            None => Err(Error::InvalidUrl),
            Some(u) => match url_with_pair(u, crate::xtream::PASSWORD_KEY@, src.password->0) {
                None => Err(Error::InvalidUrl),
                Some(v) => Ok(v),
            },
        }
    }
}


pub fn get_timeshift_url_base(source: &Source) -> (r: Result<String, Error>)
    ensures
        string_result(r) == timeshift_base_of(source@),
{
    let origin = match &source.url_origin {
        Some(o) => o,
        None => {
            return Err(Error::InvalidUrl);
        },
    };
    let user = match &source.username {
        Some(u) => u,
        None => {
            return Err(Error::MissingUsername);
        },
    };
    let pass = match &source.password {
        Some(p) => p,
        None => {
            return Err(Error::MissingPassword);
        },
    };
    let mut base = origin.clone();
    base.append(TIMESHIFT_PATH);
    let with_user = match append_query_pair(base.as_str(), crate::xtream::USERNAME_KEY, user.as_str()) {
        Some(u) => u,
        None => {
            return Err(Error::InvalidUrl);
        },
    };
    match append_query_pair(with_user.as_str(), crate::xtream::PASSWORD_KEY, pass.as_str()) {
        Some(u) => Ok(u),
        None => Err(Error::InvalidUrl),
    }
}

/// The timeshift URL of an archived programme.
pub open spec fn timeshift_of(url: Seq<char>, start: Seq<char>, end: Seq<char>, stream_id: Seq<char>) -> Result<Seq<char>, Error> {
    match (naive_seconds_of(start, LISTING_TIME_FORMAT@), naive_seconds_of(end, LISTING_TIME_FORMAT@)) {
        (Some(s), Some(e)) => match naive_text_of(s, TIMESHIFT_START_FORMAT@) {
            None => Err(Error::InvalidTime),
            Some(st) => match url_with_pair(url, STREAM_KEY@, stream_id) {
                None => Err(Error::InvalidUrl),
                Some(u1) => match url_with_pair(u1, START_KEY@, st) {
                    None => Err(Error::InvalidUrl),
                    Some(u2) => match url_with_pair(u2, DURATION_KEY@, signed_digits(minutes_between(s, e))) {
                        None => Err(Error::InvalidUrl),
                        Some(u3) => Ok(u3),
                    },
                },
            },
        },
        _ => Err(Error::InvalidTime),
    }
}

pub fn get_timeshift_url(url: &str, start: &str, end: &str, stream_id: &str) -> (r: Result<String, Error>)
    ensures
        string_result(r) == timeshift_of(url@, start@, end@, stream_id@),
{
    let s = match naive_seconds(start, LISTING_TIME_FORMAT) {
        Some(s) => s,
        None => {
            return Err(Error::InvalidTime);
        },
    };
    let e = match naive_seconds(end, LISTING_TIME_FORMAT) {
        Some(e) => e,
        None => {
            return Err(Error::InvalidTime);
        },
    };
    let d: i128 = e as i128 - s as i128;
    let minutes: i128 = if d >= 0 {
        d / 60
    } else {
        -((-d) / 60)
    };
    assert(minutes == minutes_between(s, e));
    let start_text = match naive_text(s, TIMESHIFT_START_FORMAT) {
        Some(t) => t,
        None => {
            return Err(Error::InvalidTime);
        },
    };
    let duration = i64_to_string(minutes as i64);
    let u1 = match append_query_pair(url, STREAM_KEY, stream_id) {
        Some(u) => u,
        None => {
            return Err(Error::InvalidUrl);
        },
    };
    let u2 = match append_query_pair(u1.as_str(), START_KEY, start_text.as_str()) {
        Some(u) => u,
        None => {
            return Err(Error::InvalidUrl);
        },
    };
    match append_query_pair(u2.as_str(), DURATION_KEY, duration.as_str()) {
        Some(u) => Ok(u),
        None => Err(Error::InvalidUrl),
    }
}

/// Whether a guide entry is worth showing at time `now`: it has not
/// ended yet, is playing, or can be replayed from the archive.
pub open spec fn epg_usable(epg: EPG, now: i64) -> bool {
    !(epg.stop_timestamp < now && !epg.has_archive && !epg.now_playing)
}

pub fn is_valid_epg(epg: &EPG, now: i64) -> (r: bool)
    ensures
        r == epg_usable(*epg, now),
{
    !(epg.stop_timestamp < now && !epg.has_archive && !epg.now_playing)
}

/// The error of a listing entry whose text or times cannot be read.
pub open spec fn entry_text_error(epg: XtreamEPGItem) -> Option<Error> {
    if decoded_text(epg.title@) is None || decoded_text(epg.description@) is None {
        Some(Error::InvalidText)
    } else if signed_value(epg.start_timestamp@) is None || signed_value(epg.stop_timestamp@) is None {
        Some(Error::InvalidNumber)
    } else {
        None
    }
}

/// The error of an archived entry whose timeshift URL cannot be built.
pub open spec fn archive_error(epg: XtreamEPGItem, url: Seq<char>, stream_id: Seq<char>) -> Option<Error> {
    if epg.has_archive == 1 && timeshift_of(url, epg.start@, epg.end@, stream_id) is Err {
        Some(timeshift_of(url, epg.start@, epg.end@, stream_id)->Err_0)
    } else {
        None
    }
}

/// The error that a listing entry meets whatever the local time texts are.
pub open spec fn entry_error(epg: XtreamEPGItem, url: Seq<char>, stream_id: Seq<char>) -> Option<Error> {
    if entry_text_error(epg) is Some {
        entry_text_error(epg)
    } else {
        archive_error(epg, url, stream_id)
    }
}

/// The fields of a guide entry made from a listing entry, all but the
/// local time texts.
pub open spec fn epg_fields(e: EPG, epg: XtreamEPGItem, url: Seq<char>, stream_id: Seq<char>) -> bool {
    &&& e.epg_id@ == epg.id@
    &&& decoded_text(epg.title@) == Some(e.title@)
    &&& decoded_text(epg.description@) == Some(e.description@)
    &&& signed_value(epg.start_timestamp@) == Some(e.start_timestamp)
    &&& signed_value(epg.stop_timestamp@) == Some(e.stop_timestamp)
    &&& e.has_archive == (epg.has_archive == 1)
    &&& e.now_playing == (epg.now_playing == 1)
    &&& e.has_archive ==> e.timeshift_url is Some && timeshift_of(url, epg.start@, epg.end@, stream_id)
        == Ok::<Seq<char>, Error>(opt_view(e.timeshift_url)->0)
    &&& !e.has_archive ==> e.timeshift_url is None
}

/// Turns a listing entry into a guide entry, given the texts of its start
/// and stop in local time (`None` where they could not be written).
pub fn epg_from_times(
    epg: XtreamEPGItem,
    url: &str,
    stream_id: &str,
    start_time: Option<String>,
    end_time: Option<String>,
) -> (r: Result<EPG, Error>)
    ensures
        entry_text_error(epg) is Some ==> r == Err::<EPG, Error>(entry_text_error(epg)->0),
        r == Err::<EPG, Error>(Error::InvalidText) <==> entry_text_error(epg) == Some(Error::InvalidText),
        r == Err::<EPG, Error>(Error::InvalidNumber) <==> entry_text_error(epg) == Some(Error::InvalidNumber),
        entry_text_error(epg) is None && (start_time is None || end_time is None) ==> r == Err::<EPG, Error>(
            Error::InvalidTime,
        ),
        entry_text_error(epg) is None && start_time is Some && end_time is Some && archive_error(
            epg,
            url@,
            stream_id@,
        ) is Some ==> r == Err::<EPG, Error>(archive_error(epg, url@, stream_id@)->0),
        entry_error(epg, url@, stream_id@) is None && start_time is Some && end_time is Some ==> r is Ok,
        r is Ok ==> epg_fields(r->Ok_0, epg, url@, stream_id@) && start_time is Some && end_time is Some
            && r->Ok_0.start_time == start_time->0 && r->Ok_0.end_time == end_time->0,
{
    let title = match decode_text(epg.title.as_str()) {
        Ok(t) => t,
        Err(e) => {
            return Err(e);
        },
    };
    let description = match decode_text(epg.description.as_str()) {
        Ok(t) => t,
        Err(e) => {
            return Err(e);
        },
    };
    let start_timestamp = match parse_i64(epg.start_timestamp.as_str()) {
        Some(t) => t,
        None => {
            return Err(Error::InvalidNumber);
        },
    };
    let stop_timestamp = match parse_i64(epg.stop_timestamp.as_str()) {
        Some(t) => t,
        None => {
            return Err(Error::InvalidNumber);
        },
    };
    let start_time = match start_time {
        Some(t) => t,
        None => {
            return Err(Error::InvalidTime);
        },
    };
    let end_time = match end_time {
        Some(t) => t,
        None => {
            return Err(Error::InvalidTime);
        },
    };
    let has_archive = epg.has_archive == 1;
    let timeshift_url = if has_archive {
        match get_timeshift_url(url, epg.start.as_str(), epg.end.as_str(), stream_id) {
            Ok(u) => Some(u),
            Err(e) => {
                return Err(e);
            },
        }
    } else {
        None
    };
    Ok(
        EPG {
            epg_id: epg.id,
            title: title,
            description: description,
            start_time: start_time,
            start_timestamp: start_timestamp,
            end_time: end_time,
            stop_timestamp: stop_timestamp,
            timeshift_url: timeshift_url,
            has_archive: has_archive,
            now_playing: epg.now_playing == 1,
        },
    )
}

/// Turns a listing entry into a guide entry. Titles and descriptions come
/// base64-encoded; start and stop are written in local time; archived
/// entries get a timeshift URL on `url`. Whether a time can be written in
/// the machine's time zone is not known here, so an entry free of errors
/// may still fail with `InvalidTime`.
pub fn xtream_epg_to_epg(epg: XtreamEPGItem, url: &str, stream_id: &str) -> (r: Result<EPG, Error>)
    ensures
        entry_text_error(epg) is Some ==> r == Err::<EPG, Error>(entry_text_error(epg)->0),
        r == Err::<EPG, Error>(Error::InvalidText) <==> entry_text_error(epg) == Some(Error::InvalidText),
        r == Err::<EPG, Error>(Error::InvalidNumber) <==> entry_text_error(epg) == Some(Error::InvalidNumber),
        entry_text_error(epg) is None && archive_error(epg, url@, stream_id@) is Some ==> r == Err::<EPG, Error>(
            archive_error(epg, url@, stream_id@)->0,
        ) || r == Err::<EPG, Error>(Error::InvalidTime),
        entry_error(epg, url@, stream_id@) is None ==> r is Ok || r == Err::<EPG, Error>(Error::InvalidTime),
        r is Ok ==> epg_fields(r->Ok_0, epg, url@, stream_id@),
{
    let start_time = match parse_i64(epg.start_timestamp.as_str()) {
        Some(t) => local_time_text(t, DISPLAY_TIME_FORMAT),
        None => None,
    };
    let end_time = match parse_i64(epg.stop_timestamp.as_str()) {
        Some(t) => local_time_text(t, DISPLAY_TIME_FORMAT),
        None => None,
    };
    epg_from_times(epg, url, stream_id, start_time, end_time)
}

/// Whether a listing entry, once converted, is worth showing at time `now`.
pub open spec fn item_usable(item: XtreamEPGItem, now: i64) -> bool {
    !(signed_value(item.stop_timestamp@)->0 < now && item.has_archive != 1 && item.now_playing != 1)
}

/// The ids of the listing entries that are kept, in listing order.
pub open spec fn kept_ids(items: Seq<XtreamEPGItem>, now: i64) -> Seq<Seq<char>>
    decreases items.len(),
{
    if items.len() == 0 {
        Seq::empty()
    } else {
        let prev = kept_ids(items.drop_last(), now);
        if item_usable(items.last(), now) {
            prev.push(items.last().id@)
        } else {
            prev
        }
    }
}

pub open spec fn epg_ids(es: Seq<EPG>) -> Seq<Seq<char>> {
    es.map_values(|e: EPG| e.epg_id@)
}

/// The guide of a stream from its listing: every entry is converted, and
/// those not worth showing at time `now` are left out. An entry that cannot
/// be converted fails the whole listing.
pub fn get_epg(listings: Vec<XtreamEPGItem>, url: &str, stream_id: &str, now: i64) -> (r: Result<Vec<EPG>, Error>)
    ensures
        (exists|j: int| 0 <= j < listings@.len() && (#[trigger] entry_error(listings@[j], url@, stream_id@)) is Some)
            ==> r is Err,
        (forall|j: int| 0 <= j < listings@.len() ==> (#[trigger] entry_error(listings@[j], url@, stream_id@)) is None)
            ==> r is Ok || r == Err::<Vec<EPG>, Error>(Error::InvalidTime),
        r is Err ==> r->Err_0 == Error::InvalidTime || exists|j: int|
            0 <= j < listings@.len() && #[trigger] entry_error(listings@[j], url@, stream_id@) == Some(r->Err_0),
        r is Ok ==> forall|i: int| 0 <= i < r->Ok_0@.len() ==> epg_usable(#[trigger] r->Ok_0@[i], now),
        r is Ok ==> epg_ids(r->Ok_0@) == kept_ids(listings@, now),
{
    let mut out: Vec<EPG> = Vec::new();
    let mut rest = listings;
    let ghost all = rest@;
    let ghost n = all.len();
    while rest.len() > 0
        invariant
            n == all.len(),
            all == listings@,
            rest@.len() <= n,
            rest@ == all.subrange(n - rest@.len(), n as int),
            forall|i: int| 0 <= i < out@.len() ==> epg_usable(#[trigger] out@[i], now),
            epg_ids(out@) == kept_ids(all.subrange(0, n - rest@.len()), now),
            forall|j: int| 0 <= j < n - rest@.len() ==> (#[trigger] entry_error(all[j], url@, stream_id@)) is None,
        decreases rest@.len(),
    {
        let ghost k = n - rest@.len();
        let ghost before = rest@;
        let item = rest.remove(0);
        proof {
            assert(before[0] == all.subrange(k, n as int)[0]);
            assert(rest@ =~= all.subrange(k + 1, n as int));
            assert(all.subrange(0, k + 1).drop_last() =~= all.subrange(0, k));
            assert(all.subrange(0, k + 1).last() == item);
            assert(item == all[k]);
        }
        let ghost it = item;
        let e = match xtream_epg_to_epg(item, url, stream_id) {
            Ok(e) => e,
            Err(err) => {
                proof {
                    if entry_error(it, url@, stream_id@) is None {
                        assert(err == Error::InvalidTime);
                    } else {
                        assert(entry_error(all[k], url@, stream_id@) == Some(err) || err == Error::InvalidTime);
                    }
                }
                return Err(err);
            },
        };
        let ghost prev_out = out@;
        if is_valid_epg(&e, now) {
            out.push(e);
            assert(epg_ids(out@) =~= epg_ids(prev_out).push(e.epg_id@));
        }
        assert(epg_usable(e, now) == item_usable(it, now));
        assert(epg_ids(out@) =~= kept_ids(all.subrange(0, k + 1), now));
    }
    assert(all.subrange(0, n as int) =~= all);
    Ok(out)
}

} // verus!
