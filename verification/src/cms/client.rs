//! How the content management system is asked, and what its answers mean.

use vstd::prelude::*;
use vstd::string::*;
use vstd::utf8::encode_utf8;

use crate::settings::AppSettings;
use crate::text::{
    ends_with, has_suffix, is_blank, opt_text, to_chars, trim_trailing, trimmed, without_trailing,
};

verus! {

/// Whether a byte stands for itself in a URL.
pub open spec fn unreserved(b: u8) -> bool {
    ||| 0x30 <= b <= 0x39
    ||| 0x41 <= b <= 0x5a
    ||| 0x61 <= b <= 0x7a
    ||| b == 0x2d
    ||| b == 0x2e
    ||| b == 0x5f
    ||| b == 0x7e
}

/// The hexadecimal digit for `n`, as a capital.
pub open spec fn upper_hex_digit(n: int) -> char {
    if n < 10 {
        ((0x30 + n) as u32) as char
    } else {
        ((0x37 + n) as u32) as char
    }
}

/// Bytes as they stand in a URL: letters, digits and `-._~` as they are, every other byte as `%`
/// and two hexadecimal digits.
pub open spec fn percent_encoded(bytes: Seq<u8>) -> Seq<char>
    decreases bytes.len(),
{
    if bytes.len() == 0 {
        Seq::empty()
    } else {
        let before = percent_encoded(bytes.drop_last());
        let b = bytes.last();
        if unreserved(b) {
            before.push((b as u32) as char)
        } else {
            before + seq!['%', upper_hex_digit(b as int / 16), upper_hex_digit(b as int % 16)]
        }
    }
}

/// `urlencoding::encode`: the UTF-8 bytes of a text as they stand in a URL.
#[verifier::external_body]
fn url_encode(text: &str) -> (r: String)
    ensures
        r@ == percent_encoded(encode_utf8(text@)),
{
    urlencoding::encode(text).into_owned()
}

/// What one playback looked like beyond what its log says.
#[derive(Debug)]
pub struct PlaybackLogExtra {
    pub scene_id: String,
    pub schedule_id: i64,
    pub playlist_id: i64,
    pub item_id: i64,
    pub scheduled_start_time_millis: i64,
    pub scheduled_end_time_millis: i64,
}

/// The log of one playback.
#[derive(Debug)]
pub struct PlaybackLogItem {
    pub device_id: String,
    pub content_type: String,
    pub content_id: i64,
    pub started_at: String,
    pub ended_at: String,
    pub completed: bool,
    pub extra: PlaybackLogExtra,
}

/// Model of [`PlaybackLogExtra`].
#[verifier::ext_equal]
pub struct PlaybackLogExtraView {
    pub scene_id: Seq<char>,
    pub schedule_id: i64,
    pub playlist_id: i64,
    pub item_id: i64,
    pub scheduled_start_time_millis: i64,
    pub scheduled_end_time_millis: i64,
}

/// Model of a [`PlaybackLogItem`].
#[verifier::ext_equal]
pub struct PlaybackLogItemView {
    pub device_id: Seq<char>,
    pub content_type: Seq<char>,
    pub content_id: i64,
    pub started_at: Seq<char>,
    pub ended_at: Seq<char>,
    pub completed: bool,
    pub extra: PlaybackLogExtraView,
}

impl View for PlaybackLogExtra {
    type V = PlaybackLogExtraView;

    open spec fn view(&self) -> PlaybackLogExtraView {
        PlaybackLogExtraView {
            scene_id: self.scene_id@,
            schedule_id: self.schedule_id,
            playlist_id: self.playlist_id,
            item_id: self.item_id,
            scheduled_start_time_millis: self.scheduled_start_time_millis,
            scheduled_end_time_millis: self.scheduled_end_time_millis,
        }
    }
}

impl View for PlaybackLogItem {
    type V = PlaybackLogItemView;

    open spec fn view(&self) -> PlaybackLogItemView {
        PlaybackLogItemView {
            device_id: self.device_id@,
            content_type: self.content_type@,
            content_id: self.content_id,
            started_at: self.started_at@,
            ended_at: self.ended_at@,
            completed: self.completed,
            extra: self.extra@,
        }
    }
}

impl Clone for PlaybackLogItem {
    fn clone(&self) -> (r: Self)
        ensures
            r@ == self@,
    {
        PlaybackLogItem {
            device_id: self.device_id.clone(),
            content_type: self.content_type.clone(),
            content_id: self.content_id,
            started_at: self.started_at.clone(),
            ended_at: self.ended_at.clone(),
            completed: self.completed,
            extra: PlaybackLogExtra {
                scene_id: self.extra.scene_id.clone(),
                schedule_id: self.extra.schedule_id,
                playlist_id: self.extra.playlist_id,
                item_id: self.extra.item_id,
                scheduled_start_time_millis: self.extra.scheduled_start_time_millis,
                scheduled_end_time_millis: self.extra.scheduled_end_time_millis,
            },
        }
    }
}

/// The token that requests carry: none where it is blank.
pub open spec fn token_of(auth_token: Seq<char>) -> Option<Seq<char>> {
    if trimmed(auth_token).len() == 0 {
        None
    } else {
        Some(auth_token)
    }
}

/// The token that requests carry: none where it is blank.
pub fn request_token(auth_token: &str) -> (r: Option<String>)
    ensures
        opt_text(r) == token_of(auth_token@),
{
    if is_blank(auth_token) {
        None
    } else {
        Some(auth_token.to_owned())
    }
}

/// The value of the header that authorises requests.
pub open spec fn bearer(token: Option<Seq<char>>) -> Option<Seq<char>> {
    match token {
        Some(t) => Some("Bearer "@ + t),
        None => None,
    }
}

/// The value of the header that authorises requests.
pub fn bearer_header(token: &Option<String>) -> (r: Option<String>)
    ensures
        opt_text(r) == bearer(opt_text(*token)),
{
    match token {
        Some(t) => {
            let mut value: String = "Bearer ".to_owned();
            value.append(t.as_str());
            Some(value)
        },
        None => None,
    }
}

/// Asks the content management system.
#[derive(Debug)]
pub struct CmsApiClient {
    base_url: String,
    auth_token: Option<String>,
}

/// Where the interface of the content management system begins.
pub open spec fn api_root_of(base_url: Seq<char>) -> Seq<char> {
    if has_suffix(base_url, "/api"@) {
        base_url
    } else {
        base_url + "/api"@
    }
}

/// Where the schedule of a device for a date is found.
pub open spec fn play_data_url_of(root: Seq<char>, device_id: Seq<char>, date: Seq<char>) -> Seq<
    char,
> {
    root + "/v1/playback/play_data?device_id="@ + percent_encoded(encode_utf8(device_id))
        + "&date="@ + percent_encoded(encode_utf8(date))
}

impl CmsApiClient {
    /// The address, without slashes at its end.
    pub closed spec fn base(self) -> Seq<char> {
        self.base_url@
    }

    /// The token that requests carry.
    pub closed spec fn token(self) -> Option<Seq<char>> {
        opt_text(self.auth_token)
    }

    /// Asks the content management system of these settings.
    pub fn new(settings: &AppSettings) -> (r: CmsApiClient)
        ensures
            r.base() == without_trailing(settings@.cms_base_url, '/'),
            r.token() == token_of(settings@.auth_token),
    {
        CmsApiClient {
            base_url: trim_trailing(settings.cms_base_url.as_str(), '/'),
            auth_token: request_token(settings.auth_token.as_str()),
        }
    }

    /// Where the interface begins, whether or not the address names it.
    pub fn api_root(&self) -> (r: String)
        ensures
            r@ == api_root_of(self.base()),
    {
        let mut root: String = self.base_url.clone();
        if !ends_with(self.base_url.as_str(), "/api") {
            root.append("/api");
        }
        root
    }

    /// Where the schedule of a device for a date is found.
    pub fn play_data_url(&self, device_id: &str, date: &str) -> (r: String)
        ensures
            r@ == play_data_url_of(api_root_of(self.base()), device_id@, date@),
    {
        let mut url: String = self.api_root();
        url.append("/v1/playback/play_data?device_id=");
        url.append(url_encode(device_id).as_str());
        url.append("&date=");
        url.append(url_encode(date).as_str());
        url
    }

    /// Where logs of playback are sent.
    pub fn playback_logs_url(&self) -> (r: String)
        ensures
            r@ == api_root_of(self.base()) + "/v1/playback-logs/batch"@,
    {
        let mut url: String = self.api_root();
        url.append("/v1/playback-logs/batch");
        url
    }

    /// The value of the header that authorises requests.
    pub fn authorization(&self) -> (r: Option<String>)
        ensures
            opt_text(r) == bearer(self.token()),
    {
        bearer_header(&self.auth_token)
    }
}

/// Whether an HTTP status says that a request went well.
pub open spec fn status_ok(code: u16) -> bool {
    200 <= code < 300
}

/// What is reported of an answer that says a request did not go well.
pub open spec fn failure_text(prefix: Seq<char>, status: Seq<char>, body: Seq<char>) -> Seq<char> {
    prefix + status + " "@ + body
}

/// What an answer to a request means: whether it went well, and else what is reported. `status` is
/// how the status `code` is written.
pub fn check_answer(prefix: &str, code: u16, status: &str, body: &str) -> (r: Result<(), String>)
    ensures
        match r {
            Ok(_) => status_ok(code),
            Err(text) => !status_ok(code) && text@ == failure_text(prefix@, status@, body@),
        },
{
    if 200 <= code && code < 300 {
        return Ok(());
    }
    let mut text: String = prefix.to_owned();
    text.append(status);
    text.append(" ");
    text.append(body);
    Err(text)
}

/// What an answer to a question for data means.
pub fn check_get_answer(code: u16, status: &str, body: &str) -> (r: Result<(), String>)
    ensures
        match r {
            Ok(_) => status_ok(code),
            Err(text) => !status_ok(code) && text@ == failure_text(
                "CMS request failed: "@,
                status@,
                body@,
            ),
        },
{
    check_answer("CMS request failed: ", code, status, body)
}

/// What an answer to data that was sent means.
pub fn check_post_answer(code: u16, status: &str, body: &str) -> (r: Result<(), String>)
    ensures
        match r {
            Ok(_) => status_ok(code),
            Err(text) => !status_ok(code) && text@ == failure_text(
                "CMS POST request failed: "@,
                status@,
                body@,
            ),
        },
{
    check_answer("CMS POST request failed: ", code, status, body)
}

/// Most characters of an answer that a log shows.
pub const PREVIEW_CHARS: usize = 512;

/// A line break as a blank, every other character as it is.
pub open spec fn unbroken(c: char) -> char {
    if c == '\r' || c == '\n' {
        ' '
    } else {
        c
    }
}

/// The beginning of an answer on one line.
pub open spec fn preview_of(body: Seq<char>) -> Seq<char> {
    if body.len() > PREVIEW_CHARS {
        body.take(PREVIEW_CHARS as int).push('\u{2026}').map_values(|c: char| unbroken(c))
    } else {
        body.map_values(|c: char| unbroken(c))
    }
}

/// The beginning of an answer on one line, for a log.
pub fn body_preview(body: &str) -> (r: String)
    ensures
        r@ == preview_of(body@),
{
    let chars: Vec<char> = to_chars(body);
    let n: usize = if chars.len() > PREVIEW_CHARS {
        PREVIEW_CHARS
    } else {
        chars.len()
    };
    let mut out: String = String::new();
    let mut i: usize = 0;
    while i < n
        invariant
            i <= n <= chars@.len(),
            out@ == chars@.take(i as int).map_values(|c: char| unbroken(c)),
        decreases n - i,
    {
        let c: char = chars[i];
        let ghost before = out@;
        if c == '\r' || c == '\n' {
            out.push(' ');
        } else {
            out.push(c);
        }
        assert(out@ =~= chars@.take(i + 1).map_values(|c: char| unbroken(c)));
        i = i + 1;
    }
    if chars.len() > PREVIEW_CHARS {
        out.push('\u{2026}');
    } else {
        assert(chars@.take(i as int) =~= chars@);
    }
    assert(out@ =~= preview_of(body@));
    out
}

/// Whether the address of the content management system names its interface or not, what is asked
/// for is the same.
pub proof fn api_root_is_stable(base_url: Seq<char>)
    ensures
        api_root_of(api_root_of(base_url)) == api_root_of(base_url),
        has_suffix(api_root_of(base_url), "/api"@),
{
    let root = base_url + "/api"@;
    assert(root.subrange(root.len() - "/api"@.len(), root.len() as int) =~= "/api"@);
}

/// What is logged of an answer is one line and short.
pub proof fn previews_are_short_lines(body: Seq<char>)
    ensures
        preview_of(body).len() <= PREVIEW_CHARS + 1,
        !preview_of(body).contains('\r'),
        !preview_of(body).contains('\n'),
{
}

/// The model of a log says what the log says.
pub proof fn log_models_are_faithful(item: PlaybackLogItem)
    ensures
        item@.device_id == item.device_id@,
        item@.content_type == item.content_type@,
        item@.content_id == item.content_id,
        item@.started_at == item.started_at@,
        item@.ended_at == item.ended_at@,
        item@.completed == item.completed,
        item@.extra.scene_id == item.extra.scene_id@,
        item@.extra.schedule_id == item.extra.schedule_id,
        item@.extra.playlist_id == item.extra.playlist_id,
        item@.extra.item_id == item.extra.item_id,
        item@.extra.scheduled_start_time_millis == item.extra.scheduled_start_time_millis,
        item@.extra.scheduled_end_time_millis == item.extra.scheduled_end_time_millis,
{
}

/// A request went well exactly where its status is one of the two hundreds.
pub proof fn requests_go_well_in_the_two_hundreds(code: u16)
    ensures
        status_ok(code) <==> 200 <= code <= 299,
        status_ok(code) <==> code as int / 100 == 2,
{
}

/// The schedule is asked for at the interface, by the device and then the date, each as it stands in a
/// URL. An address that names the interface is where it begins; to another its name is added.
pub proof fn schedules_are_asked_for_by_device_and_date(
    host: Seq<char>,
    device_id: Seq<char>,
    date: Seq<char>,
)
    ensures
        api_root_of(host + "/api"@) == host + "/api"@,
        !has_suffix(host, "/api"@) ==> api_root_of(host) == host + "/api"@,
        play_data_url_of(api_root_of(host + "/api"@), device_id, date) == host
            + "/api/v1/playback/play_data?device_id="@ + percent_encoded(encode_utf8(device_id))
            + "&date="@ + percent_encoded(encode_utf8(date)),
{
    let root = host + "/api"@;
    assert(root.subrange(root.len() - "/api"@.len(), root.len() as int) =~= "/api"@);
    reveal_strlit("/api");
    reveal_strlit("/v1/playback/play_data?device_id=");
    reveal_strlit("/api/v1/playback/play_data?device_id=");
    assert("/api"@ + "/v1/playback/play_data?device_id="@
        =~= "/api/v1/playback/play_data?device_id="@);
    assert(root + "/v1/playback/play_data?device_id="@ =~= host + ("/api"@
        + "/v1/playback/play_data?device_id="@));
}

/// Requests carry the token of the settings behind the word `Bearer`, and none where it is blank.
pub proof fn requests_carry_the_token(auth_token: Seq<char>)
    ensures
        trimmed(auth_token).len() == 0 ==> bearer(token_of(auth_token)) is None,
        trimmed(auth_token).len() > 0 ==> bearer(token_of(auth_token)) == Some(
            "Bearer "@ + auth_token,
        ),
{
}

/// Of an answer a log shows the first five hundred and twelve characters, line breaks as blanks, and
/// an ellipsis where there are more.
pub proof fn previews_show_the_beginning(body: Seq<char>, i: int)
    requires
        0 <= i < body.len(),
        i < 512,
    ensures
        preview_of(body).len() == if body.len() > 512 {
            513
        } else {
            body.len() as int
        },
        preview_of(body)[i] == if body[i] == '\r' || body[i] == '\n' {
            ' '
        } else {
            body[i]
        },
        body.len() > 512 ==> preview_of(body)[512] == '\u{2026}',
{
}

/// In a URL letters, digits and the four marks `-`, `.`, `_` and `~` stand as they are. Any other byte
/// stands as a percent sign and two digits, large letters for ten to fifteen, the sixteens first.
pub proof fn bytes_stand_in_urls_by_two_digits(bytes: Seq<u8>, b: u8)
    ensures
        percent_encoded(Seq::empty()) == Seq::<char>::empty(),
        ({
            let c = b as char;
            let plain = 'a' <= c <= 'z' || 'A' <= c <= 'Z' || '0' <= c <= '9' || c == '-' || c == '.'
                || c == '_' || c == '~';
            let before = percent_encoded(bytes);
            let after = percent_encoded(bytes.push(b));
            &&& plain ==> after.len() == before.len() + 1 && after.last() == c
            &&& !plain ==> {
                let high = after[after.len() - 2] as int;
                let low = after[after.len() - 1] as int;
                &&& after.len() == before.len() + 3
                &&& after[after.len() - 3] == '%'
                &&& b / 16 < 10 ==> high == 48 + b / 16
                &&& b / 16 >= 10 ==> high == 55 + b / 16
                &&& b % 16 < 10 ==> low == 48 + b % 16
                &&& b % 16 >= 10 ==> low == 55 + b % 16
            }
            &&& after.take(before.len() as int) == before
        }),
{
    assert(bytes.push(b).drop_last() =~= bytes);
    assert(percent_encoded(bytes.push(b)).take(percent_encoded(bytes).len() as int)
        =~= percent_encoded(bytes));
}

/// What is said of a request that failed is what it was, the status, and then the answer.
pub proof fn failed_requests_tell_status_and_answer(
    prefix: Seq<char>,
    status: Seq<char>,
    body: Seq<char>,
)
    ensures
        failure_text(prefix, status, body) == prefix + status + " "@ + body,
{
}
} // verus!
