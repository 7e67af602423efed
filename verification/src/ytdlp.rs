//! Local yt-dlp downloads: video identifiers, file names, formats, the
//! command line, and the reading of what yt-dlp prints.
use vstd::prelude::*;
use crate::settings::Settings;
use crate::sizes::{parse_size_to_bytes, size_bytes_spec};
use crate::text::{
    before_stop, before_stop_exec, chars_of, contains, contains_str, ends_with, ends_with_str,
    eq_ignore_ascii_case, eq_ignore_ascii_case_exec, find, find_from, find_from_exec, find_str,
    is_digit, is_ws, lines, lower_ascii_seq, lower_ascii_vec, lowercase, push_all, push_str,
    slice_of, split_lines, split_words, str_eq, string_of, to_lowercase, trim, trim_vec, words,
};

verus! {

// ---------------------------------------------------------------------------
// Video identifiers
// ---------------------------------------------------------------------------

/// The YouTube video id of a link: after `v=` up to `&`, `#` or `/`, else
/// after `youtu.be/` up to `?`, `#` or `/`; the first one that is not empty.
pub open spec fn youtube_video_id_spec(url: Seq<char>) -> Option<Seq<char>> {
    let from_query = match find(url, "v="@) {
        Some(p) => before_stop(url.skip(p + 2), seq!['&', '#', '/'], false),
        None => Seq::empty(),
    };
    let from_short = match find(url, "youtu.be/"@) {
        Some(p) => before_stop(url.skip(p + 9), seq!['?', '#', '/'], false),
        None => Seq::empty(),
    };
    if from_query.len() > 0 {
        Some(from_query)
    } else if from_short.len() > 0 {
        Some(from_short)
    } else {
        None
    }
}

fn id_after(url: &Vec<char>, marker: &str, skip: usize, stops: &Vec<char>) -> (r: Vec<char>)
    ensures
        marker@.len() == skip ==> r@ == match find(url@, marker@) {
            Some(p) => before_stop(url@.skip(p + skip), stops@, false),
            None => Seq::empty(),
        },
{
    match find_str(url, marker) {
        Some(p) => {
            proof {
                crate::text::lemma_find_from(url@, marker@, 0);
            }
            if marker.unicode_len() != skip {
                return Vec::new();
            }
            let n = url.len();
            assert(p + skip <= n);
            let rest = slice_of(url, p + skip, n);
            before_stop_exec(&rest, stops, false)
        },
        None => Vec::new(),
    }
}

pub fn youtube_video_id(url: &str) -> (r: Option<String>)
    ensures
        match youtube_video_id_spec(url@) {
            Some(id) => r is Some && r->0@ == id,
            None => r is None,
        },
{
    proof {
        reveal_strlit("v=");
        reveal_strlit("youtu.be/");
    }
    let u = chars_of(url);
    let stops1 = vec!['&', '#', '/'];
    let stops2 = vec!['?', '#', '/'];
    proof {
        assert(stops1@ == seq!['&', '#', '/']);
        assert(stops2@ == seq!['?', '#', '/']);
    }
    let a = id_after(&u, "v=", 2, &stops1);
    if a.len() > 0 {
        return Some(string_of(a.as_slice()));
    }
    let b = id_after(&u, "youtu.be/", 9, &stops2);
    if b.len() > 0 {
        return Some(string_of(b.as_slice()));
    }
    None
}

/// A Bilibili video id: from the first `BV` (else the first `av`) up to
/// `?`, `#`, `/`, `&` or whitespace, when something follows the marker.
pub open spec fn bilibili_id_for(url: Seq<char>, marker: Seq<char>) -> Option<Seq<char>> {
    match find(url, marker) {
        Some(p) => {
            let id = before_stop(url.skip(p), seq!['?', '#', '/', '&'], true);
            if id.len() > marker.len() {
                Some(id)
            } else {
                None
            }
        },
        None => None,
    }
}

pub open spec fn bilibili_video_id_spec(url: Seq<char>) -> Option<Seq<char>> {
    match bilibili_id_for(url, "BV"@) {
        Some(id) => Some(id),
        None => bilibili_id_for(url, "av"@),
    }
}

fn bilibili_id_for_exec(url: &Vec<char>, marker: &str) -> (r: Option<Vec<char>>)
    ensures
        match bilibili_id_for(url@, marker@) {
            Some(id) => r is Some && r->0@ == id,
            None => r is None,
        },
{
    let stops = vec!['?', '#', '/', '&'];
    assert(stops@ == seq!['?', '#', '/', '&']);
    match find_str(url, marker) {
        Some(p) => {
            proof {
                crate::text::lemma_find_from(url@, marker@, 0);
            }
            let rest = slice_of(url, p, url.len());
            let id = before_stop_exec(&rest, &stops, true);
            if id.len() > marker.unicode_len() {
                Some(id)
            } else {
                None
            }
        },
        None => None,
    }
}

pub fn bilibili_video_id(url: &str) -> (r: Option<String>)
    ensures
        match bilibili_video_id_spec(url@) {
            Some(id) => r is Some && r->0@ == id,
            None => r is None,
        },
{
    let u = chars_of(url);
    match bilibili_id_for_exec(&u, "BV") {
        Some(id) => Some(string_of(id.as_slice())),
        None => match bilibili_id_for_exec(&u, "av") {
            Some(id) => Some(string_of(id.as_slice())),
            None => None,
        },
    }
}

// ---------------------------------------------------------------------------
// Formats
// ---------------------------------------------------------------------------

pub open spec fn is_ytdlp_audio_format(f: Seq<char>) -> bool {
    f == "mp3"@ || f == "ogg"@ || f == "wav"@ || f == "opus"@ || f == "m4a"@
}

/// The audio format asked of yt-dlp: the configured one when yt-dlp can
/// produce it, else `m4a`.
pub open spec fn ytdlp_audio_format_spec(configured: Seq<char>) -> Seq<char> {
    if is_ytdlp_audio_format(configured) {
        configured
    } else {
        "m4a"@
    }
}

/// yt-dlp is only ever asked for an audio format it can produce.
pub proof fn lemma_ytdlp_audio_format_supported(configured: Seq<char>)
    ensures
        is_ytdlp_audio_format(ytdlp_audio_format_spec(configured)),
{
}

pub fn ytdlp_audio_format(settings: &Settings) -> (r: String)
    ensures
        r@ == ytdlp_audio_format_spec(settings.audio_format@),
{
    let f = chars_of(settings.audio_format.as_str());
    if str_eq(&f, "mp3") || str_eq(&f, "ogg") || str_eq(&f, "wav") || str_eq(&f, "opus")
        || str_eq(&f, "m4a") {
        settings.audio_format.clone()
    } else {
        "m4a".to_string()
    }
}

/// The yt-dlp format selector.
pub open spec fn ytdlp_format_spec(download_mode: Seq<char>, video_quality: Seq<char>) -> Seq<char> {
    if download_mode == "audio"@ {
        "bestaudio/best"@
    } else if video_quality == "max"@ {
        "best[ext=mp4]/best"@
    } else {
        "bestvideo[height<="@ + video_quality + "][ext=mp4]+bestaudio[ext=m4a]/best[height<="@
            + video_quality + "][ext=mp4]/18/best"@
    }
}

pub fn ytdlp_format(settings: &Settings) -> (r: String)
    ensures
        r@ == ytdlp_format_spec(settings.download_mode@, settings.video_quality@),
{
    let mode = chars_of(settings.download_mode.as_str());
    if str_eq(&mode, "audio") {
        return "bestaudio/best".to_string();
    }
    let q = chars_of(settings.video_quality.as_str());
    if str_eq(&q, "max") {
        return "best[ext=mp4]/best".to_string();
    }
    let mut v = chars_of("bestvideo[height<=");
    push_all(&mut v, &q);
    push_str(&mut v, "][ext=mp4]+bestaudio[ext=m4a]/best[height<=");
    push_all(&mut v, &q);
    push_str(&mut v, "][ext=mp4]/18/best");
    string_of(v.as_slice())
}

// ---------------------------------------------------------------------------
// Error text
// ---------------------------------------------------------------------------

/// The last line of `ls` that contains `needle`.
pub open spec fn last_line_containing(ls: Seq<Seq<char>>, needle: Seq<char>) -> Option<Seq<char>>
    decreases ls.len(),
{
    if ls.len() == 0 {
        None
    } else if contains(ls.last(), needle) {
        Some(ls.last())
    } else {
        last_line_containing(ls.drop_last(), needle)
    }
}

/// The last line of `ls` that is not blank.
pub open spec fn last_nonblank_line(ls: Seq<Seq<char>>) -> Option<Seq<char>>
    decreases ls.len(),
{
    if ls.len() == 0 {
        None
    } else if trim(ls.last()).len() > 0 {
        Some(ls.last())
    } else {
        last_nonblank_line(ls.drop_last())
    }
}

/// What a failed yt-dlp run is reported as: a hint for the known cookie and
/// login failures, else yt-dlp's last `ERROR:` line, else its last line.
pub open spec fn ytdlp_error_text_spec(stderr: Seq<char>) -> Seq<char> {
    let lower = lowercase(stderr);
    if contains(lower, "sign in to confirm"@) || contains(lower, "not a bot"@) {
        "YouTube requires local browser cookies. Please log in to YouTube in Chrome/Safari and try again."@
    } else if contains(lower, "cookies are no longer valid"@) {
        "Local YouTube cookies are expired. Please refresh browser login and try again."@
    } else if contains(lower, "http error 412"@) || contains(lower, "precondition failed"@) {
        "Bilibili rejected this request with HTTP 412. Please open Bilibili in Chrome, refresh the page, then retry."@
    } else if contains(lower, "login"@) || contains(lower, "not logged in"@) || contains(
        lower,
        "请先登录"@,
    ) || contains(lower, "登录"@) {
        "Bilibili login cookies were not accepted. Please make sure Bilibili is logged in with the active Chrome profile."@
    } else {
        match last_line_containing(lines(stderr), "ERROR:"@) {
            Some(l) => trim(l),
            None => match last_nonblank_line(lines(stderr)) {
                Some(l) => trim(l),
                None => "Local yt-dlp download failed"@,
            },
        }
    }
}

fn last_line_containing_exec(ls: &Vec<Vec<char>>, needle: &str) -> (r: Option<usize>)
    ensures
        match last_line_containing(ls.deep_view(), needle@) {
            Some(l) => r is Some && r->0 < ls.len() && ls@[r->0 as int]@ == l,
            None => r is None,
        },
{
    let mut i = ls.len();
    assert(ls.deep_view().take(ls.len() as int) == ls.deep_view());
    while i > 0
        invariant
            i <= ls.len(),
            last_line_containing(ls.deep_view().take(i as int), needle@) == last_line_containing(
                ls.deep_view(),
                needle@,
            ),
        decreases i,
    {
        proof {
            crate::text::lemma_deep_view_chars(&ls[i - 1]);
            let t = ls.deep_view().take(i as int);
            assert(t.drop_last() == ls.deep_view().take(i - 1));
            assert(t.last() == ls@[i - 1]@);
        }
        if contains_str(&ls[i - 1], needle) {
            return Some(i - 1);
        }
        i -= 1;
    }
    assert(ls.deep_view().take(0) =~= Seq::<Seq<char>>::empty());
    None
}

fn last_nonblank_line_exec(ls: &Vec<Vec<char>>) -> (r: Option<usize>)
    ensures
        match last_nonblank_line(ls.deep_view()) {
            Some(l) => r is Some && r->0 < ls.len() && ls@[r->0 as int]@ == l,
            None => r is None,
        },
{
    let mut i = ls.len();
    assert(ls.deep_view().take(ls.len() as int) == ls.deep_view());
    while i > 0
        invariant
            i <= ls.len(),
            last_nonblank_line(ls.deep_view().take(i as int)) == last_nonblank_line(
                ls.deep_view(),
            ),
        decreases i,
    {
        proof {
            crate::text::lemma_deep_view_chars(&ls[i - 1]);
            let t = ls.deep_view().take(i as int);
            assert(t.drop_last() == ls.deep_view().take(i - 1));
            assert(t.last() == ls@[i - 1]@);
        }
        if trim_vec(&ls[i - 1]).len() > 0 {
            return Some(i - 1);
        }
        i -= 1;
    }
    assert(ls.deep_view().take(0) =~= Seq::<Seq<char>>::empty());
    None
}

pub fn ytdlp_error_text(stderr: &str) -> (r: String)
    ensures
        r@ == ytdlp_error_text_spec(stderr@),
{
    let lower = chars_of(to_lowercase(stderr).as_str());
    if contains_str(&lower, "sign in to confirm") || contains_str(&lower, "not a bot") {
        return "YouTube requires local browser cookies. Please log in to YouTube in Chrome/Safari and try again.".to_string();
    }
    if contains_str(&lower, "cookies are no longer valid") {
        return "Local YouTube cookies are expired. Please refresh browser login and try again.".to_string();
    }
    if contains_str(&lower, "http error 412") || contains_str(&lower, "precondition failed") {
        return "Bilibili rejected this request with HTTP 412. Please open Bilibili in Chrome, refresh the page, then retry.".to_string();
    }
    if contains_str(&lower, "login") || contains_str(&lower, "not logged in") || contains_str(
        &lower,
        "请先登录",
    ) || contains_str(&lower, "登录") {
        return "Bilibili login cookies were not accepted. Please make sure Bilibili is logged in with the active Chrome profile.".to_string();
    }
    let v = chars_of(stderr);
    let ls = split_lines(&v);
    match last_line_containing_exec(&ls, "ERROR:") {
        Some(k) => string_of(trim_vec(&ls[k]).as_slice()),
        None => match last_nonblank_line_exec(&ls) {
            Some(k) => string_of(trim_vec(&ls[k]).as_slice()),
            None => "Local yt-dlp download failed".to_string(),
        },
    }
}

// ---------------------------------------------------------------------------
// Progress lines
// ---------------------------------------------------------------------------

/// The text without its `'\r'` characters.
pub open spec fn without_cr(s: Seq<char>) -> Seq<char>
    decreases s.len(),
{
    if s.len() == 0 {
        Seq::empty()
    } else if s.last() == '\r' {
        without_cr(s.drop_last())
    } else {
        without_cr(s.drop_last()).push(s.last())
    }
}

fn without_cr_exec(v: &Vec<char>) -> (r: Vec<char>)
    ensures
        r@ == without_cr(v@),
{
    let mut r: Vec<char> = Vec::new();
    let mut i: usize = 0;
    while i < v.len()
        invariant
            i <= v.len(),
            r@ == without_cr(v@.take(i as int)),
        decreases v.len() - i,
    {
        proof {
            assert(v@.take(i + 1).drop_last() == v@.take(i as int));
            assert(v@.take(i + 1).last() == v@[i as int]);
        }
        if v[i] != '\r' {
            r.push(v[i]);
        }
        i += 1;
    }
    assert(v@.take(v.len() as int) == v@);
    r
}

/// The position of the last whitespace character before `j`.
pub open spec fn last_ws_before(s: Seq<char>, j: int) -> Option<int>
    decreases j,
{
    if j <= 0 || j > s.len() {
        None
    } else if is_ws(s[j - 1]) {
        Some(j - 1)
    } else {
        last_ws_before(s, j - 1)
    }
}

proof fn lemma_last_ws_before(s: Seq<char>, j: int)
    requires
        0 <= j <= s.len(),
    ensures
        last_ws_before(s, j) matches Some(k) ==> 0 <= k < j && is_ws(s[k]),
    decreases j,
{
    if j > 0 && !is_ws(s[j - 1]) {
        lemma_last_ws_before(s, j - 1);
    }
}

/// The trimmed line without `'\r'`, as a progress line is read.
pub open spec fn progress_text(line: Seq<char>) -> Seq<char> {
    trim(without_cr(line))
}

pub open spec fn is_progress_candidate(text: Seq<char>) -> bool {
    contains(text, "[download]"@) && contains(text, "%"@)
}

/// The whitespace before the percentage is a multi-byte character: reading
/// the percentage would cut that character (and panic).
pub open spec fn progress_split_inside_char(line: Seq<char>) -> bool {
    let text = progress_text(line);
    is_progress_candidate(text) && match find(text, "%"@) {
        Some(e) => match last_ws_before(text, e) {
            Some(k) => text[k] as u32 >= 0x80,
            None => false,
        },
        None => false,
    }
}

/// `s.split(sep).next()`: the text before the first `sep`.
pub open spec fn first_piece(s: Seq<char>, sep: Seq<char>) -> Seq<char> {
    match find(s, sep) {
        Some(a) => s.take(a),
        None => s,
    }
}

/// `s.split(sep).nth(1)`: the text between the first and the second `sep`.
pub open spec fn second_piece(s: Seq<char>, sep: Seq<char>) -> Option<Seq<char>> {
    match find(s, sep) {
        Some(a) => {
            let start = a + sep.len();
            match find_from(s, sep, start) {
                Some(b) => Some(s.subrange(start, b)),
                None => Some(s.skip(start)),
            }
        },
        None => None,
    }
}

pub open spec fn first_word_or_empty(s: Seq<char>) -> Seq<char> {
    if words(s).len() > 0 {
        words(s)[0]
    } else {
        Seq::empty()
    }
}

/// The pieces of a `[download]` progress line, as text: the percentage, the
/// total size after `" of "`, the speed after `" at "` (with `/s`), and the
/// first word after `" ETA "`.
pub struct ProgressText {
    pub percent: String,
    pub size: Option<String>,
    /// The total size in bytes (0 when none is given or it cannot be read).
    pub total_bytes: u64,
    pub speed: Option<String>,
    pub eta: Option<String>,
}

pub open spec fn opt_view(o: Option<String>) -> Option<Seq<char>> {
    match o {
        Some(s) => Some(s@),
        None => None,
    }
}

pub open spec fn progress_percent_spec(text: Seq<char>) -> Seq<char> {
    let e = find(text, "%"@)->0;
    let start = match last_ws_before(text, e) {
        Some(k) => k + 1,
        None => 0,
    };
    trim(text.subrange(start, e))
}

pub open spec fn progress_size_spec(text: Seq<char>) -> Option<Seq<char>> {
    match find(text, " of "@) {
        Some(p) => Some(first_word_or_empty(text.skip(p + 4))),
        None => None,
    }
}

pub open spec fn progress_total_bytes_spec(text: Seq<char>) -> u64 {
    match progress_size_spec(text) {
        Some(tok) => match size_bytes_spec(tok) {
            Some(b) => b,
            None => 0,
        },
        None => 0,
    }
}

pub open spec fn progress_speed_spec(text: Seq<char>) -> Option<Seq<char>> {
    match second_piece(text, " at "@) {
        Some(part) => {
            let t = trim(first_piece(part, " ETA "@));
            if t.len() == 0 {
                None
            } else if ends_with(t, "/s"@) {
                Some(t)
            } else {
                Some(t + "/s"@)
            }
        },
        None => None,
    }
}

pub open spec fn progress_eta_spec(text: Seq<char>) -> Option<Seq<char>> {
    match second_piece(text, " ETA "@) {
        Some(v) => if words(v).len() > 0 && trim(words(v)[0]).len() > 0 {
            Some(trim(words(v)[0]))
        } else {
            None
        },
        None => None,
    }
}

fn first_piece_exec(v: &Vec<char>, sep: &Vec<char>) -> (r: Vec<char>)
    ensures
        r@ == first_piece(v@, sep@),
{
    match crate::text::find_exec(v, sep) {
        Some(a) => {
            proof {
                crate::text::lemma_find_from(v@, sep@, 0);
            }
            slice_of(v, 0, a)
        },
        None => v.clone(),
    }
}

fn second_piece_exec(v: &Vec<char>, sep: &Vec<char>) -> (r: Option<Vec<char>>)
    ensures
        match second_piece(v@, sep@) {
            Some(p) => r is Some && r->0@ == p,
            None => r is None,
        },
{
    match crate::text::find_exec(v, sep) {
        Some(a) => {
            proof {
                crate::text::lemma_find_from(v@, sep@, 0);
            }
            let n = v.len();
            assert(a + sep.len() <= n);
            let start = a + sep.len();
            match find_from_exec(v, sep, start) {
                Some(b) => {
                    proof {
                        crate::text::lemma_find_from(v@, sep@, start as int);
                    }
                    Some(slice_of(v, start, b))
                },
                None => Some(slice_of(v, start, n)),
            }
        },
        None => None,
    }
}

fn first_word_or_empty_exec(v: &Vec<char>) -> (r: Vec<char>)
    ensures
        r@ == first_word_or_empty(v@),
{
    let ws = split_words(v);
    if ws.len() > 0 {
        proof {
            crate::text::lemma_deep_view_chars(&ws[0]);
        }
        ws[0].clone()
    } else {
        Vec::new()
    }
}

/// Exec form of [`progress_split_inside_char`].
pub fn progress_line_splits_inside_char(line: &str) -> (r: bool)
    ensures
        r == progress_split_inside_char(line@),
{
    proof {
        reveal_strlit("%");
    }
    let raw = chars_of(line);
    let nocr = without_cr_exec(&raw);
    let text = trim_vec(&nocr);
    if !(contains_str(&text, "[download]") && contains_str(&text, "%")) {
        return false;
    }
    match find_str(&text, "%") {
        Some(e) => {
            proof {
                crate::text::lemma_find_from(text@, "%"@, 0);
            }
            match last_ws_before_exec(&text, e) {
                Some(k) => {
                    let c = text[k];
                    (c as u32) >= 0x80
                },
                None => false,
            }
        },
        None => false,
    }
}

fn last_ws_before_exec(v: &Vec<char>, j: usize) -> (r: Option<usize>)
    requires
        j <= v.len(),
    ensures
        match last_ws_before(v@, j as int) {
            Some(k) => 0 <= k < j && r == Some(k as usize),
            None => r is None,
        },
{
    proof {
        lemma_last_ws_before(v@, j as int);
    }
    let mut i = j;
    while i > 0
        invariant
            i <= j <= v.len(),
            last_ws_before(v@, i as int) == last_ws_before(v@, j as int),
        decreases i,
    {
        if crate::text::char_is_ws(v[i - 1]) {
            return Some(i - 1);
        }
        i -= 1;
    }
    None
}

/// Reads the pieces of a yt-dlp `[download]` progress line; `None` for any
/// other line.
pub fn scan_progress_line(line: &str) -> (r: Option<ProgressText>)
    requires
        !progress_split_inside_char(line@),
    ensures
        !is_progress_candidate(progress_text(line@)) <==> r is None,
        r matches Some(p) ==> {
            let text = progress_text(line@);
            &&& p.percent@ == progress_percent_spec(text)
            &&& opt_view(p.size) == progress_size_spec(text)
            &&& p.total_bytes == progress_total_bytes_spec(text)
            &&& opt_view(p.speed) == progress_speed_spec(text)
            &&& opt_view(p.eta) == progress_eta_spec(text)
        },
{
    proof {
        reveal_strlit("%");
        reveal_strlit(" of ");
    }
    let raw = chars_of(line);
    let nocr = without_cr_exec(&raw);
    let text = trim_vec(&nocr);
    if !(contains_str(&text, "[download]") && contains_str(&text, "%")) {
        return None;
    }
    let e = match find_str(&text, "%") {
        Some(e) => e,
        None => {
            return None;
        },
    };
    proof {
        crate::text::lemma_find_from(text@, "%"@, 0);
    }
    let start = match last_ws_before_exec(&text, e) {
        Some(k) => k + 1,
        None => 0,
    };
    let percent = trim_vec(&slice_of(&text, start, e));
    let size = match find_str(&text, " of ") {
        Some(p) => {
            proof {
                crate::text::lemma_find_from(text@, " of "@, 0);
            }
            let n = text.len();
            assert(p + 4 <= n);
            let after = slice_of(&text, p + 4, n);
            Some(string_of(first_word_or_empty_exec(&after).as_slice()))
        },
        None => None,
    };
    let total_bytes = match &size {
        Some(tok) => match parse_size_to_bytes(tok.as_str()) {
            Some(b) => b,
            None => 0,
        },
        None => 0,
    };
    let at = chars_of(" at ");
    let eta_sep = chars_of(" ETA ");
    let speed = match second_piece_exec(&text, &at) {
        Some(part) => {
            let t = trim_vec(&first_piece_exec(&part, &eta_sep));
            if t.len() == 0 {
                None
            } else if ends_with_str(&t, "/s") {
                Some(string_of(t.as_slice()))
            } else {
                let mut w = t;
                push_str(&mut w, "/s");
                Some(string_of(w.as_slice()))
            }
        },
        None => None,
    };
    let eta = match second_piece_exec(&text, &eta_sep) {
        Some(v) => {
            let ws = split_words(&v);
            if ws.len() > 0 {
                proof {
                    crate::text::lemma_deep_view_chars(&ws[0]);
                }
                let t = trim_vec(&ws[0]);
                if t.len() > 0 {
                    Some(string_of(t.as_slice()))
                } else {
                    None
                }
            } else {
                None
            }
        },
        None => None,
    };
    Some(
        ProgressText {
            percent: string_of(percent.as_slice()),
            size,
            total_bytes,
            speed,
            eta,
        },
    )
}

// ---------------------------------------------------------------------------
// Sizes
// ---------------------------------------------------------------------------

/// End of the run of digits and dots that starts at `i`.
pub open spec fn number_end(s: Seq<char>, i: int) -> int
    decreases s.len() - i,
{
    if 0 <= i < s.len() && (is_digit(s[i]) || s[i] == '.') {
        number_end(s, i + 1)
    } else {
        i
    }
}

/// `str::trim_end_matches(p)` for a non-empty pattern.
pub open spec fn strip_all_suffix(s: Seq<char>, p: Seq<char>) -> Seq<char>
    decreases s.len(),
{
    if p.len() > 0 && ends_with(s, p) {
        strip_all_suffix(s.take(s.len() - p.len()), p)
    } else {
        s
    }
}

/// The power of 1024 that a size unit stands for.
pub open spec fn unit_power(u: Seq<char>) -> Option<u32> {
    if u == ""@ || u == "b"@ || u == "bytes"@ {
        Some(0)
    } else if u == "kib"@ || u == "kb"@ || u == "k"@ {
        Some(1)
    } else if u == "mib"@ || u == "mb"@ || u == "m"@ {
        Some(2)
    } else if u == "gib"@ || u == "gb"@ || u == "g"@ {
        Some(3)
    } else if u == "tib"@ || u == "tb"@ || u == "t"@ {
        Some(4)
    } else {
        None
    }
}

/// A size such as `"12.5MiB"` or `"3.1KiB/s"`: its number text and the power
/// of 1024 of its unit. Blank and `unknown` sizes, and unknown units, have
/// none.
pub struct SizeToken {
    pub number: String,
    pub power: u32,
}

pub open spec fn size_unit_of(t: Seq<char>) -> Seq<char> {
    lower_ascii_seq(trim(strip_all_suffix(trim(t.skip(number_end(t, 0))), "/s"@)))
}

pub open spec fn split_size_spec(value: Seq<char>) -> Option<(Seq<char>, u32)> {
    let t = trim(value);
    if t.len() == 0 || eq_ignore_ascii_case(t, "unknown"@) {
        None
    } else {
        match unit_power(size_unit_of(t)) {
            Some(k) => Some((t.take(number_end(t, 0)), k)),
            None => None,
        }
    }
}

/// The number text of a size is made of digits and dots.
pub proof fn lemma_number_prefix(t: Seq<char>)
    ensures
        0 <= number_end(t, 0) <= t.len(),
        forall|i: int|
            0 <= i < number_end(t, 0) ==> is_digit(#[trigger] t[i]) || t[i] == '.',
{
    lemma_number_end(t, 0);
    lemma_number_run(t, 0);
}

proof fn lemma_number_run(s: Seq<char>, i: int)
    requires
        0 <= i <= s.len(),
    ensures
        forall|j: int| i <= j < number_end(s, i) ==> is_digit(#[trigger] s[j]) || s[j] == '.',
    decreases s.len() - i,
{
    if i < s.len() && (is_digit(s[i]) || s[i] == '.') {
        lemma_number_run(s, i + 1);
    }
}

proof fn lemma_number_end(s: Seq<char>, i: int)
    requires
        0 <= i <= s.len(),
    ensures
        i <= number_end(s, i) <= s.len(),
    decreases s.len() - i,
{
    if i < s.len() && (is_digit(s[i]) || s[i] == '.') {
        lemma_number_end(s, i + 1);
    }
}

fn strip_all_suffix_exec(v: &Vec<char>, p: &Vec<char>) -> (r: Vec<char>)
    ensures
        r@ == strip_all_suffix(v@, p@),
{
    let mut cur = v.clone();
    while p.len() > 0 && crate::text::ends_with_exec(&cur, p)
        invariant
            strip_all_suffix(cur@, p@) == strip_all_suffix(v@, p@),
        decreases cur.len(),
    {
        cur = slice_of(&cur, 0, cur.len() - p.len());
    }
    cur
}

fn unit_power_exec(u: &Vec<char>) -> (r: Option<u32>)
    ensures
        r == unit_power(u@),
{
    if str_eq(u, "") || str_eq(u, "b") || str_eq(u, "bytes") {
        Some(0)
    } else if str_eq(u, "kib") || str_eq(u, "kb") || str_eq(u, "k") {
        Some(1)
    } else if str_eq(u, "mib") || str_eq(u, "mb") || str_eq(u, "m") {
        Some(2)
    } else if str_eq(u, "gib") || str_eq(u, "gb") || str_eq(u, "g") {
        Some(3)
    } else if str_eq(u, "tib") || str_eq(u, "tb") || str_eq(u, "t") {
        Some(4)
    } else {
        None
    }
}

pub fn split_size_token(value: &str) -> (r: Option<SizeToken>)
    ensures
        match split_size_spec(value@) {
            Some((n, k)) => r is Some && r->0.number@ == n && r->0.power == k,
            None => r is None,
        },
{
    let t = trim_vec(&chars_of(value));
    if t.len() == 0 || eq_ignore_ascii_case_exec(&t, &chars_of("unknown")) {
        return None;
    }
    proof {
        lemma_number_end(t@, 0);
    }
    let mut n: usize = 0;
    while n < t.len() && (crate::text::char_is_digit(t[n]) || t[n] == '.')
        invariant
            n <= t.len(),
            number_end(t@, n as int) == number_end(t@, 0),
        decreases t.len() - n,
    {
        n += 1;
    }
    let rest = trim_vec(&slice_of(&t, n, t.len()));
    let unit = lower_ascii_vec(&trim_vec(&strip_all_suffix_exec(&rest, &chars_of("/s"))));
    match unit_power_exec(&unit) {
        Some(k) => Some(SizeToken { number: string_of(slice_of(&t, 0, n).as_slice()), power: k }),
        None => None,
    }
}

} // verus!
