//! Requests to the remote media service and the reading of its replies.
use vstd::prelude::*;
use crate::links::{is_youtube_url, is_youtube_url_spec, should_relay_download_through_server,
    should_relay_spec};
use crate::settings::{absolute_api_url, absolute_api_url_of, Settings};
use crate::text::{chars_of, push_str, starts_with, starts_with_str, str_eq, string_of};

verus! {

/// The body of a request to the media service.
pub struct CobaltPayload {
    pub url: String,
    pub video_quality: String,
    /// `"auto"` for video downloads, `"audio"` otherwise.
    pub download_mode: String,
    pub audio_format: String,
    pub filename_style: String,
    pub youtube_video_codec: String,
    pub youtube_hls: bool,
    pub youtube_better_audio: bool,
    pub local_processing: String,
    pub always_proxy: bool,
    pub innertube_client: Option<String>,
}

pub fn build_cobalt_payload(
    url: &str,
    settings: &Settings,
    youtube_hls: bool,
    innertube_client: Option<&str>,
) -> (p: CobaltPayload)
    ensures
        p.url@ == url@,
        p.video_quality@ == settings.video_quality@,
        p.download_mode@ == (if settings.download_mode@ == "video"@ {
            "auto"@
        } else {
            "audio"@
        }),
        p.audio_format@ == settings.audio_format@,
        p.filename_style@ == "pretty"@,
        p.youtube_video_codec@ == "h264"@,
        p.youtube_hls == youtube_hls,
        p.youtube_better_audio,
        p.local_processing@ == "disabled"@,
        p.always_proxy == should_relay_spec(url@),
        match innertube_client {
            Some(c) => p.innertube_client is Some && p.innertube_client->0@ == c@,
            None => p.innertube_client is None,
        },
{
    let mode = chars_of(settings.download_mode.as_str());
    CobaltPayload {
        url: url.to_string(),
        video_quality: settings.video_quality.clone(),
        download_mode: if str_eq(&mode, "video") {
            "auto".to_string()
        } else {
            "audio".to_string()
        },
        audio_format: settings.audio_format.clone(),
        filename_style: "pretty".to_string(),
        youtube_video_codec: "h264".to_string(),
        youtube_hls,
        youtube_better_audio: true,
        local_processing: "disabled".to_string(),
        always_proxy: should_relay_download_through_server(url),
        innertube_client: match innertube_client {
            Some(c) => Some(c.to_string()),
            None => None,
        },
    }
}

/// One request to try: a label for the log, whether YouTube HLS is asked
/// for, and the InnerTube client to use.
pub struct CobaltAttempt {
    pub label: String,
    pub youtube_hls: bool,
    pub innertube_client: Option<String>,
}

/// The clients tried for YouTube links, in order.
pub open spec fn youtube_attempt_specs() -> Seq<(Seq<char>, bool, Seq<char>)> {
    seq![
        ("MWEB"@, false, "MWEB"@),
        ("WEB_CREATOR"@, false, "WEB_CREATOR"@),
        ("YTMUSIC"@, false, "YTMUSIC"@),
        ("ANDROID_VR"@, false, "ANDROID_VR"@),
        ("IOS"@, false, "IOS"@),
        ("ANDROID"@, false, "ANDROID"@),
        ("HLS_IOS"@, true, "IOS"@),
    ]
}

fn attempt(label: &str, youtube_hls: bool, client: &str) -> (a: CobaltAttempt)
    ensures
        a.label@ == label@,
        a.youtube_hls == youtube_hls,
        a.innertube_client is Some && a.innertube_client->0@ == client@,
{
    CobaltAttempt {
        label: label.to_string(),
        youtube_hls,
        innertube_client: Some(client.to_string()),
    }
}

/// The requests made for a link: for YouTube the client fallbacks in order,
/// for anything else one plain request.
pub fn cobalt_attempts(url: &str) -> (r: Vec<CobaltAttempt>)
    ensures
        is_youtube_url_spec(url@) ==> r.len() == youtube_attempt_specs().len() && forall|i: int|
            0 <= i < r.len() ==> (#[trigger] r@[i]).label@ == youtube_attempt_specs()[i].0
                && r@[i].youtube_hls == youtube_attempt_specs()[i].1 && r@[i].innertube_client
                is Some && r@[i].innertube_client->0@ == youtube_attempt_specs()[i].2,
        !is_youtube_url_spec(url@) ==> r.len() == 1 && !r@[0].youtube_hls
            && r@[0].innertube_client is None && r@[0].label@ == "default"@,
{
    if !is_youtube_url(url) {
        return vec![
            CobaltAttempt {
                label: "default".to_string(),
                youtube_hls: false,
                innertube_client: None,
            },
        ];
    }
    let r = vec![
        attempt("MWEB", false, "MWEB"),
        attempt("WEB_CREATOR", false, "WEB_CREATOR"),
        attempt("YTMUSIC", false, "YTMUSIC"),
        attempt("ANDROID_VR", false, "ANDROID_VR"),
        attempt("IOS", false, "IOS"),
        attempt("ANDROID", false, "ANDROID"),
        attempt("HLS_IOS", true, "IOS"),
    ];
    r
}

/// An entry of a `picker` reply.
pub struct PickerItem {
    /// The entry's `type` when it is a string.
    pub kind: Option<String>,
    /// The entry's `url` when it is a string.
    pub url: Option<String>,
}

/// The fields of a service reply that decide what is downloaded; each is
/// present when the reply holds it as a string (the picker, as an array).
pub struct CobaltResponse {
    pub status: Option<String>,
    pub text: Option<String>,
    /// `error.code`
    pub error_code: Option<String>,
    pub filename: Option<String>,
    /// Whether the reply has a `filename` key at all, whatever its value.
    pub has_filename: bool,
    pub url: Option<String>,
    pub picker: Option<Vec<PickerItem>>,
}

pub open spec fn opt_view(o: Option<String>) -> Option<Seq<char>> {
    match o {
        Some(s) => Some(s@),
        None => None,
    }
}

/// The error text of a reply: `text`, else `error.code`, else a generic one.
pub open spec fn cobalt_error_text_spec(r: CobaltResponse) -> Seq<char> {
    match opt_view(r.text) {
        Some(t) => t,
        None => match opt_view(r.error_code) {
            Some(c) => c,
            None => "Unknown Cobalt API error"@,
        },
    }
}

pub fn cobalt_error_text(r: &CobaltResponse) -> (t: String)
    ensures
        t@ == cobalt_error_text_spec(*r),
{
    match &r.text {
        Some(t) => t.clone(),
        None => match &r.error_code {
            Some(c) => c.clone(),
            None => "Unknown Cobalt API error".to_string(),
        },
    }
}

pub open spec fn is_error_reply(r: CobaltResponse) -> bool {
    opt_view(r.status) == Some("error"@)
}

/// A reply to one YouTube attempt: accepted unless its status is `"error"`,
/// in which case the error text is what is reported if no later attempt
/// succeeds.
pub fn youtube_attempt_outcome(r: &CobaltResponse) -> (o: Result<(), String>)
    ensures
        !is_error_reply(*r) <==> o is Ok,
        o is Err ==> o->Err_0@ == cobalt_error_text_spec(*r),
{
    let is_error = match &r.status {
        Some(s) => str_eq(&chars_of(s.as_str()), "error"),
        None => false,
    };
    if is_error {
        Err(cobalt_error_text(r))
    } else {
        Ok(())
    }
}

/// Where to download from, and under which name.
pub struct DownloadTarget {
    pub url: String,
    pub filename: String,
}

pub open spec fn default_filename(id: Seq<char>) -> Seq<char> {
    "cobalt_"@ + id
}

/// The first index of a video entry, if there is one.
pub open spec fn first_video_index(items: Seq<PickerItem>, i: int) -> Option<int>
    decreases items.len() - i,
{
    if i < 0 || i >= items.len() {
        None
    } else if opt_view(items[i].kind) == Some("video"@) {
        Some(i)
    } else {
        first_video_index(items, i + 1)
    }
}

/// What a reply asks to download, or why nothing can be.
pub open spec fn download_target_spec(r: CobaltResponse, api_url: Seq<char>, id: Seq<char>) -> Result<
    (Seq<char>, Seq<char>),
    Seq<char>,
> {
    let status = match opt_view(r.status) {
        Some(s) => s,
        None => Seq::empty(),
    };
    let filename = match opt_view(r.filename) {
        Some(f) => f,
        None => default_filename(id),
    };
    if status == "error"@ {
        Err(cobalt_error_text_spec(r))
    } else if status == "redirect"@ || status == "tunnel"@ {
        let u = match opt_view(r.url) {
            Some(u) => u,
            None => Seq::empty(),
        };
        if starts_with(u, "http"@) {
            Ok((u, filename))
        } else {
            Ok((absolute_api_url_of(api_url, u), filename))
        }
    } else if status == "picker"@ {
        match r.picker {
            None => Err("Invalid picker response format"@),
            Some(items) => if items.len() == 0 {
                Err("Picker response returned no items"@)
            } else {
                let k = match first_video_index(items@, 0) {
                    Some(k) => k,
                    None => 0,
                };
                let chosen = items@[k];
                let u = match opt_view(chosen.url) {
                    Some(u) => u,
                    None => Seq::empty(),
                };
                let name = if r.has_filename {
                    filename
                } else if opt_view(chosen.kind) == Some("photo"@) {
                    default_filename(id) + ".jpg"@
                } else {
                    default_filename(id) + ".mp4"@
                };
                Ok((absolute_api_url_of(api_url, u), name))
            },
        }
    } else {
        Err("Unsupported response status: "@ + status)
    }
}

fn opt_is(o: &Option<String>, s: &str) -> (r: bool)
    ensures
        r == (opt_view(*o) == Some(s@)),
{
    match o {
        Some(v) => str_eq(&chars_of(v.as_str()), s),
        None => false,
    }
}

fn text_or_empty(o: &Option<String>) -> (r: String)
    ensures
        r@ == match opt_view(*o) {
            Some(u) => u,
            None => Seq::empty(),
        },
{
    match o {
        Some(v) => v.clone(),
        None => String::new(),
    }
}

fn suffixed_default(id: &str, ext: &str) -> (r: String)
    ensures
        r@ == default_filename(id@) + ext@,
{
    let mut v = chars_of("cobalt_");
    push_str(&mut v, id);
    push_str(&mut v, ext);
    string_of(v.as_slice())
}

pub fn choose_download_target(r: &CobaltResponse, settings: &Settings, id: &str) -> (t: Result<
    DownloadTarget,
    String,
>)
    ensures
        match download_target_spec(*r, settings.api_url@, id@) {
            Ok((u, f)) => t is Ok && t->Ok_0.url@ == u && t->Ok_0.filename@ == f,
            Err(e) => t is Err && t->Err_0@ == e,
        },
{
    let status = text_or_empty(&r.status);
    let st = chars_of(status.as_str());
    let filename = match &r.filename {
        Some(f) => f.clone(),
        None => suffixed_default(id, ""),
    };
    proof {
        reveal_strlit("");
        assert(default_filename(id@) + ""@ =~= default_filename(id@));
    }
    if str_eq(&st, "error") {
        return Err(cobalt_error_text(r));
    }
    if str_eq(&st, "redirect") || str_eq(&st, "tunnel") {
        let u = text_or_empty(&r.url);
        if starts_with_str(&chars_of(u.as_str()), "http") {
            return Ok(DownloadTarget { url: u, filename });
        }
        return Ok(DownloadTarget { url: absolute_api_url(settings, u.as_str()), filename });
    }
    if !str_eq(&st, "picker") {
        let mut v = chars_of("Unsupported response status: ");
        push_str(&mut v, status.as_str());
        return Err(string_of(v.as_slice()));
    }
    let items = match &r.picker {
        Some(items) => items,
        None => {
            return Err("Invalid picker response format".to_string());
        },
    };
    if items.len() == 0 {
        return Err("Picker response returned no items".to_string());
    }
    let mut k: usize = 0;
    while k < items.len() && !opt_is(&items[k].kind, "video")
        invariant
            k <= items.len(),
            first_video_index(items@, 0) == first_video_index(items@, k as int),
        decreases items.len() - k,
    {
        k += 1;
    }
    let idx = if k < items.len() {
        k
    } else {
        0
    };
    assert(idx < items.len());
    let chosen = &items[idx];
    let u = text_or_empty(&chosen.url);
    let name = if r.has_filename {
        filename
    } else if opt_is(&chosen.kind, "photo") {
        suffixed_default(id, ".jpg")
    } else {
        suffixed_default(id, ".mp4")
    };
    Ok(DownloadTarget { url: absolute_api_url(settings, u.as_str()), filename: name })
}

/// What the outcome of one attempt means: `None` when its reply is taken,
/// else the error that stands if no later attempt succeeds. A reply to a
/// plain (non-YouTube) request is always taken; one to a YouTube attempt
/// only when it is no error reply.
pub open spec fn attempt_verdict_spec(
    is_youtube: bool,
    label: Seq<char>,
    outcome: Result<CobaltResponse, Seq<char>>,
) -> Option<Seq<char>> {
    match outcome {
        Ok(r) => if is_youtube && is_error_reply(r) {
            Some(cobalt_error_text_spec(r))
        } else {
            None
        },
        Err(e) => if is_youtube {
            Some("Cobalt API error with "@ + label + ": "@ + e)
        } else {
            Some("Cobalt API error: "@ + e)
        },
    }
}

pub fn attempt_verdict(is_youtube: bool, label: &str, outcome: &Result<CobaltResponse, String>) -> (v:
    Option<String>)
    ensures
        match attempt_verdict_spec(
            is_youtube,
            label@,
            match outcome {
                Ok(r) => Ok(*r),
                Err(e) => Err(e@),
            },
        ) {
            Some(e) => v is Some && v->0@ == e,
            None => v is None,
        },
{
    match outcome {
        Ok(r) => {
            if !is_youtube {
                return None;
            }
            match youtube_attempt_outcome(r) {
                Ok(()) => None,
                Err(t) => Some(t),
            }
        },
        Err(e) => {
            let mut v = if is_youtube {
                let mut v = chars_of("Cobalt API error with ");
                push_str(&mut v, label);
                push_str(&mut v, ": ");
                v
            } else {
                chars_of("Cobalt API error: ")
            };
            push_str(&mut v, e.as_str());
            Some(string_of(v.as_slice()))
        },
    }
}

// ---------------------------------------------------------------------------
// Laws
// ---------------------------------------------------------------------------

proof fn lemma_first_video_index(items: Seq<PickerItem>, i: int)
    requires
        0 <= i,
    ensures
        first_video_index(items, i) matches Some(k) ==> i <= k < items.len() && opt_view(
            items[k].kind,
        ) == Some("video"@) && forall|j: int| i <= j < k ==> opt_view(#[trigger] items[j].kind)
            != Some("video"@),
        first_video_index(items, i) is None ==> forall|j: int|
            i <= j < items.len() ==> opt_view(#[trigger] items[j].kind) != Some("video"@),
    decreases items.len() - i,
{
    if i < items.len() {
        lemma_first_video_index(items, i + 1);
    }
}

/// From a picker reply the first video entry is downloaded, or the first
/// entry when none is a video: the link is that of entry `k`, where entry
/// `k` is a video and no entry before it is, or no entry is a video and
/// `k` is 0.
pub proof fn lemma_picker_takes_first_video(r: CobaltResponse, api_url: Seq<char>, id: Seq<char>)
    requires
        opt_view(r.status) == Some("picker"@),
        r.picker is Some,
        r.picker->0@.len() > 0,
    ensures
        exists|k: int|
            0 <= k < r.picker->0@.len() && ((opt_view(r.picker->0@[k].kind) == Some("video"@)
                && forall|j: int|
                0 <= j < k ==> opt_view(#[trigger] r.picker->0@[j].kind) != Some("video"@)) || (k
                == 0 && forall|j: int|
                0 <= j < r.picker->0@.len() ==> opt_view(#[trigger] r.picker->0@[j].kind) != Some(
                    "video"@,
                ))) && download_target_spec(r, api_url, id) is Ok && #[trigger] download_target_spec(
                r,
                api_url,
                id,
            )->Ok_0.0 == absolute_api_url_of(
                api_url,
                match opt_view(r.picker->0@[k].url) {
                    Some(u) => u,
                    None => Seq::empty(),
                },
            ) && (!r.has_filename ==> download_target_spec(r, api_url, id)->Ok_0.1 == "cobalt_"@
                + id + if opt_view(r.picker->0@[k].kind) == Some("photo"@) {
                ".jpg"@
            } else {
                ".mp4"@
            }),
{
    reveal_strlit("picker");
    reveal_strlit("error");
    reveal_strlit("redirect");
    reveal_strlit("tunnel");
    assert("picker"@ != "error"@) by {
        assert("picker"@[0] != "error"@[0]);
    }
    assert("picker"@ != "redirect"@) by {
        assert("picker"@[0] != "redirect"@[0]);
    }
    assert("picker"@ != "tunnel"@) by {
        assert("picker"@[0] != "tunnel"@[0]);
    }
    let items = r.picker->0@;
    lemma_first_video_index(items, 0);
    let k = match first_video_index(items, 0) {
        Some(k) => k,
        None => 0,
    };
    assert(download_target_spec(r, api_url, id) is Ok);
}

} // verus!
