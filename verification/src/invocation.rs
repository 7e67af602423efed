//! How a YouTube or Bilibili link is downloaded with the local yt-dlp: the
//! output file name, the browsers whose cookies are tried in turn, and the
//! command line of each attempt.
use vstd::prelude::*;
use crate::links::{
    is_local_ytdlp_url, is_local_ytdlp_url_spec, is_youtube_url, is_youtube_url_spec,
};
use crate::order::{lex_le_fn, sort_lex};
use crate::settings::Settings;
use crate::text::{
    chars_of, push_all, push_chars, push_str, starts_with, starts_with_str, str_eq, string_of,
};
use crate::ytdlp::{
    bilibili_video_id, bilibili_video_id_spec, ytdlp_audio_format, ytdlp_audio_format_spec,
    ytdlp_format, ytdlp_format_spec, youtube_video_id, youtube_video_id_spec,
};

verus! {

// ---------------------------------------------------------------------------
// Small helpers on vectors of strings
// ---------------------------------------------------------------------------

/// Appends a copy of `s` to `v`.
pub fn push_text(v: &mut Vec<String>, s: &str)
    ensures
        final(v).deep_view() == old(v).deep_view().push(s@),
{
    let t = s.to_string();
    v.push(t);
    proof {
        assert(v.deep_view() =~= old(v).deep_view().push(s@));
    }
}

pub open spec fn opt_text(o: Option<String>) -> Option<Seq<char>> {
    match o {
        Some(s) => Some(s@),
        None => None,
    }
}

pub open spec fn opt_texts(v: Seq<Option<String>>) -> Seq<Option<Seq<char>>> {
    v.map_values(|o: Option<String>| opt_text(o))
}

fn push_opt_text(v: &mut Vec<Option<String>>, o: Option<&str>)
    ensures
        opt_texts(final(v)@) == opt_texts(old(v)@).push(
            match o {
                Some(s) => Some(s@),
                None => None,
            },
        ),
{
    let item = match o {
        Some(s) => Some(s.to_string()),
        None => None,
    };
    v.push(item);
    proof {
        assert(opt_texts(v@) =~= opt_texts(old(v)@).push(opt_text(v@.last())));
    }
}

// ---------------------------------------------------------------------------
// Chrome profiles
// ---------------------------------------------------------------------------

/// `chrome:<name>` for each directory name that starts with `Profile `.
pub open spec fn chrome_profile_sources(names: Seq<Seq<char>>) -> Seq<Seq<char>>
    decreases names.len(),
{
    if names.len() == 0 {
        Seq::empty()
    } else {
        let rest = chrome_profile_sources(names.drop_last());
        if starts_with(names.last(), "Profile "@) {
            rest.push("chrome:"@ + names.last())
        } else {
            rest
        }
    }
}

/// `Vec::dedup`: runs of equal neighbours collapse to one item.
pub open spec fn dedup_adjacent(s: Seq<Seq<char>>) -> Seq<Seq<char>>
    decreases s.len(),
{
    if s.len() <= 1 {
        s
    } else if s.last() == s[s.len() - 2] {
        dedup_adjacent(s.drop_last())
    } else {
        dedup_adjacent(s.drop_last()).push(s.last())
    }
}

proof fn lemma_dedup_last(s: Seq<Seq<char>>)
    requires
        s.len() > 0,
    ensures
        dedup_adjacent(s).len() > 0,
        dedup_adjacent(s).last() == s.last(),
    decreases s.len(),
{
    if s.len() > 1 && s.last() == s[s.len() - 2] {
        lemma_dedup_last(s.drop_last());
    }
}

proof fn lemma_dedup_first(s: Seq<Seq<char>>)
    requires
        s.len() > 0,
    ensures
        dedup_adjacent(s).len() > 0,
        dedup_adjacent(s)[0] == s[0],
    decreases s.len(),
{
    if s.len() > 1 {
        lemma_dedup_first(s.drop_last());
    }
}

proof fn lemma_dedup_no_repeats(s: Seq<Seq<char>>)
    ensures
        forall|i: int| 0 <= i < dedup_adjacent(s).len() - 1 ==> #[trigger] dedup_adjacent(s)[i] != dedup_adjacent(s)[i + 1],
    decreases s.len(),
{
    if s.len() > 1 {
        lemma_dedup_no_repeats(s.drop_last());
        lemma_dedup_last(s.drop_last());
    }
}

/// The cookie sources of Chrome: the default profile, the other profiles
/// found among the directory names in name order, and plain `chrome`.
pub open spec fn chrome_cookie_sources_spec(dir_names: Seq<Seq<char>>) -> Seq<Seq<char>> {
    dedup_adjacent(
        seq!["chrome:Default"@] + chrome_profile_sources(dir_names).sort_by(lex_le_fn()) + seq![
            "chrome"@,
        ],
    )
}

fn dedup_exec(s: &Vec<Vec<char>>) -> (r: Vec<String>)
    ensures
        r.deep_view() == dedup_adjacent(s.deep_view()),
{
    let mut r: Vec<String> = Vec::new();
    let mut i: usize = 0;
    while i < s.len()
        invariant
            i <= s.len(),
            r.deep_view() == dedup_adjacent(s.deep_view().take(i as int)),
            i > 0 ==> r.len() > 0 && r@[r.len() - 1]@ == s@[i - 1]@,
        decreases s.len() - i,
    {
        let ghost t = s.deep_view().take(i + 1);
        proof {
            crate::text::lemma_deep_view_chars(&s@[i as int]);
            assert(t.drop_last() =~= s.deep_view().take(i as int));
            if i > 0 {
                crate::text::lemma_deep_view_chars(&s@[i - 1]);
                assert(t[t.len() - 2] == s@[i - 1]@);
            }
        }
        let same = if i > 0 {
            crate::text::seq_eq(&s[i - 1], &s[i])
        } else {
            false
        };
        if !same {
            let item = string_of(s[i].as_slice());
            r.push(item);
            proof {
                assert(r.deep_view() =~= dedup_adjacent(t.drop_last()).push(t.last()));
            }
        }
        i += 1;
    }
    proof {
        assert(s.deep_view().take(s.len() as int) =~= s.deep_view());
    }
    r
}

/// The Chrome cookie sources, given the names of the directories in
/// Chrome's profile folder (empty when that folder cannot be read).
pub fn chrome_cookie_sources(dir_names: &Vec<String>) -> (r: Vec<String>)
    ensures
        r.deep_view() == chrome_cookie_sources_spec(dir_names.deep_view()),
{
    let mut profiles: Vec<Vec<char>> = Vec::new();
    let mut i: usize = 0;
    while i < dir_names.len()
        invariant
            i <= dir_names.len(),
            profiles.deep_view() == chrome_profile_sources(dir_names.deep_view().take(i as int)),
        decreases dir_names.len() - i,
    {
        let name = chars_of(dir_names[i].as_str());
        proof {
            assert(dir_names.deep_view().take(i + 1).drop_last() =~= dir_names.deep_view().take(
                i as int,
            ));
        }
        if starts_with_str(&name, "Profile ") {
            let mut item = chars_of("chrome:");
            push_all(&mut item, &name);
            push_chars(&mut profiles, item);
        }
        i += 1;
    }
    proof {
        assert(dir_names.deep_view().take(dir_names.len() as int) =~= dir_names.deep_view());
    }
    let sorted = sort_lex(&profiles);
    let mut all: Vec<Vec<char>> = Vec::new();
    push_chars(&mut all, chars_of("chrome:Default"));
    proof {
        reveal_strlit("chrome:Default");
        assert(sorted.deep_view().take(0) =~= Seq::<Seq<char>>::empty());
        assert(all.deep_view() =~= seq!["chrome:Default"@] + sorted.deep_view().take(0));
    }
    let mut k: usize = 0;
    while k < sorted.len()
        invariant
            k <= sorted.len(),
            all.deep_view() == seq!["chrome:Default"@] + sorted.deep_view().take(k as int),
        decreases sorted.len() - k,
    {
        let ghost before = all.deep_view();
        let item = sorted[k].clone();
        proof {
            crate::text::lemma_deep_view_chars(&sorted@[k as int]);
            assert(item@ =~= sorted@[k as int]@);
        }
        push_chars(&mut all, item);
        proof {
            assert(sorted.deep_view().take(k + 1) =~= sorted.deep_view().take(k as int).push(
                sorted.deep_view()[k as int],
            ));
        }
        k += 1;
    }
    push_chars(&mut all, chars_of("chrome"));
    proof {
        assert(sorted.deep_view().take(sorted.len() as int) =~= sorted.deep_view());
        assert(all.deep_view() =~= seq!["chrome:Default"@] + chrome_profile_sources(
            dir_names.deep_view(),
        ).sort_by(lex_le_fn()) + seq!["chrome"@]);
    }
    dedup_exec(&all)
}

// ---------------------------------------------------------------------------
// Cookie attempts
// ---------------------------------------------------------------------------

/// The browsers whose cookies yt-dlp is given, one attempt each, in order
/// (`None`: no cookies). YouTube is tried without cookies first, Bilibili
/// last.
pub open spec fn cookie_attempts_spec(is_youtube: bool, chrome_sources: Seq<Seq<char>>) -> Seq<
    Option<Seq<char>>,
> {
    let chrome = chrome_sources.map_values(|s: Seq<char>| Some(s));
    if is_youtube {
        seq![None] + chrome + seq![Some("safari"@), Some("firefox"@)]
    } else {
        chrome + seq![Some("safari"@), Some("firefox"@), None]
    }
}

pub fn cookie_attempts(is_youtube: bool, chrome_sources: &Vec<String>) -> (r: Vec<Option<String>>)
    ensures
        opt_texts(r@) == cookie_attempts_spec(is_youtube, chrome_sources.deep_view()),
{
    let mut r: Vec<Option<String>> = Vec::new();
    if is_youtube {
        push_opt_text(&mut r, None);
    }
    let ghost start = opt_texts(r@);
    let mut i: usize = 0;
    while i < chrome_sources.len()
        invariant
            i <= chrome_sources.len(),
            opt_texts(r@) == start + chrome_sources.deep_view().take(i as int).map_values(
                |s: Seq<char>| Some(s),
            ),
        decreases chrome_sources.len() - i,
    {
        let ghost before = opt_texts(r@);
        push_opt_text(&mut r, Some(chrome_sources[i].as_str()));
        proof {
            assert(chrome_sources.deep_view().take(i + 1).map_values(|s: Seq<char>| Some(s))
                =~= chrome_sources.deep_view().take(i as int).map_values(|s: Seq<char>| Some(s)).push(
                Some(chrome_sources@[i as int]@),
            ));
        }
        i += 1;
    }
    proof {
        assert(chrome_sources.deep_view().take(chrome_sources.len() as int)
            =~= chrome_sources.deep_view());
    }
    push_opt_text(&mut r, Some("safari"));
    push_opt_text(&mut r, Some("firefox"));
    if !is_youtube {
        push_opt_text(&mut r, None);
    }
    proof {
        let chrome = chrome_sources.deep_view().map_values(|s: Seq<char>| Some(s));
        if is_youtube {
            assert(opt_texts(r@) =~= seq![None] + chrome + seq![Some("safari"@), Some("firefox"@)]);
        } else {
            assert(opt_texts(r@) =~= chrome + seq![Some("safari"@), Some("firefox"@), None]);
        }
    }
    r
}

// ---------------------------------------------------------------------------
// The plan of a local download
// ---------------------------------------------------------------------------

/// What a local yt-dlp download of one task is set up with.
pub struct LocalDownloadPlan {
    pub is_youtube: bool,
    /// `YouTube` or `Bilibili`, for messages.
    pub source_name: String,
    /// The name of the output file, which also becomes the task's title.
    pub filename: String,
    /// What the task shows as its speed until yt-dlp reports one.
    pub speed_label: String,
    pub format: String,
    pub audio_format: String,
    pub download_mode: String,
    /// Bilibili video downloads fetch video and audio one after the other;
    /// their progress is shown as one bar over both.
    pub aggregate_progress: bool,
}

pub open spec fn source_name_spec(is_youtube: bool) -> Seq<char> {
    if is_youtube {
        "YouTube"@
    } else {
        "Bilibili"@
    }
}

pub open spec fn source_prefix_spec(is_youtube: bool) -> Seq<char> {
    if is_youtube {
        "youtube"@
    } else {
        "bilibili"@
    }
}

/// The video id in the link, or the task id when the link holds none.
pub open spec fn local_video_id_spec(is_youtube: bool, id: Seq<char>, url: Seq<char>) -> Seq<char> {
    let found = if is_youtube {
        youtube_video_id_spec(url)
    } else {
        bilibili_video_id_spec(url)
    };
    match found {
        Some(v) => v,
        None => id,
    }
}

/// `<source>_<video id>.<audio format>` for audio, `<source>_<video id>.mp4`
/// otherwise.
pub open spec fn local_filename_spec(
    is_youtube: bool,
    id: Seq<char>,
    url: Seq<char>,
    download_mode: Seq<char>,
    audio_format: Seq<char>,
) -> Seq<char> {
    let stem = source_prefix_spec(is_youtube) + "_"@ + local_video_id_spec(is_youtube, id, url);
    if download_mode == "audio"@ {
        stem + "."@ + ytdlp_audio_format_spec(audio_format)
    } else {
        stem + ".mp4"@
    }
}

pub open spec fn plan_matches(p: LocalDownloadPlan, id: Seq<char>, url: Seq<char>, s: Settings) -> bool {
    let yt = is_youtube_url_spec(url);
    &&& p.is_youtube == yt
    &&& p.source_name@ == source_name_spec(yt)
    &&& p.filename@ == local_filename_spec(yt, id, url, s.download_mode@, s.audio_format@)
    &&& p.speed_label@ == "Local "@ + source_name_spec(yt)
    &&& p.format@ == ytdlp_format_spec(s.download_mode@, s.video_quality@)
    &&& p.audio_format@ == ytdlp_audio_format_spec(s.audio_format@)
    &&& p.download_mode@ == s.download_mode@
    &&& p.aggregate_progress == (!yt && s.download_mode@ == "video"@)
}

/// The plan of a local download of task `id`; `None` when the link is not
/// one that the local yt-dlp handles.
pub fn local_download_plan(id: &str, url: &str, settings: &Settings) -> (r: Option<LocalDownloadPlan>)
    ensures
        r is None <==> !is_local_ytdlp_url_spec(url@),
        r matches Some(p) ==> plan_matches(p, id@, url@, *settings),
{
    if !is_local_ytdlp_url(url) {
        return None;
    }
    let yt = is_youtube_url(url);
    let found = if yt {
        youtube_video_id(url)
    } else {
        bilibili_video_id(url)
    };
    let video_id = match found {
        Some(v) => v,
        None => id.to_string(),
    };
    let audio_format = ytdlp_audio_format(settings);
    let mut name = if yt {
        chars_of("youtube")
    } else {
        chars_of("bilibili")
    };
    push_str(&mut name, "_");
    push_str(&mut name, video_id.as_str());
    let mode = chars_of(settings.download_mode.as_str());
    let is_audio = str_eq(&mode, "audio");
    if is_audio {
        push_str(&mut name, ".");
        push_str(&mut name, audio_format.as_str());
    } else {
        push_str(&mut name, ".mp4");
    }
    let source_name = if yt {
        "YouTube".to_string()
    } else {
        "Bilibili".to_string()
    };
    let mut label = chars_of("Local ");
    push_str(&mut label, source_name.as_str());
    let is_video = str_eq(&mode, "video");
    Some(
        LocalDownloadPlan {
            is_youtube: yt,
            source_name,
            filename: string_of(name.as_slice()),
            speed_label: string_of(label.as_slice()),
            format: ytdlp_format(settings),
            audio_format,
            download_mode: settings.download_mode.clone(),
            aggregate_progress: !yt && is_video,
        },
    )
}

// ---------------------------------------------------------------------------
// The command line
// ---------------------------------------------------------------------------

pub open spec fn opt_args(flag: Seq<char>, value: Option<Seq<char>>) -> Seq<Seq<char>> {
    match value {
        Some(v) => seq![flag, v],
        None => Seq::empty(),
    }
}

/// The arguments of one yt-dlp attempt: quiet single-file download of the
/// chosen format to `output`, YouTube's player clients, mp4 merging for
/// video, audio extraction for audio, the bundled ffmpeg and node when found,
/// and the browser whose cookies are tried.
pub open spec fn ytdlp_arguments_spec(
    is_youtube: bool,
    download_mode: Seq<char>,
    format: Seq<char>,
    audio_format: Seq<char>,
    url: Seq<char>,
    output: Seq<char>,
    ffmpeg: Option<Seq<char>>,
    node: Option<Seq<char>>,
    browser: Option<Seq<char>>,
) -> Seq<Seq<char>> {
    seq!["--no-playlist"@, "--newline"@, "--no-part"@, "-f"@, format, "-o"@, output, url] + (
    if is_youtube {
        seq![
            "--remote-components"@,
            "ejs:github"@,
            "--extractor-args"@,
            "youtube:player_client=mweb,web"@,
        ]
    } else {
        Seq::empty()
    }) + (if download_mode == "video"@ {
        seq!["--merge-output-format"@, "mp4"@]
    } else {
        Seq::empty()
    }) + (if download_mode == "audio"@ {
        seq!["--extract-audio"@, "--audio-format"@, audio_format, "--audio-quality"@, "0"@]
    } else {
        Seq::empty()
    }) + opt_args("--ffmpeg-location"@, ffmpeg) + opt_args(
        "--js-runtimes"@,
        match node {
            Some(n) => Some("node:"@ + n),
            None => None,
        },
    ) + opt_args("--cookies-from-browser"@, browser)
}

fn push_opt_arg(v: &mut Vec<String>, flag: &str, value: &Option<String>)
    ensures
        final(v).deep_view() == old(v).deep_view() + opt_args(flag@, opt_text(*value)),
{
    match value {
        Some(x) => {
            push_text(v, flag);
            push_text(v, x.as_str());
        },
        None => {},
    }
    proof {
        assert(v.deep_view() =~= old(v).deep_view() + opt_args(flag@, opt_text(*value)));
    }
}

/// The yt-dlp arguments of one attempt of `plan` on `url`, writing to
/// `output_path`, with the ffmpeg and node found (if any) and the cookie
/// source of this attempt.
pub fn ytdlp_arguments(
    plan: &LocalDownloadPlan,
    url: &str,
    output_path: &str,
    ffmpeg_path: &Option<String>,
    node_path: &Option<String>,
    browser: &Option<String>,
) -> (r: Vec<String>)
    ensures
        r.deep_view() == ytdlp_arguments_spec(
            plan.is_youtube,
            plan.download_mode@,
            plan.format@,
            plan.audio_format@,
            url@,
            output_path@,
            opt_text(*ffmpeg_path),
            opt_text(*node_path),
            opt_text(*browser),
        ),
{
    let mut v: Vec<String> = Vec::new();
    push_text(&mut v, "--no-playlist");
    push_text(&mut v, "--newline");
    push_text(&mut v, "--no-part");
    push_text(&mut v, "-f");
    push_text(&mut v, plan.format.as_str());
    push_text(&mut v, "-o");
    push_text(&mut v, output_path);
    push_text(&mut v, url);
    let ghost base = v.deep_view();
    proof {
        assert(base =~= seq![
            "--no-playlist"@,
            "--newline"@,
            "--no-part"@,
            "-f"@,
            plan.format@,
            "-o"@,
            output_path@,
            url@,
        ]);
    }
    if plan.is_youtube {
        push_text(&mut v, "--remote-components");
        push_text(&mut v, "ejs:github");
        push_text(&mut v, "--extractor-args");
        push_text(&mut v, "youtube:player_client=mweb,web");
    }
    let ghost with_yt = v.deep_view();
    proof {
        if plan.is_youtube {
            assert(with_yt =~= base + seq![
                "--remote-components"@,
                "ejs:github"@,
                "--extractor-args"@,
                "youtube:player_client=mweb,web"@,
            ]);
        } else {
            assert(with_yt =~= base + Seq::<Seq<char>>::empty());
        }
    }
    let mode = chars_of(plan.download_mode.as_str());
    if str_eq(&mode, "video") {
        push_text(&mut v, "--merge-output-format");
        push_text(&mut v, "mp4");
    }
    let ghost with_video = v.deep_view();
    proof {
        if plan.download_mode@ == "video"@ {
            assert(with_video =~= with_yt + seq!["--merge-output-format"@, "mp4"@]);
        } else {
            assert(with_video =~= with_yt + Seq::<Seq<char>>::empty());
        }
    }
    if str_eq(&mode, "audio") {
        push_text(&mut v, "--extract-audio");
        push_text(&mut v, "--audio-format");
        push_text(&mut v, plan.audio_format.as_str());
        push_text(&mut v, "--audio-quality");
        push_text(&mut v, "0");
    }
    let ghost with_audio = v.deep_view();
    proof {
        if plan.download_mode@ == "audio"@ {
            assert(with_audio =~= with_video + seq![
                "--extract-audio"@,
                "--audio-format"@,
                plan.audio_format@,
                "--audio-quality"@,
                "0"@,
            ]);
        } else {
            assert(with_audio =~= with_video + Seq::<Seq<char>>::empty());
        }
    }
    push_opt_arg(&mut v, "--ffmpeg-location", ffmpeg_path);
    let node_arg = match node_path {
        Some(n) => {
            let mut w = chars_of("node:");
            push_str(&mut w, n.as_str());
            Some(string_of(w.as_slice()))
        },
        None => None,
    };
    push_opt_arg(&mut v, "--js-runtimes", &node_arg);
    push_opt_arg(&mut v, "--cookies-from-browser", browser);
    proof {
        assert(opt_text(node_arg) == match opt_text(*node_path) {
            Some(n) => Some("node:"@ + n),
            None => None,
        });
    }
    v
}

// ---------------------------------------------------------------------------
// Laws
// ---------------------------------------------------------------------------

/// Chrome's cookie sources start with the default profile, end with plain
/// `chrome`, and never name the same source twice in a row.
pub proof fn lemma_chrome_sources_shape(dir_names: Seq<Seq<char>>)
    ensures
        chrome_cookie_sources_spec(dir_names).len() >= 2,
        chrome_cookie_sources_spec(dir_names)[0] == "chrome:Default"@,
        chrome_cookie_sources_spec(dir_names).last() == "chrome"@,
        forall|i: int|
            0 <= i < chrome_cookie_sources_spec(dir_names).len() - 1
                ==> #[trigger] chrome_cookie_sources_spec(dir_names)[i]
                != chrome_cookie_sources_spec(dir_names)[i + 1],
{
    reveal_strlit("chrome:Default");
    reveal_strlit("chrome");
    let all = seq!["chrome:Default"@] + chrome_profile_sources(dir_names).sort_by(lex_le_fn())
        + seq!["chrome"@];
    lemma_dedup_first(all);
    lemma_dedup_last(all);
    lemma_dedup_no_repeats(all);
    let d = dedup_adjacent(all);
    assert(d[0] != d.last()) by {
        assert("chrome:Default"@[6] == ':');
        assert("chrome"@.len() == 6);
    }
    if d.len() < 2 {
        assert(d.len() == 1);
    }
}

/// YouTube is first tried without cookies and Bilibili last; Chrome's
/// sources come before Safari and Firefox.
pub proof fn lemma_cookie_attempt_order(is_youtube: bool, chrome_sources: Seq<Seq<char>>)
    ensures
        is_youtube ==> cookie_attempts_spec(is_youtube, chrome_sources)[0] is None,
        !is_youtube ==> cookie_attempts_spec(is_youtube, chrome_sources).last() is None,
        cookie_attempts_spec(is_youtube, chrome_sources).len() == chrome_sources.len() + 3,
        is_youtube ==> forall|i: int|
            0 <= i < chrome_sources.len() ==> cookie_attempts_spec(is_youtube, chrome_sources)[i
                + 1] == Some(#[trigger] chrome_sources[i]),
        !is_youtube ==> forall|i: int|
            0 <= i < chrome_sources.len() ==> cookie_attempts_spec(is_youtube, chrome_sources)[i]
                == Some(#[trigger] chrome_sources[i]),
{
}

/// Audio downloads are converted to the chosen audio format on every site:
/// whenever the download mode is `audio`, YouTube or not, the arguments
/// hold `--extract-audio --audio-format <audio format> --audio-quality 0`
/// in a row.
pub proof fn lemma_audio_mode_extracts_audio(
    is_youtube: bool,
    download_mode: Seq<char>,
    format: Seq<char>,
    audio_format: Seq<char>,
    url: Seq<char>,
    output: Seq<char>,
    ffmpeg: Option<Seq<char>>,
    node: Option<Seq<char>>,
    browser: Option<Seq<char>>,
)
    requires
        download_mode == "audio"@,
    ensures
        exists|i: int|
            0 <= i && i + 5 <= ytdlp_arguments_spec(is_youtube, download_mode, format, audio_format, url, output, ffmpeg, node, browser).len() && #[trigger] ytdlp_arguments_spec(is_youtube, download_mode, format, audio_format, url, output, ffmpeg, node, browser).subrange(i, i + 5) == seq![
                "--extract-audio"@,
                "--audio-format"@,
                audio_format,
                "--audio-quality"@,
                "0"@,
            ],
{
    reveal_strlit("audio");
    reveal_strlit("video");
    assert(download_mode != "video"@) by {
        assert(download_mode[0] != "video"@[0]);
    }
    let a = ytdlp_arguments_spec(is_youtube, download_mode, format, audio_format, url, output, ffmpeg, node, browser);
    let i: int = if is_youtube {
        12
    } else {
        8
    };
    assert(a.subrange(i, i + 5) =~= seq![
        "--extract-audio"@,
        "--audio-format"@,
        audio_format,
        "--audio-quality"@,
        "0"@,
    ]);
}

} // verus!
