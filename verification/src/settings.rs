//! User settings and the values derived from them.
use vstd::prelude::*;
use crate::text::{
    chars_of, push_str, starts_with, starts_with_str, string_of, trim, trim_end_char,
    trim_end_char_vec, trim_vec,
};

verus! {

/// The remote media service used when none is configured.
pub open spec fn default_api_url_spec() -> Seq<char> {
    "http://43.156.122.169"@
}

pub fn default_api_url() -> (r: String)
    ensures
        r@ == default_api_url_spec(),
{
    "http://43.156.122.169".to_string()
}

/// Persistent user preferences.
#[derive(Debug, Clone)]
pub struct Settings {
    pub save_path: String,
    pub api_url: String,
    pub download_mode: String,
    pub video_quality: String,
    pub audio_format: String,
    pub clipboard_monitoring: bool,
    pub max_parallel_downloads: u32,
    pub proxy_enabled: bool,
    pub proxy_url: String,
}

impl Settings {
    /// The settings of a first start, saving into `download_dir`.
    pub fn default_with_download_dir(download_dir: String) -> (s: Settings)
        ensures
            s.save_path@ == download_dir@,
            s.api_url@ == default_api_url_spec(),
            s.download_mode@ == "video"@,
            s.video_quality@ == "720"@,
            s.audio_format@ == "best"@,
            s.clipboard_monitoring,
            s.max_parallel_downloads == 3,
            s.proxy_enabled,
            s.proxy_url@ == "http://127.0.0.1:7897"@,
    {
        Settings {
            save_path: download_dir,
            api_url: default_api_url(),
            download_mode: "video".to_string(),
            video_quality: "720".to_string(),
            audio_format: "best".to_string(),
            clipboard_monitoring: true,
            max_parallel_downloads: 3,
            proxy_enabled: true,
            proxy_url: "http://127.0.0.1:7897".to_string(),
        }
    }
}

/// The configured service address without surrounding whitespace and
/// trailing slashes, or the default one when nothing is left.
pub open spec fn normalized_api_url_of(api_url: Seq<char>) -> Seq<char> {
    let t = trim_end_char(trim(api_url), '/');
    if t.len() == 0 {
        default_api_url_spec()
    } else {
        t
    }
}

pub fn normalized_api_url(settings: &Settings) -> (r: String)
    ensures
        r@ == normalized_api_url_of(settings.api_url@),
{
    let api = chars_of(settings.api_url.as_str());
    let t = trim_vec(&api);
    let t = trim_end_char_vec(&t, '/');
    if t.len() == 0 {
        default_api_url()
    } else {
        string_of(t.as_slice())
    }
}

/// A media link as returned by the service: absolute links stay as they
/// are, anything else is taken relative to the service address.
pub open spec fn absolute_api_url_of(api_url: Seq<char>, path_or_url: Seq<char>) -> Seq<char> {
    if starts_with(path_or_url, "http://"@) || starts_with(path_or_url, "https://"@) {
        path_or_url
    } else {
        normalized_api_url_of(api_url) + path_or_url
    }
}

pub fn absolute_api_url(settings: &Settings, path_or_url: &str) -> (r: String)
    ensures
        r@ == absolute_api_url_of(settings.api_url@, path_or_url@),
{
    let p = chars_of(path_or_url);
    if starts_with_str(&p, "http://") || starts_with_str(&p, "https://") {
        path_or_url.to_string()
    } else {
        let base = normalized_api_url(settings);
        let mut v = chars_of(base.as_str());
        push_str(&mut v, path_or_url);
        string_of(v.as_slice())
    }
}

/// The proxy that outgoing traffic is routed through: the trimmed proxy
/// address when the proxy is enabled and that address is not blank.
pub open spec fn active_proxy_of(proxy_enabled: bool, proxy_url: Seq<char>) -> Option<Seq<char>> {
    if proxy_enabled && trim(proxy_url).len() > 0 {
        Some(trim(proxy_url))
    } else {
        None
    }
}

pub fn active_proxy(settings: &Settings) -> (r: Option<String>)
    ensures
        match active_proxy_of(settings.proxy_enabled, settings.proxy_url@) {
            Some(p) => r is Some && r->0@ == p,
            None => r is None,
        },
{
    if !settings.proxy_enabled {
        return None;
    }
    let p = chars_of(settings.proxy_url.as_str());
    let t = trim_vec(&p);
    if t.len() == 0 {
        None
    } else {
        Some(string_of(t.as_slice()))
    }
}

/// The environment of the local media service: its address and port, its
/// YouTube options, and the proxy when one is active.
pub open spec fn cobalt_server_env_spec(proxy_enabled: bool, proxy_url: Seq<char>) -> Seq<
    (Seq<char>, Seq<char>),
> {
    seq![
        ("API_URL"@, "http://127.0.0.1:47301"@),
        ("API_PORT"@, "47301"@),
        ("API_LISTEN_ADDRESS"@, "127.0.0.1"@),
        ("YOUTUBE_ALLOW_BETTER_AUDIO"@, "1"@),
        ("FORCE_LOCAL_PROCESSING"@, "never"@),
        ("ENABLE_DEPRECATED_YOUTUBE_HLS"@, "always"@),
        ("DURATION_LIMIT"@, "86400"@),
    ] + match active_proxy_of(proxy_enabled, proxy_url) {
        Some(p) => seq![("HTTP_PROXY"@, p), ("HTTPS_PROXY"@, p), ("NO_PROXY"@, "localhost,127.0.0.1,::1"@)],
        None => Seq::empty(),
    }
}

pub open spec fn pair_views(v: Seq<(String, String)>) -> Seq<(Seq<char>, Seq<char>)> {
    v.map_values(|p: (String, String)| (p.0@, p.1@))
}

fn push_pair(v: &mut Vec<(String, String)>, k: &str, x: &str)
    ensures
        pair_views(final(v)@) == pair_views(old(v)@).push((k@, x@)),
{
    v.push((k.to_string(), x.to_string()));
    proof {
        assert(pair_views(v@) =~= pair_views(old(v)@).push((k@, x@)));
    }
}

pub fn cobalt_server_env(settings: &Settings) -> (r: Vec<(String, String)>)
    ensures
        pair_views(r@) == cobalt_server_env_spec(settings.proxy_enabled, settings.proxy_url@),
{
    let mut v: Vec<(String, String)> = Vec::new();
    push_pair(&mut v, "API_URL", "http://127.0.0.1:47301");
    push_pair(&mut v, "API_PORT", "47301");
    push_pair(&mut v, "API_LISTEN_ADDRESS", "127.0.0.1");
    push_pair(&mut v, "YOUTUBE_ALLOW_BETTER_AUDIO", "1");
    push_pair(&mut v, "FORCE_LOCAL_PROCESSING", "never");
    push_pair(&mut v, "ENABLE_DEPRECATED_YOUTUBE_HLS", "always");
    push_pair(&mut v, "DURATION_LIMIT", "86400");
    let ghost base = pair_views(v@);
    match active_proxy(settings) {
        Some(p) => {
            push_pair(&mut v, "HTTP_PROXY", p.as_str());
            push_pair(&mut v, "HTTPS_PROXY", p.as_str());
            push_pair(&mut v, "NO_PROXY", "localhost,127.0.0.1,::1");
        },
        None => {},
    }
    proof {
        let extra = match active_proxy_of(settings.proxy_enabled, settings.proxy_url@) {
            Some(p) => seq![("HTTP_PROXY"@, p), ("HTTPS_PROXY"@, p), ("NO_PROXY"@, "localhost,127.0.0.1,::1"@)],
            None => Seq::empty(),
        };
        assert(pair_views(v@) =~= base + extra);
    }
    v
}

/// The environment of a local yt-dlp run: the proxy, when one is active.
pub fn ytdlp_env(settings: &Settings) -> (r: Vec<(String, String)>)
    ensures
        pair_views(r@) == match active_proxy_of(settings.proxy_enabled, settings.proxy_url@) {
            Some(p) => seq![("HTTP_PROXY"@, p), ("HTTPS_PROXY"@, p)],
            None => Seq::empty(),
        },
{
    let mut v: Vec<(String, String)> = Vec::new();
    match active_proxy(settings) {
        Some(p) => {
            push_pair(&mut v, "HTTP_PROXY", p.as_str());
            push_pair(&mut v, "HTTPS_PROXY", p.as_str());
        },
        None => {},
    }
    proof {
        if active_proxy_of(settings.proxy_enabled, settings.proxy_url@) is None {
            assert(pair_views(v@) =~= Seq::<(Seq<char>, Seq<char>)>::empty());
        }
    }
    v
}

/// The service address that requests go to is never empty and never ends
/// with `/`, so that a path appended to it has exactly one separator.
pub proof fn lemma_normalized_api_url_shape(api_url: Seq<char>)
    ensures
        normalized_api_url_of(api_url).len() > 0,
        normalized_api_url_of(api_url).last() != '/',
{
    reveal_strlit("http://43.156.122.169");
    let t = trim(api_url);
    crate::text::lemma_trail_char_start(t, '/', t.len() as int);
}

/// A link that is already absolute is used as it is; anything else is
/// appended to the normalized service address.
pub proof fn lemma_absolute_links_are_kept(api_url: Seq<char>, link: Seq<char>)
    ensures
        starts_with(link, "http://"@) || starts_with(link, "https://"@) ==> absolute_api_url_of(
            api_url,
            link,
        ) == link,
        !(starts_with(link, "http://"@) || starts_with(link, "https://"@)) ==> absolute_api_url_of(
            api_url,
            link,
        ) == normalized_api_url_of(api_url) + link,
{
}

} // verus!
