//! Parsed links and the classification of their hosts.
use vstd::prelude::*;
use crate::text::{
    chars_of, ends_with, ends_with_str, lower_ascii_seq, lower_ascii_vec, str_eq,
    strip_all_prefix, strip_all_prefix_exec,
};

verus! {

/// The parts of a parsed link that the library reads.
pub struct UrlParts {
    /// Lower-case scheme, without the `':'`.
    pub scheme: String,
    /// Host, when the link has one.
    pub host: Option<String>,
    /// Explicit port, or the scheme's well-known one.
    pub port: Option<u16>,
    /// `'/'`-separated path segments; `None` for links that cannot be a base.
    pub path_segments: Option<Vec<String>>,
    /// Decoded `key=value` pairs of the query, in order.
    pub query_pairs: Vec<(String, String)>,
}

/// The model of [`UrlParts`].
pub struct UrlView {
    pub scheme: Seq<char>,
    pub host: Option<Seq<char>>,
    pub port: Option<u16>,
    pub path_segments: Option<Seq<Seq<char>>>,
    pub query_pairs: Seq<(Seq<char>, Seq<char>)>,
}

impl View for UrlParts {
    type V = UrlView;

    open spec fn view(&self) -> UrlView {
        UrlView {
            scheme: self.scheme@,
            host: self.host.deep_view(),
            port: self.port,
            path_segments: self.path_segments.deep_view(),
            query_pairs: self.query_pairs.deep_view(),
        }
    }
}

/// What `reqwest::Url::parse` makes of a text: the parts above, or the
/// parser's error message.
pub uninterp spec fn url_parse(s: Seq<char>) -> Result<UrlView, Seq<char>>;

/// Calls `reqwest::Url::parse` (the `url` crate's WHATWG parser) and reads
/// `scheme`, `host_str`, `port_or_known_default`, `path_segments` and
/// `query_pairs` of the result, or the `Display` text of the error. The
/// contract only ties the outcome to the name `url_parse` of the input; it
/// says nothing of what the parser accepts.
#[verifier::external_body]
fn parse_with_reqwest(s: &str) -> (r: Result<UrlParts, String>)
    ensures
        match r {
            Ok(u) => url_parse(s@) == Ok::<UrlView, Seq<char>>(u@),
            Err(e) => url_parse(s@) == Err::<UrlView, Seq<char>>(e@),
        },
{
    match reqwest::Url::parse(s) {
        Ok(u) => Ok(UrlParts {
            scheme: u.scheme().to_string(),
            host: u.host_str().map(|h| h.to_string()),
            port: u.port_or_known_default(),
            path_segments: u.path_segments().map(|p| p.map(|x| x.to_string()).collect()),
            query_pairs: u.query_pairs().map(|(k, v)| (k.into_owned(), v.into_owned())).collect(),
        }),
        Err(e) => Err(e.to_string()),
    }
}

impl UrlParts {
    /// Parses a link.
    pub fn parse(s: &str) -> (r: Result<UrlParts, String>)
        ensures
            match r {
                Ok(u) => url_parse(s@) == Ok::<UrlView, Seq<char>>(u@),
                Err(e) => url_parse(s@) == Err::<UrlView, Seq<char>>(e@),
            },
    {
        parse_with_reqwest(s)
    }
}

/// The host of a link that parses and has one.
pub open spec fn host_of(url: Seq<char>) -> Option<Seq<char>> {
    match url_parse(url) {
        Ok(u) => u.host,
        Err(_) => None,
    }
}

/// A host with its leading `"www."` labels removed and ASCII-lowercased.
pub open spec fn plain_host(host: Seq<char>) -> Seq<char> {
    lower_ascii_seq(strip_all_prefix(host, "www."@))
}

pub open spec fn is_youtube_host(h: Seq<char>) -> bool {
    h == "youtu.be"@ || ends_with(h, ".youtube.com"@) || h == "youtube.com"@
}

pub open spec fn is_bilibili_host(h: Seq<char>) -> bool {
    h == "bilibili.com"@ || ends_with(h, ".bilibili.com"@) || h == "b23.tv"@
}

/// Hosts whose media is fetched through the remote service itself.
pub open spec fn is_relay_host(h: Seq<char>) -> bool {
    h == "youtu.be"@ || h == "youtube.com"@ || ends_with(h, ".youtube.com"@) || h
        == "bilibili.com"@ || ends_with(h, ".bilibili.com"@) || h == "b23.tv"@ || h
        == "instagram.com"@ || ends_with(h, ".instagram.com"@) || h == "ddinstagram.com"@ || h
        == "twitter.com"@ || ends_with(h, ".twitter.com"@) || h == "x.com"@ || ends_with(
        h,
        ".x.com"@,
    ) || h == "vxtwitter.com"@ || h == "fixvx.com"@ || h == "dailymotion.com"@ || ends_with(
        h,
        ".dailymotion.com"@,
    ) || h == "dai.ly"@ || h == "twitch.tv"@ || ends_with(h, ".twitch.tv"@)
}

pub open spec fn is_youtube_url_spec(url: Seq<char>) -> bool {
    match host_of(url) {
        Some(h) => is_youtube_host(h),
        None => false,
    }
}

pub open spec fn is_bilibili_url_spec(url: Seq<char>) -> bool {
    match host_of(url) {
        Some(h) => is_bilibili_host(plain_host(h)),
        None => false,
    }
}

/// Links that cannot be parsed, or have no host, are relayed too.
pub open spec fn should_relay_spec(url: Seq<char>) -> bool {
    match host_of(url) {
        Some(h) => is_relay_host(plain_host(h)),
        None => true,
    }
}

fn host_chars(url: &str) -> (r: Option<Vec<char>>)
    ensures
        match host_of(url@) {
            Some(h) => r is Some && r->0@ == h,
            None => r is None,
        },
{
    match parse_with_reqwest(url) {
        Ok(u) => match u.host {
            Some(h) => Some(chars_of(h.as_str())),
            None => None,
        },
        Err(_) => None,
    }
}

fn plain_host_exec(h: &Vec<char>) -> (r: Vec<char>)
    ensures
        r@ == plain_host(h@),
{
    let www = chars_of("www.");
    let stripped = strip_all_prefix_exec(h, &www);
    lower_ascii_vec(&stripped)
}

pub fn is_youtube_url(url: &str) -> (r: bool)
    ensures
        r == is_youtube_url_spec(url@),
{
    match host_chars(url) {
        Some(h) => str_eq(&h, "youtu.be") || ends_with_str(&h, ".youtube.com") || str_eq(
            &h,
            "youtube.com",
        ),
        None => false,
    }
}

pub fn is_bilibili_url(url: &str) -> (r: bool)
    ensures
        r == is_bilibili_url_spec(url@),
{
    match host_chars(url) {
        Some(h) => {
            let p = plain_host_exec(&h);
            str_eq(&p, "bilibili.com") || ends_with_str(&p, ".bilibili.com") || str_eq(
                &p,
                "b23.tv",
            )
        },
        None => false,
    }
}

/// Links that are downloaded with the local yt-dlp.
pub open spec fn is_local_ytdlp_url_spec(url: Seq<char>) -> bool {
    is_youtube_url_spec(url) || is_bilibili_url_spec(url)
}

pub fn is_local_ytdlp_url(url: &str) -> (r: bool)
    ensures
        r == is_local_ytdlp_url_spec(url@),
{
    is_youtube_url(url) || is_bilibili_url(url)
}

pub fn should_relay_download_through_server(url: &str) -> (r: bool)
    ensures
        r == should_relay_spec(url@),
{
    match host_chars(url) {
        Some(h) => {
            let p = plain_host_exec(&h);
            str_eq(&p, "youtu.be") || str_eq(&p, "youtube.com") || ends_with_str(
                &p,
                ".youtube.com",
            ) || str_eq(&p, "bilibili.com") || ends_with_str(&p, ".bilibili.com") || str_eq(
                &p,
                "b23.tv",
            ) || str_eq(&p, "instagram.com") || ends_with_str(&p, ".instagram.com") || str_eq(
                &p,
                "ddinstagram.com",
            ) || str_eq(&p, "twitter.com") || ends_with_str(&p, ".twitter.com") || str_eq(
                &p,
                "x.com",
            ) || ends_with_str(&p, ".x.com") || str_eq(&p, "vxtwitter.com") || str_eq(
                &p,
                "fixvx.com",
            ) || str_eq(&p, "dailymotion.com") || ends_with_str(&p, ".dailymotion.com")
                || str_eq(&p, "dai.ly") || str_eq(&p, "twitch.tv") || ends_with_str(
                &p,
                ".twitch.tv",
            )
        },
        None => true,
    }
}

proof fn lemma_lower_literal(lit: Seq<char>)
    requires
        forall|i: int| 0 <= i < lit.len() ==> !crate::text::is_upper_ascii(#[trigger] lit[i]),
    ensures
        lower_ascii_seq(lit) == lit,
{
    assert(lower_ascii_seq(lit) =~= lit);
}

proof fn lemma_lower_keeps_suffix(t: Seq<char>, suffix: Seq<char>)
    requires
        ends_with(t, suffix),
        lower_ascii_seq(suffix) == suffix,
    ensures
        ends_with(lower_ascii_seq(t), suffix),
{
    let n = t.len() - suffix.len();
    assert(lower_ascii_seq(t).skip(n) =~= lower_ascii_seq(t.skip(n)));
}

/// Stripping `"www."` labels keeps a YouTube host a YouTube host.
proof fn lemma_strip_www_youtube(s: Seq<char>)
    requires
        is_youtube_host(s),
    ensures
        is_youtube_host(strip_all_prefix(s, "www."@)),
    decreases s.len(),
{
    reveal_strlit("www.");
    reveal_strlit("youtube.com");
    reveal_strlit("youtu.be");
    reveal_strlit(".youtube.com");
    if starts_with_www(s) {
        let t = s.skip(4);
        assert(s[0] == 'w' && s[1] == 'w' && s[2] == 'w' && s[3] == '.') by {
            assert(s.take(4)[0] == s[0] && s.take(4)[1] == s[1]);
            assert(s.take(4)[2] == s[2] && s.take(4)[3] == s[3]);
        }
        assert(s != "youtube.com"@);
        assert(s != "youtu.be"@);
        let y = ".youtube.com"@;
        assert(ends_with(s, y));
        let n = s.len() - 12;
        assert(s.skip(n) == y);
        assert(s[n] == '.') by {
            assert(s.skip(n)[0] == s[n]);
        }
        if s.len() >= 16 {
            assert(t.skip(t.len() - 12) =~= s.skip(n));
            assert(ends_with(t, y));
        } else if s.len() == 15 {
            assert forall|k: int| 0 <= k < 11 implies t[k] == "youtube.com"@[k] by {
                assert(s.skip(n)[k + 1] == s[k + 4]);
            }
            assert(t =~= "youtube.com"@);
        } else {
            assert(n <= 2);
            assert(s[n] == 'w');
        }
        lemma_strip_www_youtube(t);
    }
}

spec fn starts_with_www(s: Seq<char>) -> bool {
    "www."@.len() > 0 && crate::text::starts_with(s, "www."@)
}

/// Every link that the local yt-dlp handles is also one whose media the
/// remote service would relay: YouTube and Bilibili hosts are on the relay
/// list.
pub proof fn lemma_local_ytdlp_links_are_relayed(url: Seq<char>)
    requires
        is_local_ytdlp_url_spec(url),
    ensures
        should_relay_spec(url),
{
    let h = host_of(url)->0;
    if is_youtube_url_spec(url) {
        reveal_strlit("youtube.com");
        reveal_strlit("youtu.be");
        reveal_strlit(".youtube.com");
        lemma_strip_www_youtube(h);
        let t = strip_all_prefix(h, "www."@);
        lemma_lower_literal("youtube.com"@);
        lemma_lower_literal("youtu.be"@);
        lemma_lower_literal(".youtube.com"@);
        if ends_with(t, ".youtube.com"@) {
            lemma_lower_keeps_suffix(t, ".youtube.com"@);
        }
    }
}

/// The media of a link whose host is, after dropping leading `www.` and
/// lower-casing, one of `youtu.be`, `youtube.com`, `bilibili.com`, `b23.tv`,
/// `instagram.com`, `ddinstagram.com`, `twitter.com`, `x.com`,
/// `vxtwitter.com`, `fixvx.com`, `dailymotion.com`, `dai.ly` or `twitch.tv`
/// is relayed by the remote service.
pub proof fn lemma_listed_hosts_are_relayed(url: Seq<char>)
    requires
        host_of(url) is Some,
        plain_host(host_of(url)->0) == "youtu.be"@
        || plain_host(host_of(url)->0) == "youtube.com"@
        || plain_host(host_of(url)->0) == "bilibili.com"@
        || plain_host(host_of(url)->0) == "b23.tv"@
        || plain_host(host_of(url)->0) == "instagram.com"@
        || plain_host(host_of(url)->0) == "ddinstagram.com"@
        || plain_host(host_of(url)->0) == "twitter.com"@
        || plain_host(host_of(url)->0) == "x.com"@
        || plain_host(host_of(url)->0) == "vxtwitter.com"@
        || plain_host(host_of(url)->0) == "fixvx.com"@
        || plain_host(host_of(url)->0) == "dailymotion.com"@
        || plain_host(host_of(url)->0) == "dai.ly"@
        || plain_host(host_of(url)->0) == "twitch.tv"@,
    ensures
        should_relay_spec(url),
{
}

proof fn lemma_plain_listed_host(h: Seq<char>)
    requires
        h == "youtu.be"@
        || h == "youtube.com"@
        || h == "bilibili.com"@
        || h == "b23.tv"@
        || h == "instagram.com"@
        || h == "ddinstagram.com"@
        || h == "twitter.com"@
        || h == "x.com"@
        || h == "vxtwitter.com"@
        || h == "fixvx.com"@
        || h == "dailymotion.com"@
        || h == "dai.ly"@
        || h == "twitch.tv"@,
    ensures
        plain_host(h) == h,
{
    reveal_strlit("youtu.be");
    reveal_strlit("youtube.com");
    reveal_strlit("bilibili.com");
    reveal_strlit("b23.tv");
    reveal_strlit("instagram.com");
    reveal_strlit("ddinstagram.com");
    reveal_strlit("twitter.com");
    reveal_strlit("x.com");
    reveal_strlit("vxtwitter.com");
    reveal_strlit("fixvx.com");
    reveal_strlit("dailymotion.com");
    reveal_strlit("dai.ly");
    reveal_strlit("twitch.tv");
    reveal_strlit("www.");
    assert(h[0] != 'w');
    assert(!crate::text::starts_with(h, "www."@)) by {
        if crate::text::starts_with(h, "www."@) {
            assert(h.take(4)[0] == h[0]);
        }
    }
    assert(strip_all_prefix(h, "www."@) == h);
    assert forall|i: int| 0 <= i < h.len() implies !crate::text::is_upper_ascii(#[trigger] h[i]) by {
    }
    lemma_lower_literal(h);
}

/// A link whose host is written exactly as one of the relayed hosts
/// (`youtu.be`, `youtube.com`, `bilibili.com`, `b23.tv`, `instagram.com`,
/// `ddinstagram.com`, `twitter.com`, `x.com`, `vxtwitter.com`,
/// `fixvx.com`, `dailymotion.com`, `dai.ly`, `twitch.tv`) is relayed.
pub proof fn lemma_relayed_host_names(url: Seq<char>, h: Seq<char>)
    requires
        host_of(url) == Some(h),
        h == "youtu.be"@
        || h == "youtube.com"@
        || h == "bilibili.com"@
        || h == "b23.tv"@
        || h == "instagram.com"@
        || h == "ddinstagram.com"@
        || h == "twitter.com"@
        || h == "x.com"@
        || h == "vxtwitter.com"@
        || h == "fixvx.com"@
        || h == "dailymotion.com"@
        || h == "dai.ly"@
        || h == "twitch.tv"@,
    ensures
        should_relay_spec(url),
{
    if h == "youtu.be"@ {
        lemma_plain_listed_host("youtu.be"@);
    }
    if h == "youtube.com"@ {
        lemma_plain_listed_host("youtube.com"@);
    }
    if h == "bilibili.com"@ {
        lemma_plain_listed_host("bilibili.com"@);
    }
    if h == "b23.tv"@ {
        lemma_plain_listed_host("b23.tv"@);
    }
    if h == "instagram.com"@ {
        lemma_plain_listed_host("instagram.com"@);
    }
    if h == "ddinstagram.com"@ {
        lemma_plain_listed_host("ddinstagram.com"@);
    }
    if h == "twitter.com"@ {
        lemma_plain_listed_host("twitter.com"@);
    }
    if h == "x.com"@ {
        lemma_plain_listed_host("x.com"@);
    }
    if h == "vxtwitter.com"@ {
        lemma_plain_listed_host("vxtwitter.com"@);
    }
    if h == "fixvx.com"@ {
        lemma_plain_listed_host("fixvx.com"@);
    }
    if h == "dailymotion.com"@ {
        lemma_plain_listed_host("dailymotion.com"@);
    }
    if h == "dai.ly"@ {
        lemma_plain_listed_host("dai.ly"@);
    }
    if h == "twitch.tv"@ {
        lemma_plain_listed_host("twitch.tv"@);
    }
    lemma_listed_hosts_are_relayed(url);
}

/// The media of a link on a subdomain of `youtube.com`, `bilibili.com`,
/// `instagram.com`, `twitter.com`, `x.com`, `dailymotion.com` or
/// `twitch.tv` (after dropping leading `www.` and lower-casing) is relayed.
pub proof fn lemma_listed_subdomains_are_relayed(url: Seq<char>)
    requires
        host_of(url) is Some,
        ends_with(plain_host(host_of(url)->0), ".youtube.com"@)
        || ends_with(plain_host(host_of(url)->0), ".bilibili.com"@)
        || ends_with(plain_host(host_of(url)->0), ".instagram.com"@)
        || ends_with(plain_host(host_of(url)->0), ".twitter.com"@)
        || ends_with(plain_host(host_of(url)->0), ".x.com"@)
        || ends_with(plain_host(host_of(url)->0), ".dailymotion.com"@)
        || ends_with(plain_host(host_of(url)->0), ".twitch.tv"@),
    ensures
        should_relay_spec(url),
{
}

/// A link whose host is none of the relayed hosts and on none of their
/// subdomains is fetched directly, not through the remote service.
pub proof fn lemma_other_hosts_are_not_relayed(url: Seq<char>)
    requires
        host_of(url) is Some,
        plain_host(host_of(url)->0) != "youtu.be"@
        && plain_host(host_of(url)->0) != "youtube.com"@
        && plain_host(host_of(url)->0) != "bilibili.com"@
        && plain_host(host_of(url)->0) != "b23.tv"@
        && plain_host(host_of(url)->0) != "instagram.com"@
        && plain_host(host_of(url)->0) != "ddinstagram.com"@
        && plain_host(host_of(url)->0) != "twitter.com"@
        && plain_host(host_of(url)->0) != "x.com"@
        && plain_host(host_of(url)->0) != "vxtwitter.com"@
        && plain_host(host_of(url)->0) != "fixvx.com"@
        && plain_host(host_of(url)->0) != "dailymotion.com"@
        && plain_host(host_of(url)->0) != "dai.ly"@
        && plain_host(host_of(url)->0) != "twitch.tv"@,
        !ends_with(plain_host(host_of(url)->0), ".youtube.com"@)
        && !ends_with(plain_host(host_of(url)->0), ".bilibili.com"@)
        && !ends_with(plain_host(host_of(url)->0), ".instagram.com"@)
        && !ends_with(plain_host(host_of(url)->0), ".twitter.com"@)
        && !ends_with(plain_host(host_of(url)->0), ".x.com"@)
        && !ends_with(plain_host(host_of(url)->0), ".dailymotion.com"@)
        && !ends_with(plain_host(host_of(url)->0), ".twitch.tv"@),
    ensures
        !should_relay_spec(url),
{
}

} // verus!
