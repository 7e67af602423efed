use cobalt_core::links::{
    is_bilibili_url, is_local_ytdlp_url, is_youtube_url, should_relay_download_through_server,
};
use cobalt_core::settings::{
    absolute_api_url, active_proxy, cobalt_server_env, default_api_url, normalized_api_url,
    ytdlp_env, Settings,
};

fn settings() -> Settings {
    Settings::default_with_download_dir("/Users/me/Downloads".to_string())
}

fn pairs(v: &[(&str, &str)]) -> Vec<(String, String)> {
    v.iter().map(|(a, b)| (a.to_string(), b.to_string())).collect()
}

#[test]
fn classifies_youtube_links_by_host() {
    assert!(is_youtube_url("https://www.youtube.com/watch?v=abc"));
    assert!(is_youtube_url("https://youtu.be/abc"));
    assert!(is_youtube_url("https://youtube.com/shorts/x"));
    assert!(is_youtube_url("https://music.youtube.com/watch?v=1"));
    assert!(!is_youtube_url("https://notyoutube.com/watch?v=abc"));
    assert!(!is_youtube_url("not a link"));
}

#[test]
fn classifies_bilibili_links_by_host() {
    assert!(is_bilibili_url("https://www.bilibili.com/video/BV1GJ411x7h7"));
    assert!(is_bilibili_url("https://m.bilibili.com/video/av1"));
    assert!(is_bilibili_url("https://b23.tv/abcd"));
    assert!(is_bilibili_url("https://BILIBILI.COM/video/BV1"));
    assert!(!is_bilibili_url("https://bilibili.example/video"));
    assert!(is_local_ytdlp_url("https://youtu.be/x"));
    assert!(is_local_ytdlp_url("https://b23.tv/x"));
    assert!(!is_local_ytdlp_url("https://x.com/a/status/1"));
}

#[test]
fn relays_hosts_that_need_the_resolving_server() {
    assert!(should_relay_download_through_server("https://x.com/a/status/1"));
    assert!(should_relay_download_through_server("https://www.instagram.com/p/1"));
    assert!(should_relay_download_through_server("https://clips.twitch.tv/x"));
    assert!(should_relay_download_through_server("https://dai.ly/x"));
    assert!(!should_relay_download_through_server("https://example.com/video.mp4"));
    assert!(should_relay_download_through_server("not a link"));
    assert!(should_relay_download_through_server("mailto:someone@example.com"));
}

#[test]
fn local_links_are_always_relayed() {
    for url in ["https://youtu.be/x", "https://www.youtube.com/watch?v=1", "https://www.bilibili.com/video/BV1", "https://b23.tv/q"] {
        assert!(is_local_ytdlp_url(url));
        assert!(should_relay_download_through_server(url));
    }
}

#[test]
fn first_start_settings() {
    let s = settings();
    assert_eq!(default_api_url(), "http://43.156.122.169");
    assert_eq!(s.save_path, "/Users/me/Downloads");
    assert_eq!(s.api_url, "http://43.156.122.169");
    assert_eq!(s.download_mode, "video");
    assert_eq!(s.video_quality, "720");
    assert_eq!(s.audio_format, "best");
    assert!(s.clipboard_monitoring);
    assert_eq!(s.max_parallel_downloads, 3);
    assert!(s.proxy_enabled);
    assert_eq!(s.proxy_url, "http://127.0.0.1:7897");
}

#[test]
fn normalizes_the_service_address() {
    let mut s = settings();
    s.api_url = "  https://api.example.com//  ".to_string();
    assert_eq!(normalized_api_url(&s), "https://api.example.com");
    s.api_url = "   ".to_string();
    assert_eq!(normalized_api_url(&s), "http://43.156.122.169");
    s.api_url = "///".to_string();
    assert_eq!(normalized_api_url(&s), "http://43.156.122.169");
}

#[test]
fn keeps_absolute_links_and_completes_relative_ones() {
    let mut s = settings();
    s.api_url = "https://api.example.com/".to_string();
    assert_eq!(absolute_api_url(&s, "https://cdn.example.com/a.mp4"), "https://cdn.example.com/a.mp4");
    assert_eq!(absolute_api_url(&s, "http://cdn.example.com/a.mp4"), "http://cdn.example.com/a.mp4");
    assert_eq!(absolute_api_url(&s, "/tunnel?id=1"), "https://api.example.com/tunnel?id=1");
}

#[test]
fn proxy_is_used_only_when_enabled_and_set() {
    let mut s = settings();
    s.proxy_url = " http://127.0.0.1:7897 ".to_string();
    assert_eq!(active_proxy(&s), Some("http://127.0.0.1:7897".to_string()));
    s.proxy_enabled = false;
    assert_eq!(active_proxy(&s), None);
    s.proxy_enabled = true;
    s.proxy_url = "   ".to_string();
    assert_eq!(active_proxy(&s), None);
}

#[test]
fn media_service_environment() {
    let mut s = settings();
    s.proxy_enabled = false;
    let base = pairs(&[
        ("API_URL", "http://127.0.0.1:47301"),
        ("API_PORT", "47301"),
        ("API_LISTEN_ADDRESS", "127.0.0.1"),
        ("YOUTUBE_ALLOW_BETTER_AUDIO", "1"),
        ("FORCE_LOCAL_PROCESSING", "never"),
        ("ENABLE_DEPRECATED_YOUTUBE_HLS", "always"),
        ("DURATION_LIMIT", "86400"),
    ]);
    assert_eq!(cobalt_server_env(&s), base);
    assert!(ytdlp_env(&s).is_empty());
    s.proxy_enabled = true;
    let mut with_proxy = base.clone();
    with_proxy.extend(pairs(&[
        ("HTTP_PROXY", "http://127.0.0.1:7897"),
        ("HTTPS_PROXY", "http://127.0.0.1:7897"),
        ("NO_PROXY", "localhost,127.0.0.1,::1"),
    ]));
    assert_eq!(cobalt_server_env(&s), with_proxy);
    assert_eq!(
        ytdlp_env(&s),
        pairs(&[("HTTP_PROXY", "http://127.0.0.1:7897"), ("HTTPS_PROXY", "http://127.0.0.1:7897")])
    );
}
