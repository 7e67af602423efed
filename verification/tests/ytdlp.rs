use cobalt_core::progress::{classify_ytdlp_line, is_float_literal_exec, DownloadStages, YtdlpLine};
use cobalt_core::settings::Settings;
use cobalt_core::sizes::parse_size_to_bytes;
use cobalt_core::ytdlp::{
    bilibili_video_id, progress_line_splits_inside_char, scan_progress_line, split_size_token,
    youtube_video_id, ytdlp_audio_format, ytdlp_error_text, ytdlp_format,
};

fn settings() -> Settings {
    Settings::default_with_download_dir("/tmp".to_string())
}

fn chars(s: &str) -> Vec<char> {
    s.chars().collect()
}

#[test]
fn reads_youtube_video_ids() {
    assert_eq!(youtube_video_id("https://www.youtube.com/watch?v=dQw4w9WgXcQ&t=1"), Some("dQw4w9WgXcQ".to_string()));
    assert_eq!(youtube_video_id("https://youtu.be/dQw4w9WgXcQ?si=x"), Some("dQw4w9WgXcQ".to_string()));
    assert_eq!(youtube_video_id("https://www.youtube.com/watch?v=abc#t=3"), Some("abc".to_string()));
    assert_eq!(youtube_video_id("https://www.youtube.com/shorts/abc"), None);
    assert_eq!(youtube_video_id("https://youtu.be/"), None);
}

#[test]
fn reads_bilibili_video_ids() {
    assert_eq!(bilibili_video_id("https://www.bilibili.com/video/BV1GJ411x7h7/?p=1"), Some("BV1GJ411x7h7".to_string()));
    assert_eq!(bilibili_video_id("https://www.bilibili.com/video/av170001?x=1"), Some("av170001".to_string()));
    assert_eq!(bilibili_video_id("https://www.bilibili.com/video/BV"), None);
    assert_eq!(bilibili_video_id("https://b23.tv/xyz"), None);
}

#[test]
fn asks_for_formats_yt_dlp_supports() {
    let mut s = settings();
    assert_eq!(ytdlp_audio_format(&s), "m4a");
    s.audio_format = "mp3".to_string();
    assert_eq!(ytdlp_audio_format(&s), "mp3");
    s.audio_format = "flac".to_string();
    assert_eq!(ytdlp_audio_format(&s), "m4a");
    assert_eq!(
        ytdlp_format(&s),
        "bestvideo[height<=720][ext=mp4]+bestaudio[ext=m4a]/best[height<=720][ext=mp4]/18/best"
    );
    s.video_quality = "max".to_string();
    assert_eq!(ytdlp_format(&s), "best[ext=mp4]/best");
    s.download_mode = "audio".to_string();
    assert_eq!(ytdlp_format(&s), "bestaudio/best");
}

#[test]
fn explains_yt_dlp_failures() {
    assert_eq!(
        ytdlp_error_text("ERROR: [youtube] x: Sign in to confirm you're not a bot"),
        "YouTube requires local browser cookies. Please log in to YouTube in Chrome/Safari and try again."
    );
    assert_eq!(
        ytdlp_error_text("ERROR: The provided YouTube account cookies are no longer valid"),
        "Local YouTube cookies are expired. Please refresh browser login and try again."
    );
    assert_eq!(
        ytdlp_error_text("ERROR: HTTP Error 412: Precondition Failed"),
        "Bilibili rejected this request with HTTP 412. Please open Bilibili in Chrome, refresh the page, then retry."
    );
    assert_eq!(
        ytdlp_error_text("ERROR: 请先登录"),
        "Bilibili login cookies were not accepted. Please make sure Bilibili is logged in with the active Chrome profile."
    );
    assert_eq!(
        ytdlp_error_text("WARNING: x\nERROR: [generic] Unsupported URL: foo\nmore text\n"),
        "ERROR: [generic] Unsupported URL: foo"
    );
    assert_eq!(ytdlp_error_text("first\n  last line  \n\n"), "last line");
    assert_eq!(ytdlp_error_text(""), "Local yt-dlp download failed");
    assert_eq!(ytdlp_error_text(" \n\t\n"), "Local yt-dlp download failed");
}

#[test]
fn reads_the_pieces_of_a_progress_line() {
    let p = scan_progress_line("[download]  42.5% of 12.34MiB at 1.23MiB/s ETA 00:10\r").unwrap();
    assert_eq!(p.percent, "42.5");
    assert_eq!(p.size, Some("12.34MiB".to_string()));
    assert_eq!(p.total_bytes, 12_939_428);
    assert_eq!(p.speed, Some("1.23MiB/s".to_string()));
    assert_eq!(p.eta, Some("00:10".to_string()));

    let done = scan_progress_line("[download] 100% of 5.00KiB in 00:00:01 at 4.99KiB/s").unwrap();
    assert_eq!(done.percent, "100");
    assert_eq!(done.total_bytes, 5120);
    assert_eq!(done.speed, Some("4.99KiB/s".to_string()));
    assert_eq!(done.eta, None);

    let no_unit = scan_progress_line("[download]  10.0% of 1.00MiB at 2.00MiB ETA 00:01").unwrap();
    assert_eq!(no_unit.speed, Some("2.00MiB/s".to_string()));

    let unknown = scan_progress_line("[download]   1.0% of ~unknown at Unknown B/s ETA Unknown").unwrap();
    assert_eq!(unknown.total_bytes, 0);

    assert!(scan_progress_line("[download] Destination: a.mp4").is_none());
    assert!(scan_progress_line("[youtube] 50% done").is_none());
}

#[test]
fn flags_lines_whose_percentage_follows_a_wide_space() {
    assert!(progress_line_splits_inside_char("[download]\u{3000}42%"));
    assert!(!progress_line_splits_inside_char("[download] 42%"));
    assert!(!progress_line_splits_inside_char("[info] \u{3000}nothing"));
}

#[test]
fn reads_sizes_in_bytes() {
    assert_eq!(parse_size_to_bytes("1KiB"), Some(1024));
    assert_eq!(parse_size_to_bytes("1.5MiB"), Some(1_572_864));
    assert_eq!(parse_size_to_bytes("12.34MiB"), Some(12_939_428));
    assert_eq!(parse_size_to_bytes(" 2 GiB "), Some(2_147_483_648));
    assert_eq!(parse_size_to_bytes("1TB"), Some(1_099_511_627_776));
    assert_eq!(parse_size_to_bytes("100"), Some(100));
    assert_eq!(parse_size_to_bytes("100 bytes"), Some(100));
    assert_eq!(parse_size_to_bytes("3.1KiB/s"), Some(3174));
    assert_eq!(parse_size_to_bytes(".5K"), Some(512));
    assert_eq!(parse_size_to_bytes("5."), Some(5));
    assert_eq!(parse_size_to_bytes("0.5"), Some(1));
    assert_eq!(parse_size_to_bytes("2.5B"), Some(3));
    assert_eq!(parse_size_to_bytes("0.0005KiB"), Some(1));
    assert_eq!(parse_size_to_bytes("99999999999TiB"), Some(u64::MAX));
    assert_eq!(parse_size_to_bytes("unknown"), None);
    assert_eq!(parse_size_to_bytes("UNKNOWN"), None);
    assert_eq!(parse_size_to_bytes(""), None);
    assert_eq!(parse_size_to_bytes("10XB"), None);
    assert_eq!(parse_size_to_bytes("1.2.3MiB"), None);
    assert_eq!(parse_size_to_bytes("."), None);
    assert_eq!(parse_size_to_bytes("MiB"), None);
}

#[test]
fn splits_size_tokens() {
    let t = split_size_token("12.5MiB/s").unwrap();
    assert_eq!(t.number, "12.5");
    assert_eq!(t.power, 2);
    assert!(split_size_token("12.5PiB").is_none());
}

#[test]
fn recognizes_float_literals() {
    for ok in ["42.5", "1e3", "1E-3", "inf", "-NaN", "+Infinity", ".5", "5.", "0"] {
        assert!(is_float_literal_exec(&chars(ok)), "{}", ok);
        assert!(ok.parse::<f64>().is_ok());
    }
    for bad in [".", "1.2.3", "e5", "1e", "", "+", "abc", "1,5", "--1"] {
        assert!(!is_float_literal_exec(&chars(bad)), "{}", bad);
        assert!(bad.parse::<f64>().is_err());
    }
}

#[test]
fn classifies_output_lines() {
    assert!(matches!(classify_ytdlp_line("[download] Destination: a.f137.mp4"), YtdlpLine::Destination));
    match classify_ytdlp_line("  [download]  42.5% of 12.34MiB at 1.23MiB/s ETA 00:10  ") {
        YtdlpLine::Progress(p) => assert_eq!(p.percent, "42.5"),
        _ => panic!("expected a progress line"),
    }
    assert!(matches!(classify_ytdlp_line("[Merger] Merging formats into \"a.mp4\""), YtdlpLine::Merging));
    assert!(matches!(classify_ytdlp_line("[ExtractAudio] Destination: a.mp3"), YtdlpLine::Merging));
    assert!(matches!(classify_ytdlp_line("[youtube] abc: Downloading webpage"), YtdlpLine::Other));
    assert!(matches!(classify_ytdlp_line("[download]  abc% of x"), YtdlpLine::Other));
}

#[test]
fn counts_download_streams() {
    let mut s = DownloadStages::new();
    assert_eq!((s.stage, s.destinations), (0, 0));
    s.on_destination();
    assert_eq!((s.stage, s.destinations), (0, 1));
    s.on_destination();
    assert_eq!((s.stage, s.destinations), (1, 2));
}
