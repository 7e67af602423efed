use cobalt_core::invocation::{
    chrome_cookie_sources, cookie_attempts, local_download_plan, ytdlp_arguments,
};
use cobalt_core::order::sort_lex;
use cobalt_core::settings::Settings;

fn settings() -> Settings {
    Settings::default_with_download_dir("/tmp".to_string())
}

fn strings(v: &[&str]) -> Vec<String> {
    v.iter().map(|s| s.to_string()).collect()
}

#[test]
fn plans_a_youtube_video_download() {
    let s = settings();
    let p = local_download_plan("123", "https://www.youtube.com/watch?v=abc", &s).unwrap();
    assert!(p.is_youtube);
    assert_eq!(p.source_name, "YouTube");
    assert_eq!(p.filename, "youtube_abc.mp4");
    assert_eq!(p.speed_label, "Local YouTube");
    assert_eq!(p.audio_format, "m4a");
    assert_eq!(p.download_mode, "video");
    assert!(!p.aggregate_progress);
    assert_eq!(
        p.format,
        "bestvideo[height<=720][ext=mp4]+bestaudio[ext=m4a]/best[height<=720][ext=mp4]/18/best"
    );
}

#[test]
fn plans_bilibili_downloads() {
    let mut s = settings();
    let v = local_download_plan("1", "https://www.bilibili.com/video/BV1GJ411x7h7", &s).unwrap();
    assert!(!v.is_youtube);
    assert_eq!(v.source_name, "Bilibili");
    assert_eq!(v.filename, "bilibili_BV1GJ411x7h7.mp4");
    assert_eq!(v.speed_label, "Local Bilibili");
    assert!(v.aggregate_progress);
    s.download_mode = "audio".to_string();
    s.audio_format = "mp3".to_string();
    let a = local_download_plan("1", "https://www.bilibili.com/video/BV1GJ411x7h7", &s).unwrap();
    assert_eq!(a.filename, "bilibili_BV1GJ411x7h7.mp3");
    assert!(!a.aggregate_progress);
    assert_eq!(a.format, "bestaudio/best");
}

#[test]
fn falls_back_to_the_task_id_and_skips_other_links() {
    let s = settings();
    let p = local_download_plan("777", "https://youtu.be/", &s).unwrap();
    assert_eq!(p.filename, "youtube_777.mp4");
    assert!(local_download_plan("1", "https://x.com/a/status/1", &s).is_none());
    assert!(local_download_plan("1", "not a link", &s).is_none());
}

#[test]
fn builds_the_yt_dlp_command_line() {
    let s = settings();
    let p = local_download_plan("1", "https://youtu.be/abc", &s).unwrap();
    let args = ytdlp_arguments(
        &p,
        "https://youtu.be/abc",
        "/tmp/youtube_abc.mp4",
        &Some("/bin/ffmpeg".to_string()),
        &Some("/bin/node".to_string()),
        &Some("chrome:Default".to_string()),
    );
    assert_eq!(
        args,
        strings(&[
            "--no-playlist", "--newline", "--no-part", "-f", &p.format, "-o", "/tmp/youtube_abc.mp4",
            "https://youtu.be/abc", "--remote-components", "ejs:github", "--extractor-args",
            "youtube:player_client=mweb,web", "--merge-output-format", "mp4", "--ffmpeg-location",
            "/bin/ffmpeg", "--js-runtimes", "node:/bin/node", "--cookies-from-browser", "chrome:Default",
        ])
    );

    let mut audio = settings();
    audio.download_mode = "audio".to_string();
    audio.audio_format = "opus".to_string();
    let b = local_download_plan("1", "https://b23.tv/x", &audio).unwrap();
    let args = ytdlp_arguments(&b, "https://b23.tv/x", "/tmp/o.opus", &None, &None, &None);
    assert_eq!(
        args,
        strings(&[
            "--no-playlist", "--newline", "--no-part", "-f", "bestaudio/best", "-o", "/tmp/o.opus",
            "https://b23.tv/x", "--extract-audio", "--audio-format", "opus", "--audio-quality", "0",
        ])
    );
}

#[test]
fn lists_chrome_profiles_in_name_order() {
    let dirs = strings(&["Profile 2", "Default", "Profile 10", "System Profile", "Guest Profile", "Profile 1"]);
    assert_eq!(
        chrome_cookie_sources(&dirs),
        strings(&["chrome:Default", "chrome:Profile 1", "chrome:Profile 10", "chrome:Profile 2", "chrome"])
    );
    assert_eq!(chrome_cookie_sources(&Vec::new()), strings(&["chrome:Default", "chrome"]));
    let twice = strings(&["Profile 3", "Profile 3"]);
    assert_eq!(chrome_cookie_sources(&twice), strings(&["chrome:Default", "chrome:Profile 3", "chrome"]));
}

#[test]
fn orders_cookie_attempts() {
    let chrome = strings(&["chrome:Default", "chrome"]);
    let some = |s: &str| Some(s.to_string());
    assert_eq!(
        cookie_attempts(true, &chrome),
        vec![None, some("chrome:Default"), some("chrome"), some("safari"), some("firefox")]
    );
    assert_eq!(
        cookie_attempts(false, &chrome),
        vec![some("chrome:Default"), some("chrome"), some("safari"), some("firefox"), None]
    );
}

#[test]
fn sorts_texts_like_strings() {
    let v: Vec<Vec<char>> = ["b", "ab", "a", "", "é", "B"].iter().map(|s| s.chars().collect()).collect();
    let sorted: Vec<String> = sort_lex(&v).iter().map(|c| c.iter().collect()).collect();
    let mut expected = strings(&["b", "ab", "a", "", "é", "B"]);
    expected.sort();
    assert_eq!(sorted, expected);
}
