use cobalt_core::cobalt::{
    attempt_verdict, build_cobalt_payload, choose_download_target, cobalt_attempts,
    cobalt_error_text, youtube_attempt_outcome, CobaltResponse, PickerItem,
};
use cobalt_core::settings::Settings;

fn settings() -> Settings {
    let mut s = Settings::default_with_download_dir("/tmp".to_string());
    s.api_url = "https://api.example.com/".to_string();
    s
}

fn reply(status: Option<&str>) -> CobaltResponse {
    CobaltResponse {
        status: status.map(|s| s.to_string()),
        text: None,
        error_code: None,
        filename: None,
        has_filename: false,
        url: None,
        picker: None,
    }
}

fn item(kind: Option<&str>, url: Option<&str>) -> PickerItem {
    PickerItem { kind: kind.map(|s| s.to_string()), url: url.map(|s| s.to_string()) }
}

#[test]
fn builds_request_payloads() {
    let mut s = settings();
    let p = build_cobalt_payload("https://x.com/a/status/1", &s, false, None);
    assert_eq!(p.url, "https://x.com/a/status/1");
    assert_eq!(p.video_quality, "720");
    assert_eq!(p.download_mode, "auto");
    assert_eq!(p.audio_format, "best");
    assert_eq!(p.filename_style, "pretty");
    assert_eq!(p.youtube_video_codec, "h264");
    assert!(!p.youtube_hls);
    assert!(p.youtube_better_audio);
    assert_eq!(p.local_processing, "disabled");
    assert!(p.always_proxy);
    assert_eq!(p.innertube_client, None);
    s.download_mode = "audio".to_string();
    let q = build_cobalt_payload("https://example.com/v.mp4", &s, true, Some("IOS"));
    assert_eq!(q.download_mode, "audio");
    assert!(q.youtube_hls);
    assert!(!q.always_proxy);
    assert_eq!(q.innertube_client, Some("IOS".to_string()));
}

#[test]
fn tries_youtube_clients_in_order() {
    let a = cobalt_attempts("https://www.youtube.com/watch?v=1");
    let labels: Vec<&str> = a.iter().map(|x| x.label.as_str()).collect();
    assert_eq!(labels, vec!["MWEB", "WEB_CREATOR", "YTMUSIC", "ANDROID_VR", "IOS", "ANDROID", "HLS_IOS"]);
    assert!(a[6].youtube_hls);
    assert_eq!(a[6].innertube_client, Some("IOS".to_string()));
    let plain = cobalt_attempts("https://x.com/a");
    assert_eq!(plain.len(), 1);
    assert_eq!(plain[0].innertube_client, None);
}

#[test]
fn reads_error_replies() {
    let mut r = reply(Some("error"));
    assert_eq!(cobalt_error_text(&r), "Unknown Cobalt API error");
    r.error_code = Some("error.api.fetch.fail".to_string());
    assert_eq!(cobalt_error_text(&r), "error.api.fetch.fail");
    r.text = Some("nope".to_string());
    assert_eq!(cobalt_error_text(&r), "nope");
    assert_eq!(youtube_attempt_outcome(&r), Err("nope".to_string()));
    assert_eq!(youtube_attempt_outcome(&reply(Some("tunnel"))), Ok(()));
    assert_eq!(youtube_attempt_outcome(&reply(None)), Ok(()));
}

#[test]
fn decides_each_attempt() {
    let err = reply(Some("error"));
    assert_eq!(attempt_verdict(true, "MWEB", &Ok(err)), Some("Unknown Cobalt API error".to_string()));
    assert_eq!(attempt_verdict(false, "default", &Ok(reply(Some("error")))), None);
    assert_eq!(attempt_verdict(true, "IOS", &Ok(reply(Some("redirect")))), None);
    assert_eq!(
        attempt_verdict(true, "IOS", &Err("timeout".to_string())),
        Some("Cobalt API error with IOS: timeout".to_string())
    );
    assert_eq!(
        attempt_verdict(false, "default", &Err("timeout".to_string())),
        Some("Cobalt API error: timeout".to_string())
    );
}

#[test]
fn chooses_what_to_download() {
    let s = settings();
    let mut r = reply(Some("tunnel"));
    r.url = Some("/tunnel?id=1".to_string());
    let t = choose_download_target(&r, &s, "42").ok().unwrap();
    assert_eq!(t.url, "https://api.example.com/tunnel?id=1");
    assert_eq!(t.filename, "cobalt_42");

    let mut r = reply(Some("redirect"));
    r.url = Some("https://cdn.example/v.mp4".to_string());
    r.filename = Some("v.mp4".to_string());
    r.has_filename = true;
    let t = choose_download_target(&r, &s, "42").ok().unwrap();
    assert_eq!((t.url.as_str(), t.filename.as_str()), ("https://cdn.example/v.mp4", "v.mp4"));

    let mut r = reply(Some("picker"));
    r.picker = Some(vec![item(Some("photo"), Some("/p.jpg")), item(Some("video"), Some("/v.mp4"))]);
    let t = choose_download_target(&r, &s, "7").ok().unwrap();
    assert_eq!((t.url.as_str(), t.filename.as_str()), ("https://api.example.com/v.mp4", "cobalt_7.mp4"));

    r.picker = Some(vec![item(Some("photo"), Some("https://cdn/p.jpg"))]);
    let t = choose_download_target(&r, &s, "7").ok().unwrap();
    assert_eq!((t.url.as_str(), t.filename.as_str()), ("https://cdn/p.jpg", "cobalt_7.jpg"));

    r.picker = Some(Vec::new());
    assert_eq!(choose_download_target(&r, &s, "7").err().unwrap(), "Picker response returned no items");
    r.picker = None;
    assert_eq!(choose_download_target(&r, &s, "7").err().unwrap(), "Invalid picker response format");

    let mut e = reply(Some("error"));
    e.text = Some("bad link".to_string());
    assert_eq!(choose_download_target(&e, &s, "7").err().unwrap(), "bad link");
    assert_eq!(
        choose_download_target(&reply(Some("local-processing")), &s, "7").err().unwrap(),
        "Unsupported response status: local-processing"
    );
    assert_eq!(choose_download_target(&reply(None), &s, "7").err().unwrap(), "Unsupported response status: ");
}
