use cobalt_core::links::UrlParts;
use cobalt_core::xinpianchang::{
    article_id, finish_resolution, is_xinpianchang_url, navigation_decision, parse_callback_url,
    resolution_precheck, safe_filename, NavigationDecision, ResolverEnd,
};

#[test]
fn recognizes_only_xinpianchang_article_urls() {
    assert!(is_xinpianchang_url(
        "https://www.xinpianchang.com/a13775532?from=IndexPick"
    ));
    assert!(is_xinpianchang_url("https://xinpianchang.com/a1"));
    assert!(is_xinpianchang_url("https://xinpianchang.com/a1/"));
    assert!(!is_xinpianchang_url("ftp://xinpianchang.com/a1"));
    assert!(!is_xinpianchang_url(
        "https://xinpianchang.example/a13775532"
    ));
    assert!(!is_xinpianchang_url(
        "https://evilxinpianchang.com/a13775532"
    ));
    assert!(!is_xinpianchang_url(
        "https://www.xinpianchang.com/discover/article"
    ));
    assert_eq!(
        article_id("https://www.xinpianchang.com/a13775532"),
        Some("a13775532".into())
    );
}

#[test]
fn parses_a_resolved_media_callback() {
    let callback = UrlParts::parse(
        "cobalt-xpc://resolved/?url=https%3A%2F%2Fus-xpc5-l2.xpccdn.com%2Fvideo.mp4%3Fe%3D1%26s%3D2&title=A%2FB%3A+C&articleId=13775532&filesize=116600857",
    )
    .unwrap();
    let media = parse_callback_url(&callback).unwrap();
    assert_eq!(media.url, "https://us-xpc5-l2.xpccdn.com/video.mp4?e=1&s=2");
    assert_eq!(media.filename, "A_B_ C.mp4");
    assert_eq!(media.expected_bytes, 116_600_857);
    assert_eq!(media.article_id, "13775532");
}

#[test]
fn reports_resolver_errors_and_safe_fallback_names() {
    let callback = UrlParts::parse("cobalt-xpc://error/?message=Video+not+available").unwrap();
    assert_eq!(
        parse_callback_url(&callback).err().unwrap(),
        "Video not available"
    );
    assert_eq!(safe_filename(" /:*? ", "13775532"), "____.mp4");
    assert_eq!(safe_filename("", "13775532"), "xinpianchang_13775532.mp4");

    let unexpected_host = UrlParts::parse(
        "cobalt-xpc://resolved/?url=https%3A%2F%2Fevil.example%2Fvideo.mp4&articleId=13775532",
    )
    .unwrap();
    assert_eq!(
        parse_callback_url(&unexpected_host).err().unwrap(),
        "Xinpianchang returned an unexpected media host"
    );
}

#[test]
fn ends_resolution_with_a_reason() {
    assert_eq!(
        finish_resolution(&ResolverEnd::Closed).err().unwrap(),
        "The Xinpianchang resolver closed before finding a video"
    );
    assert_eq!(
        finish_resolution(&ResolverEnd::TimedOut).err().unwrap(),
        "Timed out while resolving the Xinpianchang video"
    );
    let callback = UrlParts::parse("cobalt-xpc://error/?message=gone").unwrap();
    assert_eq!(finish_resolution(&ResolverEnd::Callback(callback)).err().unwrap(), "gone");
    assert!(resolution_precheck("https://www.xinpianchang.com/a13775532").is_ok());
    assert_eq!(
        resolution_precheck("https://www.xinpianchang.com/discover").unwrap_err(),
        "Unsupported Xinpianchang article URL"
    );
}

#[test]
fn steers_the_resolver_window() {
    assert!(matches!(navigation_decision("cobalt-xpc", Some("resolved")), NavigationDecision::Report));
    assert!(matches!(navigation_decision("about", None), NavigationDecision::Allow));
    assert!(matches!(navigation_decision("https", Some("www.xinpianchang.com")), NavigationDecision::Allow));
    assert!(matches!(navigation_decision("https", Some("evil.example")), NavigationDecision::Deny));
    assert!(matches!(navigation_decision("https", None), NavigationDecision::Deny));
}

#[test]
fn falls_back_to_defaults_in_callbacks() {
    let callback = UrlParts::parse(
        "cobalt-xpc://resolved/?url=https%3A%2F%2Fxpccdn.com%2Fv.mp4&filesize=abc",
    )
    .unwrap();
    let media = parse_callback_url(&callback).unwrap();
    assert_eq!(media.filename, "Xinpianchang video.mp4");
    assert_eq!(media.article_id, "video");
    assert_eq!(media.expected_bytes, 0);
    let http = UrlParts::parse("cobalt-xpc://resolved/?url=http%3A%2F%2Fxpccdn.com%2Fv.mp4").unwrap();
    assert_eq!(parse_callback_url(&http).err().unwrap(), "Xinpianchang returned an invalid media URL");
    let other = UrlParts::parse("cobalt-xpc://other/").unwrap();
    assert_eq!(parse_callback_url(&other).err().unwrap(), "Unexpected Xinpianchang resolver callback");
    let scheme = UrlParts::parse("https://resolved/").unwrap();
    assert_eq!(parse_callback_url(&scheme).err().unwrap(), "Unexpected Xinpianchang resolver callback");
    let long = "x".repeat(130);
    assert_eq!(safe_filename(&long, "1"), format!("{}.mp4", "x".repeat(120)));
    assert_eq!(safe_filename("  a\tb...  ", "1"), "a b.mp4");
}

#[test]
fn compares_resolved_media_by_fields() {
    let callback = UrlParts::parse(
        "cobalt-xpc://resolved/?url=https%3A%2F%2Fa.xpccdn.com%2Fv.mp4&title=T&articleId=9&filesize=12",
    )
    .unwrap();
    let media = parse_callback_url(&callback).unwrap();
    let copy = media.clone();
    assert_eq!(media, copy);
    assert_eq!(
        media,
        cobalt_core::xinpianchang::ResolvedMedia {
            url: "https://a.xpccdn.com/v.mp4".to_string(),
            filename: "T.mp4".to_string(),
            expected_bytes: 12,
            article_id: "9".to_string(),
        }
    );
}

#[test]
fn reports_silent_resolver_errors() {
    let callback = UrlParts::parse("cobalt-xpc://error/").unwrap();
    assert_eq!(
        parse_callback_url(&callback).err().unwrap(),
        "Xinpianchang did not expose a downloadable video"
    );
    let no_url = UrlParts::parse("cobalt-xpc://resolved/?title=x").unwrap();
    assert_eq!(parse_callback_url(&no_url).err().unwrap(), "Xinpianchang returned an invalid media URL");
    let twice = UrlParts::parse("cobalt-xpc://error/?message=first&message=second").unwrap();
    assert_eq!(parse_callback_url(&twice).err().unwrap(), "second");
}
