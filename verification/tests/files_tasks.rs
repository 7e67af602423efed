use cobalt_core::files::{first_free, output_candidate, probe_output_candidates, unique_output_path};
use cobalt_core::tasks::{
    cancel_texts, clipboard_offer, eta_text, is_cancellable, is_finished, is_interrupted, is_running,
    media_error_message, tasks_to_start,
};

fn strings(v: &[&str]) -> Vec<String> {
    v.iter().map(|s| s.to_string()).collect()
}

#[test]
fn numbers_alternative_output_paths() {
    assert_eq!(output_candidate("/tmp/dl", "a.mp4", 0), "/tmp/dl/a.mp4");
    assert_eq!(output_candidate("/tmp/dl", "a.mp4", 2), "/tmp/dl/a (2).mp4");
    assert_eq!(output_candidate("/tmp/dl/", "a.mp4", 0), "/tmp/dl/a.mp4");
    assert_eq!(output_candidate("/tmp/dl", "sub/dir/video.webm", 0), "/tmp/dl/video.webm");
    assert_eq!(output_candidate("/tmp/dl", "sub/dir/video.webm", 1), "/tmp/dl/video (1).webm");
    assert_eq!(output_candidate("/tmp/dl", ".bashrc", 1), "/tmp/dl/.bashrc (1)");
    assert_eq!(output_candidate("/tmp/dl", "archive.tar.gz", 3), "/tmp/dl/archive.tar (3).gz");
    assert_eq!(output_candidate("/tmp/dl", "noext", 1), "/tmp/dl/noext (1)");
    assert_eq!(output_candidate("/tmp/dl", "a.", 1), "/tmp/dl/a (1).");
    assert_eq!(output_candidate("/tmp/dl", "..", 0), "/tmp/dl/..");
    assert_eq!(output_candidate("/tmp/dl", "..", 1), "/tmp/dl/.. (1)");
    assert_eq!(output_candidate("", "a.mp4", 1), "a (1).mp4");
    assert_eq!(output_candidate("/tmp/dl", "clip.mp4/.", 0), "/tmp/dl/clip.mp4");
}

#[test]
fn does_not_reuse_an_existing_path() {
    assert_eq!(unique_output_path("/no-such-folder-for-cobalt", "a.mp4"), "/no-such-folder-for-cobalt/a.mp4");
    assert_eq!(unique_output_path("/", "tmp"), "/tmp (1)");
}

#[test]
fn groups_task_statuses() {
    for s in ["analyzing", "downloading", "merging"] {
        assert!(is_running(s));
    }
    assert!(!is_running("queued"));
    for s in ["downloading", "analyzing", "queued"] {
        assert!(is_cancellable(s));
    }
    assert!(!is_cancellable("merging"));
    for s in ["completed", "cancelled", "failed"] {
        assert!(is_finished(s));
    }
    assert!(!is_finished("queued"));
    for s in ["downloading", "analyzing", "queued", "merging"] {
        assert!(is_interrupted(s));
    }
    assert!(!is_interrupted("completed"));
}

#[test]
fn starts_queued_tasks_up_to_the_limit() {
    let st = strings(&["queued", "downloading", "queued", "failed", "queued"]);
    assert_eq!(tasks_to_start(&st, 3), vec![0, 2]);
    assert_eq!(tasks_to_start(&st, 10), vec![0, 2, 4]);
    assert_eq!(tasks_to_start(&st, 1), Vec::<usize>::new());
    assert_eq!(tasks_to_start(&st, 0), Vec::<usize>::new());
    assert_eq!(tasks_to_start(&Vec::new(), 3), Vec::<usize>::new());
}

#[test]
fn formats_remaining_time() {
    assert_eq!(eta_text(75), "1:15");
    assert_eq!(eta_text(5), "0:05");
    assert_eq!(eta_text(3600), "60:00");
    assert_eq!(eta_text(0), "0:00");
}

#[test]
fn reports_media_server_failures() {
    assert_eq!(media_error_message("404 Not Found", "  "), "Media server error: 404 Not Found");
    assert_eq!(media_error_message("403 Forbidden", " nope \n"), "Media server error: 403 Forbidden: nope");
}

#[test]
fn offers_new_links_from_the_clipboard() {
    assert_eq!(clipboard_offer("  https://a.example/c \n", ""), Some("https://a.example/c".to_string()));
    assert_eq!(clipboard_offer("https://a.example/c", "https://a.example/c"), None);
    assert_eq!(clipboard_offer("hello", ""), None);
    assert_eq!(clipboard_offer("   ", ""), None);
    assert_eq!(clipboard_offer("http", "x"), Some("http".to_string()));
}

#[test]
fn never_retries_a_name() {
    let mut seen = std::collections::HashSet::new();
    for k in 0..40u64 {
        assert!(seen.insert(output_candidate("/tmp/dl", "clip.mp4", k)));
    }
    assert!(seen.contains("/tmp/dl/clip (10).mp4"));
}

#[test]
fn looks_at_numbered_candidates_until_one_is_free() {
    assert_eq!(probe_output_candidates("/no-such-folder-for-cobalt", "a.mp4"), vec![false]);
    assert_eq!(probe_output_candidates("/", "tmp"), vec![true, false]);
}

#[test]
fn picks_the_first_candidate_reported_free() {
    assert_eq!(first_free(&vec![true, true, false, false]), Some(2));
    assert_eq!(first_free(&vec![false]), Some(0));
    assert_eq!(first_free(&vec![true]), None);
    assert_eq!(first_free(&Vec::new()), None);
}

#[test]
fn cancelling_resets_the_texts_of_a_live_task() {
    for s in ["downloading", "analyzing", "queued"] {
        let t = cancel_texts(s).expect("cancellable");
        assert_eq!(t.status, "cancelled");
        assert_eq!(t.speed, "0 B/s");
        assert_eq!(t.eta, "--:--");
    }
    for s in ["merging", "completed", "failed", "cancelled", ""] {
        assert!(cancel_texts(s).is_none());
    }
}

#[test]
fn a_path_in_the_name_does_not_leave_the_folder() {
    assert_eq!(output_candidate("/tmp/dl", "../../etc/passwd", 0), "/tmp/dl/passwd");
    assert_eq!(output_candidate("/tmp/dl", "../../etc/passwd", 1), "/tmp/dl/passwd (1)");
    assert_eq!(output_candidate("/tmp/dl", "/etc/hosts.txt", 2), "/tmp/dl/hosts (2).txt");
}
