use cobalt_core::processes::{
    cobalt_api_candidates, first_existing, first_present, kill_args, lsof_args, lsof_pids, netstat_pids, probe_in_order, resolve_ffmpeg, resolve_node, resolve_ytdlp,
    tool_candidates, COBALT_PORT,
};

fn strings(v: &[&str]) -> Vec<String> {
    v.iter().map(|s| s.to_string()).collect()
}

#[test]
fn reads_process_ids_from_lsof() {
    assert_eq!(lsof_pids("123\n 456 \nabc\n\n-7\n99999999999\n"), vec![123, 456, -7]);
    assert_eq!(lsof_pids(""), Vec::<i32>::new());
}

#[test]
fn reads_process_ids_from_netstat() {
    let out = "  TCP    127.0.0.1:47301    0.0.0.0:0    LISTENING    4242\r\n  TCP x y z bad\n\n  UDP a b 17\n";
    assert_eq!(netstat_pids(out), vec![4242, 17]);
}

#[test]
fn builds_process_commands() {
    assert_eq!(COBALT_PORT, 47301);
    assert_eq!(lsof_args(COBALT_PORT), strings(&["-t", "-i:47301"]));
    assert_eq!(kill_args(99), strings(&["-9", "99"]));
    assert_eq!(kill_args(-5), strings(&["-9", "-5"]));
    assert_eq!(kill_args(i32::MIN), strings(&["-9", "-2147483648"]));
}

#[test]
fn looks_for_bundled_tools_in_order() {
    assert_eq!(
        tool_candidates(Some("/app/bin/node".to_string()), "node", false),
        strings(&["/app/bin/node", "src-tauri/binaries/node", "/usr/local/bin/node", "/opt/homebrew/bin/node"])
    );
    assert_eq!(
        tool_candidates(None, "ffmpeg", true),
        strings(&["src-tauri/binaries/ffmpeg", "/opt/homebrew/bin/ffmpeg", "/usr/local/bin/ffmpeg"])
    );
    let y = resolve_ytdlp(Some("/no-such-tool-for-cobalt/yt-dlp".to_string()));
    assert!(y == "yt-dlp" || tool_candidates(None, "yt-dlp", true).contains(&y));
    assert_eq!(resolve_node(Some("/".to_string())), Some("/".to_string()));
    assert_eq!(resolve_ffmpeg(Some("/".to_string())), Some("/".to_string()));
}

#[test]
fn looks_for_the_media_service_script() {
    assert_eq!(
        cobalt_api_candidates(None),
        strings(&["../api/src/cobalt.js", "api/src/cobalt.js", "../../api/src/cobalt.js"])
    );
    assert_eq!(
        cobalt_api_candidates(Some("/app/bundled-api/src/cobalt.js".to_string()))[0],
        "/app/bundled-api/src/cobalt.js"
    );
    let found = first_existing(&strings(&["/no-such-path-for-cobalt", "/", "/tmp"]));
    assert_eq!(found, Some("/".to_string()));
    assert_eq!(first_existing(&strings(&["/no-such-path-for-cobalt"])), None);
}

#[test]
fn looks_at_candidates_until_one_exists() {
    assert_eq!(probe_in_order(&strings(&["/no-such-path-for-cobalt", "/", "/tmp"])), vec![false, true]);
    assert_eq!(probe_in_order(&strings(&["/no-such-path-for-cobalt", "/no-such-path-for-cobalt/x"])), vec![false, false]);
    assert_eq!(probe_in_order(&Vec::new()), Vec::<bool>::new());
}

#[test]
fn picks_the_first_candidate_reported_present() {
    assert_eq!(first_present(&vec![false, true, true]), Some(1));
    assert_eq!(first_present(&vec![true]), Some(0));
    assert_eq!(first_present(&vec![false, false]), None);
    assert_eq!(first_present(&Vec::new()), None);
}

#[test]
fn resolves_a_present_tool_before_later_ones() {
    assert_eq!(resolve_ytdlp(Some("/".to_string())), "/");
    assert_eq!(resolve_node(Some("/no-such-tool-for-cobalt/node".to_string())).as_deref() == Some("/no-such-tool-for-cobalt/node"), false);
}
