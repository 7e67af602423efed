//! Helper programs: where the bundled tools are looked for, and which
//! processes hold the local media service's port.
use vstd::prelude::*;
use crate::files::path_exists;
use crate::invocation::push_text;
use crate::text::{
    chars_of, dec_string, lines, parse_signed, parse_unsigned, parse_i32_exec, parse_unsigned_exec,
    push_decimal, push_str, split_lines, split_words, string_of, trim, trim_vec, words,
};

verus! {

/// The port of the local media service.
pub const COBALT_PORT: u16 = 47301;

// ---------------------------------------------------------------------------
// Processes on a port
// ---------------------------------------------------------------------------

/// The process ids that `lsof -t` printed: every line that reads as an
/// `i32` once trimmed.
pub open spec fn lsof_pids_spec(ls: Seq<Seq<char>>) -> Seq<int>
    decreases ls.len(),
{
    if ls.len() == 0 {
        Seq::empty()
    } else {
        let rest = lsof_pids_spec(ls.drop_last());
        match parse_signed(trim(ls.last()), 0x8000_0000, 0x7fff_ffff) {
            Some(n) => rest.push(n),
            None => rest,
        }
    }
}

pub fn lsof_pids(output: &str) -> (r: Vec<i32>)
    ensures
        r@.map_values(|p: i32| p as int) == lsof_pids_spec(lines(output@)),
{
    let ls = split_lines(&chars_of(output));
    let mut r: Vec<i32> = Vec::new();
    let mut i: usize = 0;
    while i < ls.len()
        invariant
            i <= ls.len(),
            ls.deep_view() == lines(output@),
            r@.map_values(|p: i32| p as int) == lsof_pids_spec(ls.deep_view().take(i as int)),
        decreases ls.len() - i,
    {
        proof {
            crate::text::lemma_deep_view_chars(&ls@[i as int]);
            assert(ls.deep_view().take(i + 1).drop_last() =~= ls.deep_view().take(i as int));
            assert(ls.deep_view().take(i + 1).last() == ls@[i as int]@);
        }
        let t = trim_vec(&ls[i]);
        match parse_i32_exec(&t) {
            Some(p) => {
                let ghost before = r@.map_values(|p: i32| p as int);
                r.push(p);
                proof {
                    assert(r@.map_values(|p: i32| p as int) =~= before.push(p as int));
                }
            },
            None => {},
        }
        i += 1;
    }
    proof {
        assert(ls.deep_view().take(ls.len() as int) =~= ls.deep_view());
    }
    r
}

/// The process ids in the last column of `netstat -ano` lines: the last
/// word of each line that has one and reads as a `u32`.
pub open spec fn netstat_pids_spec(ls: Seq<Seq<char>>) -> Seq<nat>
    decreases ls.len(),
{
    if ls.len() == 0 {
        Seq::empty()
    } else {
        let rest = netstat_pids_spec(ls.drop_last());
        let ws = words(ls.last());
        if ws.len() == 0 {
            rest
        } else {
            match parse_unsigned(trim(ws.last()), 0xffff_ffff) {
                Some(n) => rest.push(n),
                None => rest,
            }
        }
    }
}

pub fn netstat_pids(output: &str) -> (r: Vec<u32>)
    ensures
        r@.map_values(|p: u32| p as nat) == netstat_pids_spec(lines(output@)),
{
    let ls = split_lines(&chars_of(output));
    let mut r: Vec<u32> = Vec::new();
    let mut i: usize = 0;
    while i < ls.len()
        invariant
            i <= ls.len(),
            ls.deep_view() == lines(output@),
            r@.map_values(|p: u32| p as nat) == netstat_pids_spec(ls.deep_view().take(i as int)),
        decreases ls.len() - i,
    {
        proof {
            crate::text::lemma_deep_view_chars(&ls@[i as int]);
            assert(ls.deep_view().take(i + 1).drop_last() =~= ls.deep_view().take(i as int));
            assert(ls.deep_view().take(i + 1).last() == ls@[i as int]@);
        }
        let ws = split_words(&ls[i]);
        if ws.len() > 0 {
            let last = &ws[ws.len() - 1];
            proof {
                crate::text::lemma_deep_view_chars(last);
            }
            let t = trim_vec(last);
            match parse_unsigned_exec(&t, 0xffff_ffff) {
                Some(p) => {
                    let ghost before = r@.map_values(|p: u32| p as nat);
                    r.push(p as u32);
                    proof {
                        assert(r@.map_values(|p: u32| p as nat) =~= before.push(p as nat));
                    }
                },
                None => {},
            }
        }
        i += 1;
    }
    proof {
        assert(ls.deep_view().take(ls.len() as int) =~= ls.deep_view());
    }
    r
}

/// The decimal text of an integer, with a minus sign when negative
/// (`i32::to_string`).
pub open spec fn signed_dec_string(n: int) -> Seq<char> {
    if n < 0 {
        seq!['-'] + dec_string((-n) as nat)
    } else {
        dec_string(n as nat)
    }
}

/// The arguments of `lsof` that list the processes listening on `port`.
pub fn lsof_args(port: u16) -> (r: Vec<String>)
    ensures
        r.deep_view() == seq!["-t"@, "-i:"@ + dec_string(port as nat)],
{
    let mut v: Vec<String> = Vec::new();
    push_text(&mut v, "-t");
    let mut a = chars_of("-i:");
    push_decimal(&mut a, port as u64);
    let s = string_of(a.as_slice());
    push_text(&mut v, s.as_str());
    proof {
        assert(v.deep_view() =~= seq!["-t"@, "-i:"@ + dec_string(port as nat)]);
    }
    v
}

/// The arguments of `kill` that end process `pid` at once.
pub fn kill_args(pid: i32) -> (r: Vec<String>)
    ensures
        r.deep_view() == seq!["-9"@, signed_dec_string(pid as int)],
{
    let mut v: Vec<String> = Vec::new();
    push_text(&mut v, "-9");
    let mut a: Vec<char> = Vec::new();
    if pid < 0 {
        a.push('-');
        let m: u64 = (0 - (pid as i64)) as u64;
        push_decimal(&mut a, m);
    } else {
        push_decimal(&mut a, pid as u64);
    }
    let s = string_of(a.as_slice());
    push_text(&mut v, s.as_str());
    proof {
        if pid < 0 {
            assert(a@ =~= seq!['-'] + dec_string((-(pid as int)) as nat));
        } else {
            assert(a@ =~= dec_string(pid as nat));
        }
        assert(v.deep_view() =~= seq!["-9"@, signed_dec_string(pid as int)]);
    }
    v
}

// ---------------------------------------------------------------------------
// Tools
// ---------------------------------------------------------------------------

/// The places a bundled tool is looked for, in order: the application's
/// resource (when it resolves), the development folder, then Homebrew and
/// `/usr/local` (in the order given).
pub open spec fn tool_candidates_spec(bundled: Option<Seq<char>>, tool: Seq<char>, homebrew_first: bool) -> Seq<Seq<char>> {
    (match bundled {
        Some(b) => seq![b],
        None => Seq::empty(),
    }) + seq!["src-tauri/binaries/"@ + tool] + (if homebrew_first {
        seq!["/opt/homebrew/bin/"@ + tool, "/usr/local/bin/"@ + tool]
    } else {
        seq!["/usr/local/bin/"@ + tool, "/opt/homebrew/bin/"@ + tool]
    })
}

pub fn tool_candidates(bundled: Option<String>, tool: &str, homebrew_first: bool) -> (r: Vec<String>)
    ensures
        r.deep_view() == tool_candidates_spec(
            match bundled {
                Some(b) => Some(b@),
                None => None,
            },
            tool@,
            homebrew_first,
        ),
{
    let mut v: Vec<String> = Vec::new();
    match &bundled {
        Some(b) => push_text(&mut v, b.as_str()),
        None => {},
    }
    let ghost start = v.deep_view();
    let mut dev = chars_of("src-tauri/binaries/");
    push_str(&mut dev, tool);
    let mut brew = chars_of("/opt/homebrew/bin/");
    push_str(&mut brew, tool);
    let mut local = chars_of("/usr/local/bin/");
    push_str(&mut local, tool);
    push_text(&mut v, string_of(dev.as_slice()).as_str());
    if homebrew_first {
        push_text(&mut v, string_of(brew.as_slice()).as_str());
        push_text(&mut v, string_of(local.as_slice()).as_str());
    } else {
        push_text(&mut v, string_of(local.as_slice()).as_str());
        push_text(&mut v, string_of(brew.as_slice()).as_str());
    }
    proof {
        if homebrew_first {
            assert(v.deep_view() =~= start + seq!["src-tauri/binaries/"@ + tool@] + seq![
                "/opt/homebrew/bin/"@ + tool@,
                "/usr/local/bin/"@ + tool@,
            ]);
        } else {
            assert(v.deep_view() =~= start + seq!["src-tauri/binaries/"@ + tool@] + seq![
                "/usr/local/bin/"@ + tool@,
                "/opt/homebrew/bin/"@ + tool@,
            ]);
        }
    }
    v
}

/// The tool path as an optional text.
pub open spec fn bundled_text(o: Option<String>) -> Option<Seq<char>> {
    match o {
        Some(s) => Some(s@),
        None => None,
    }
}

/// What looking at `n` candidates one by one, until one is reported
/// present, can have answered: `answers[j]` is the answer for the `j`th
/// candidate, every answer but the last is "absent", and the looking stops
/// before the end only at a "present".
pub open spec fn probed_in_order(n: nat, answers: Seq<bool>) -> bool {
    &&& answers.len() <= n
    &&& forall|j: int| 0 <= j < answers.len() - 1 ==> !answers[j]
    &&& answers.len() < n ==> answers.len() > 0 && answers.last()
}

/// The candidate that such answers report present: the last one looked
/// at, when it was reported present.
pub open spec fn reported_present(candidates: Seq<Seq<char>>, answers: Seq<bool>) -> Option<Seq<char>> {
    if answers.len() > 0 && answers.last() {
        Some(candidates[answers.len() - 1])
    } else {
        None
    }
}

/// Whether `i` is the first index whose answer is `true`.
pub open spec fn is_first_true(answers: Seq<bool>, i: int) -> bool {
    &&& 0 <= i < answers.len()
    &&& answers[i]
    &&& forall|j: int| 0 <= j < i ==> !answers[j]
}

/// Looks at the candidates in order and stops at the first that is reported
/// to exist; the answers, one per candidate looked at. What the file system
/// answers is not stated, only the order of the looking.
pub fn probe_in_order(candidates: &Vec<String>) -> (r: Vec<bool>)
    ensures
        probed_in_order(candidates.len() as nat, r@),
{
    let mut r: Vec<bool> = Vec::new();
    let mut i: usize = 0;
    while i < candidates.len()
        invariant
            i <= candidates.len(),
            r.len() == i,
            forall|j: int| 0 <= j < i ==> !r@[j],
        decreases candidates.len() - i,
    {
        let found = path_exists(candidates[i].as_str());
        r.push(found);
        if found {
            return r;
        }
        i += 1;
    }
    r
}

/// The index of the first answer that reports a candidate present.
pub fn first_present(present: &Vec<bool>) -> (r: Option<usize>)
    ensures
        match r {
            Some(i) => is_first_true(present@, i as int),
            None => forall|j: int| 0 <= j < present.len() ==> !present@[j],
        },
{
    let mut i: usize = 0;
    while i < present.len()
        invariant
            i <= present.len(),
            forall|j: int| 0 <= j < i ==> !present@[j],
        decreases present.len() - i,
    {
        if present[i] {
            return Some(i);
        }
        i += 1;
    }
    None
}

/// The first candidate that exists when it is looked at; `None` when none
/// does. The candidates are looked at in order, and the looking stops at
/// the first that is reported present.
pub fn first_existing(candidates: &Vec<String>) -> (r: Option<String>)
    ensures
        exists|a: Seq<bool>|
            #[trigger] probed_in_order(candidates.len() as nat, a) && bundled_text(r)
                == reported_present(candidates.deep_view(), a),
{
    let present = probe_in_order(candidates);
    let r = match first_present(&present) {
        Some(i) => {
            proof {
                if i + 1 < present.len() {
                    assert(!present@[i as int]);
                }
            }
            Some(candidates[i].clone())
        },
        None => None,
    };
    proof {
        if present.len() > 0 {
            assert(!present@[present.len() - 1] || r is Some);
        }
        assert(probed_in_order(candidates.len() as nat, present@));
    }
    r
}

/// The yt-dlp to run: the first candidate that is reported to exist
/// (Homebrew before `/usr/local`), else `yt-dlp` from the search path.
pub fn resolve_ytdlp(bundled: Option<String>) -> (r: String)
    ensures
        exists|a: Seq<bool>| {
            &&& #[trigger] probed_in_order(tool_candidates_spec(bundled_text(bundled), "yt-dlp"@, true).len(), a)
            &&& r@ == match reported_present(tool_candidates_spec(bundled_text(bundled), "yt-dlp"@, true), a) {
                Some(p) => p,
                None => "yt-dlp"@,
            }
        },
{
    let ghost b = bundled_text(bundled);
    let c = tool_candidates(bundled, "yt-dlp", true);
    let found = first_existing(&c);
    let ghost a = choose|a: Seq<bool>|
        #[trigger] probed_in_order(c.len() as nat, a) && bundled_text(found) == reported_present(
            c.deep_view(),
            a,
        );
    let r = match found {
        Some(p) => p,
        None => "yt-dlp".to_string(),
    };
    proof {
        reveal_strlit("yt-dlp");
        assert(c.deep_view().len() == c.len());
        assert(probed_in_order(tool_candidates_spec(b, "yt-dlp"@, true).len(), a));
    }
    r
}

/// The node to hand to yt-dlp: the first candidate that is reported to
/// exist (`/usr/local` before Homebrew), if any.
pub fn resolve_node(bundled: Option<String>) -> (r: Option<String>)
    ensures
        exists|a: Seq<bool>| {
            &&& #[trigger] probed_in_order(tool_candidates_spec(bundled_text(bundled), "node"@, false).len(), a)
            &&& bundled_text(r) == reported_present(tool_candidates_spec(bundled_text(bundled), "node"@, false), a)
        },
{
    let ghost b = bundled_text(bundled);
    let c = tool_candidates(bundled, "node", false);
    let r = first_existing(&c);
    let ghost a = choose|a: Seq<bool>|
        #[trigger] probed_in_order(c.len() as nat, a) && bundled_text(r) == reported_present(
            c.deep_view(),
            a,
        );
    proof {
        assert(c.deep_view().len() == c.len());
        assert(probed_in_order(tool_candidates_spec(b, "node"@, false).len(), a));
    }
    r
}

/// The ffmpeg to hand to yt-dlp: the first candidate that is reported to
/// exist (Homebrew before `/usr/local`), if any.
pub fn resolve_ffmpeg(bundled: Option<String>) -> (r: Option<String>)
    ensures
        exists|a: Seq<bool>| {
            &&& #[trigger] probed_in_order(tool_candidates_spec(bundled_text(bundled), "ffmpeg"@, true).len(), a)
            &&& bundled_text(r) == reported_present(tool_candidates_spec(bundled_text(bundled), "ffmpeg"@, true), a)
        },
{
    let ghost b = bundled_text(bundled);
    let c = tool_candidates(bundled, "ffmpeg", true);
    let r = first_existing(&c);
    let ghost a = choose|a: Seq<bool>|
        #[trigger] probed_in_order(c.len() as nat, a) && bundled_text(r) == reported_present(
            c.deep_view(),
            a,
        );
    proof {
        assert(c.deep_view().len() == c.len());
        assert(probed_in_order(tool_candidates_spec(b, "ffmpeg"@, true).len(), a));
    }
    r
}

/// The places the media service's entry script is looked for, in order:
/// the bundled one (when it exists) or the one next to the development
/// folder, then the workspace and the folder above it.
pub open spec fn cobalt_api_candidates_spec(bundled: Option<Seq<char>>) -> Seq<Seq<char>> {
    seq![
        match bundled {
            Some(b) => b,
            None => "../api/src/cobalt.js"@,
        },
        "api/src/cobalt.js"@,
        "../../api/src/cobalt.js"@,
    ]
}

pub fn cobalt_api_candidates(bundled: Option<String>) -> (r: Vec<String>)
    ensures
        r.deep_view() == cobalt_api_candidates_spec(
            match bundled {
                Some(b) => Some(b@),
                None => None,
            },
        ),
{
    let mut v: Vec<String> = Vec::new();
    match &bundled {
        Some(b) => push_text(&mut v, b.as_str()),
        None => push_text(&mut v, "../api/src/cobalt.js"),
    }
    push_text(&mut v, "api/src/cobalt.js");
    push_text(&mut v, "../../api/src/cobalt.js");
    proof {
        assert(v.deep_view() =~= cobalt_api_candidates_spec(
            match bundled {
                Some(b) => Some(b@),
                None => None,
            },
        ));
    }
    v
}

} // verus!
