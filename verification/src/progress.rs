//! What a line of yt-dlp's output means for the task that runs it, and which
//! of the downloaded streams the progress belongs to.
use vstd::prelude::*;
use crate::text::{
    all_digits, chars_of, contains, contains_str, eq_ignore_ascii_case, eq_ignore_ascii_case_exec,
    slice_of, string_of, trim, trim_vec,
};
use crate::ytdlp::{
    is_progress_candidate, progress_percent_spec, progress_split_inside_char, progress_text,
    scan_progress_line, ProgressText,
};

verus! {

// ---------------------------------------------------------------------------
// Float literals
// ---------------------------------------------------------------------------

pub open spec fn is_exp_mark(c: char) -> bool {
    c == 'e' || c == 'E'
}

/// Position of the first `e` or `E` at or after `i`.
pub open spec fn exp_mark_index(s: Seq<char>, i: int) -> Option<int>
    decreases s.len() - i,
{
    if i < 0 || i >= s.len() {
        None
    } else if is_exp_mark(s[i]) {
        Some(i)
    } else {
        exp_mark_index(s, i + 1)
    }
}

pub open spec fn without_sign(s: Seq<char>) -> Seq<char> {
    if s.len() > 0 && (s[0] == '+' || s[0] == '-') {
        s.skip(1)
    } else {
        s
    }
}

/// `Digit+ | Digit+ '.' Digit* | Digit* '.' Digit+`
pub open spec fn is_mantissa(s: Seq<char>) -> bool {
    if all_digits(s) {
        s.len() > 0
    } else {
        exists|p: int|
            0 <= p < s.len() && s[p] == '.' && all_digits(s.take(p)) && all_digits(#[trigger] s.skip(
                p + 1,
            )) && s.len() >= 2
    }
}

/// `Number ::= Mantissa (('e' | 'E') Sign? Digit+)?`
pub open spec fn is_number(s: Seq<char>) -> bool {
    match exp_mark_index(s, 0) {
        Some(e) => {
            let d = without_sign(s.skip(e + 1));
            is_mantissa(s.take(e)) && d.len() > 0 && all_digits(d)
        },
        None => is_mantissa(s),
    }
}

/// Whether `f64::from_str` accepts `s`: an optional sign, then `inf`,
/// `infinity` or `nan` in any case, or a decimal number with an optional
/// exponent.
pub open spec fn is_float_literal(s: Seq<char>) -> bool {
    let body = without_sign(s);
    eq_ignore_ascii_case(body, "inf"@) || eq_ignore_ascii_case(body, "infinity"@)
        || eq_ignore_ascii_case(body, "nan"@) || is_number(body)
}

fn digits_only(v: &Vec<char>) -> (r: bool)
    ensures
        r == all_digits(v@),
{
    let mut i: usize = 0;
    while i < v.len()
        invariant
            i <= v.len(),
            forall|k: int| 0 <= k < i ==> crate::text::is_digit(#[trigger] v@[k]),
        decreases v.len() - i,
    {
        if !crate::text::char_is_digit(v[i]) {
            return false;
        }
        i += 1;
    }
    true
}

fn mantissa_exec(v: &Vec<char>) -> (r: bool)
    ensures
        r == is_mantissa(v@),
{
    if digits_only(v) {
        return v.len() > 0;
    }
    let mut p: usize = 0;
    while p < v.len() && v[p] != '.'
        invariant
            p <= v.len(),
            forall|k: int| 0 <= k < p ==> v@[k] != '.',
        decreases v.len() - p,
    {
        p += 1;
    }
    if p == v.len() {
        proof {
            assert forall|q: int| 0 <= q < v@.len() && v@[q] == '.' implies false by {}
        }
        return false;
    }
    let n = v.len();
    let head = slice_of(v, 0, p);
    let tail = slice_of(v, p + 1, n);
    let r = digits_only(&head) && digits_only(&tail) && n >= 2;
    proof {
        assert(head@ =~= v@.take(p as int));
        assert(tail@ =~= v@.skip(p + 1));
        if r {
            assert(v@[p as int] == '.');
        } else {
            assert forall|q: int|
                0 <= q < v@.len() && v@[q] == '.' && all_digits(v@.take(q)) && all_digits(
                    #[trigger] v@.skip(q + 1),
                ) && v@.len() >= 2 implies false by {
                if q > p {
                    assert(v@.take(q)[p as int] == '.');
                } else if q == p {
                }
            }
        }
    }
    r
}

fn without_sign_exec(v: &Vec<char>) -> (r: Vec<char>)
    ensures
        r@ == without_sign(v@),
{
    if v.len() > 0 && (v[0] == '+' || v[0] == '-') {
        slice_of(v, 1, v.len())
    } else {
        v.clone()
    }
}

fn number_exec(v: &Vec<char>) -> (r: bool)
    ensures
        r == is_number(v@),
{
    let mut e: usize = 0;
    while e < v.len() && !(v[e] == 'e' || v[e] == 'E')
        invariant
            e <= v.len(),
            exp_mark_index(v@, e as int) == exp_mark_index(v@, 0),
        decreases v.len() - e,
    {
        e += 1;
    }
    if e == v.len() {
        return mantissa_exec(v);
    }
    let head = slice_of(v, 0, e);
    let rest = slice_of(v, e + 1, v.len());
    let d = without_sign_exec(&rest);
    proof {
        assert(head@ =~= v@.take(e as int));
        assert(rest@ =~= v@.skip(e + 1));
    }
    mantissa_exec(&head) && d.len() > 0 && digits_only(&d)
}

/// Whether `f64::from_str` accepts the text.
pub fn is_float_literal_exec(v: &Vec<char>) -> (r: bool)
    ensures
        r == is_float_literal(v@),
{
    let body = without_sign_exec(v);
    eq_ignore_ascii_case_exec(&body, &chars_of("inf")) || eq_ignore_ascii_case_exec(
        &body,
        &chars_of("infinity"),
    ) || eq_ignore_ascii_case_exec(&body, &chars_of("nan")) || number_exec(&body)
}

// ---------------------------------------------------------------------------
// Lines of yt-dlp output
// ---------------------------------------------------------------------------

/// What a line printed by yt-dlp reports.
pub enum YtdlpLine {
    /// A new output stream starts (`[download] Destination: ...`).
    Destination,
    /// A progress line, with its pieces.
    Progress(ProgressText),
    /// The streams are being merged or the audio extracted.
    Merging,
    /// Anything else.
    Other,
}

/// The kind of a (trimmed) output line, as the download task reads it.
pub open spec fn line_kind(line: Seq<char>) -> int {
    let t = trim(line);
    if contains(t, "[download] Destination:"@) {
        0
    } else if is_progress_candidate(progress_text(t)) && is_float_literal(
        progress_percent_spec(progress_text(t)),
    ) {
        1
    } else if contains(t, "[Merger]"@) || contains(t, "[ExtractAudio]"@) || contains(
        t,
        "Merging formats"@,
    ) {
        2
    } else {
        3
    }
}

/// Reads one line of yt-dlp's standard output. A progress line is one whose
/// percentage is a number; its pieces are those that
/// [`scan_progress_line`] reads.
pub fn classify_ytdlp_line(line: &str) -> (r: YtdlpLine)
    requires
        !contains(trim(line@), "[download] Destination:"@) ==> !progress_split_inside_char(
            trim(line@),
        ),
    ensures
        line_kind(line@) == 0 <==> r is Destination,
        line_kind(line@) == 1 <==> r is Progress,
        line_kind(line@) == 2 <==> r is Merging,
        line_kind(line@) == 3 <==> r is Other,
        r matches YtdlpLine::Progress(p) ==> p.percent@ == progress_percent_spec(
            progress_text(trim(line@)),
        ),
{
    let t = trim_vec(&chars_of(line));
    if contains_str(&t, "[download] Destination:") {
        return YtdlpLine::Destination;
    }
    let ts = string_of(t.as_slice());
    match scan_progress_line(ts.as_str()) {
        Some(p) => {
            let pc = chars_of(p.percent.as_str());
            if is_float_literal_exec(&pc) {
                return YtdlpLine::Progress(p);
            }
        },
        None => {},
    }
    if contains_str(&t, "[Merger]") || contains_str(&t, "[ExtractAudio]") || contains_str(
        &t,
        "Merging formats",
    ) {
        YtdlpLine::Merging
    } else {
        YtdlpLine::Other
    }
}

// ---------------------------------------------------------------------------
// Streams
// ---------------------------------------------------------------------------

/// Which output stream the progress lines belong to: the index of the
/// stream announced last, and how many were announced.
pub struct DownloadStages {
    pub stage: u64,
    pub destinations: u64,
}

impl DownloadStages {
    /// The stream is the one announced last (the first before any is).
    pub open spec fn wf(&self) -> bool {
        if self.destinations == 0 {
            self.stage == 0
        } else {
            self.stage == self.destinations - 1
        }
    }

    pub fn new() -> (s: DownloadStages)
        ensures
            s.wf(),
            s.stage == 0,
            s.destinations == 0,
    {
        DownloadStages { stage: 0, destinations: 0 }
    }

    /// A `Destination` line: the progress that follows belongs to the next
    /// stream, so the stream index never goes back.
    pub fn on_destination(&mut self)
        requires
            old(self).wf(),
            old(self).destinations < u64::MAX,
        ensures
            final(self).wf(),
            final(self).stage == old(self).destinations,
            final(self).destinations == old(self).destinations + 1,
            final(self).stage >= old(self).stage,
    {
        self.stage = self.destinations;
        self.destinations = self.destinations + 1;
    }
}

} // verus!
