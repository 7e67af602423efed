//! The download queue: what each task status means, which queued tasks are
//! started, and the texts shown for a task.
use vstd::prelude::*;
use crate::text::{
    chars_of, push_decimal, push_decimal_2, push_str, dec_string, starts_with, starts_with_str,
    str_eq, string_of, trim, trim_vec, seq_eq,
};

verus! {

// ---------------------------------------------------------------------------
// Statuses
// ---------------------------------------------------------------------------

/// A task that occupies one of the parallel download slots.
pub open spec fn is_running_status(s: Seq<char>) -> bool {
    s == "analyzing"@ || s == "downloading"@ || s == "merging"@
}

/// A task that cancelling stops (and whose partial file it removes).
pub open spec fn is_cancellable_status(s: Seq<char>) -> bool {
    s == "downloading"@ || s == "analyzing"@ || s == "queued"@
}

/// A task that "clear completed" removes from the list.
pub open spec fn is_finished_status(s: Seq<char>) -> bool {
    s == "completed"@ || s == "cancelled"@ || s == "failed"@
}

/// A task that was still under way when the application stopped; on the
/// next start it is marked failed.
pub open spec fn is_interrupted_status(s: Seq<char>) -> bool {
    s == "downloading"@ || s == "analyzing"@ || s == "queued"@ || s == "merging"@
}

pub fn is_running(status: &str) -> (r: bool)
    ensures
        r == is_running_status(status@),
{
    let s = chars_of(status);
    str_eq(&s, "analyzing") || str_eq(&s, "downloading") || str_eq(&s, "merging")
}

pub fn is_cancellable(status: &str) -> (r: bool)
    ensures
        r == is_cancellable_status(status@),
{
    let s = chars_of(status);
    str_eq(&s, "downloading") || str_eq(&s, "analyzing") || str_eq(&s, "queued")
}

/// The texts a task shows for its state, speed and time left.
#[derive(Debug)]
pub struct TaskTexts {
    pub status: String,
    pub speed: String,
    pub eta: String,
}

/// What cancelling a task in `status` makes of its texts: `None` when
/// cancelling does not stop such a task (it is left as it is); otherwise
/// it is "cancelled", at "0 B/s", with no time left to show ("--:--").
/// Its progress goes back to zero.
pub fn cancel_texts(status: &str) -> (r: Option<TaskTexts>)
    ensures
        r is Some <==> is_cancellable_status(status@),
        r matches Some(t) ==> t.status@ == "cancelled"@ && t.speed@ == "0 B/s"@ && t.eta@ == "--:--"@,
{
    if is_cancellable(status) {
        Some(
            TaskTexts {
                status: "cancelled".to_string(),
                speed: "0 B/s".to_string(),
                eta: "--:--".to_string(),
            },
        )
    } else {
        None
    }
}

pub fn is_finished(status: &str) -> (r: bool)
    ensures
        r == is_finished_status(status@),
{
    let s = chars_of(status);
    str_eq(&s, "completed") || str_eq(&s, "cancelled") || str_eq(&s, "failed")
}

pub fn is_interrupted(status: &str) -> (r: bool)
    ensures
        r == is_interrupted_status(status@),
{
    let s = chars_of(status);
    str_eq(&s, "downloading") || str_eq(&s, "analyzing") || str_eq(&s, "queued") || str_eq(
        &s,
        "merging",
    )
}

// ---------------------------------------------------------------------------
// Scheduling
// ---------------------------------------------------------------------------

/// How many of the statuses are running.
pub open spec fn running_count(st: Seq<Seq<char>>) -> nat
    decreases st.len(),
{
    if st.len() == 0 {
        0
    } else {
        running_count(st.drop_last()) + if is_running_status(st.last()) {
            1nat
        } else {
            0nat
        }
    }
}

/// The indices of the queued tasks among the first `n`, in order.
pub open spec fn queued_indices(st: Seq<Seq<char>>, n: int) -> Seq<int>
    decreases n,
{
    if n <= 0 || n > st.len() {
        Seq::empty()
    } else if st[n - 1] == "queued"@ {
        queued_indices(st, n - 1).push(n - 1)
    } else {
        queued_indices(st, n - 1)
    }
}

/// The tasks that the queue starts, given the tasks' statuses in the order
/// in which they are looked at: the first queued ones, as many as there are
/// free slots of `limit`.
pub open spec fn tasks_to_start_spec(st: Seq<Seq<char>>, limit: nat) -> Seq<int> {
    let q = queued_indices(st, st.len() as int);
    let running = running_count(st);
    if running >= limit {
        Seq::empty()
    } else if q.len() <= limit - running {
        q
    } else {
        q.take(limit - running)
    }
}

proof fn lemma_queued_indices(st: Seq<Seq<char>>, n: int)
    requires
        0 <= n <= st.len(),
    ensures
        queued_indices(st, n).len() <= n,
        forall|j: int|
            0 <= j < queued_indices(st, n).len() ==> 0 <= #[trigger] queued_indices(st, n)[j] < n
                && st[queued_indices(st, n)[j]] == "queued"@,
        forall|a: int, b: int|
            0 <= a < b < queued_indices(st, n).len() ==> #[trigger] queued_indices(st, n)[a]
                < #[trigger] queued_indices(st, n)[b],
    decreases n,
{
    if n > 0 {
        lemma_queued_indices(st, n - 1);
    }
}

/// Which tasks to start: indices into `statuses`, in order (each of them is
/// then marked `analyzing`).
pub fn tasks_to_start(statuses: &Vec<String>, limit: u32) -> (r: Vec<usize>)
    ensures
        r@.map_values(|i: usize| i as int) == tasks_to_start_spec(
            statuses.deep_view(),
            limit as nat,
        ),
{
    let ghost st = statuses.deep_view();
    let mut running: u64 = 0;
    let mut queued: Vec<usize> = Vec::new();
    let mut i: usize = 0;
    while i < statuses.len()
        invariant
            i <= statuses.len(),
            st == statuses.deep_view(),
            running == running_count(st.take(i as int)),
            running <= i,
            queued@.map_values(|k: usize| k as int) == queued_indices(st, i as int),
        decreases statuses.len() - i,
    {
        proof {
            assert(st.take(i + 1).drop_last() =~= st.take(i as int));
            assert(st.take(i + 1).last() == statuses@[i as int]@);
        }
        if is_running(statuses[i].as_str()) {
            running = running + 1;
        }
        let s = chars_of(statuses[i].as_str());
        if str_eq(&s, "queued") {
            queued.push(i);
            proof {
                assert(queued@.map_values(|k: usize| k as int) =~= queued_indices(
                    st,
                    i as int,
                ).push(i as int));
            }
        }
        i += 1;
    }
    proof {
        assert(st.take(st.len() as int) =~= st);
    }
    let mut r: Vec<usize> = Vec::new();
    if running >= limit as u64 {
        proof {
            assert(r@.map_values(|k: usize| k as int) =~= Seq::<int>::empty());
        }
        return r;
    }
    let free = (limit as u64) - running;
    let mut j: usize = 0;
    while j < queued.len() && (j as u64) < free
        invariant
            j <= queued.len(),
            j <= free,
            r@ == queued@.take(j as int),
            queued@.map_values(|k: usize| k as int) == queued_indices(st, st.len() as int),
        decreases queued.len() - j,
    {
        r.push(queued[j]);
        proof {
            assert(r@ =~= queued@.take(j + 1));
        }
        j += 1;
    }
    proof {
        let q = queued_indices(st, st.len() as int);
        if q.len() <= free {
            assert(r@ =~= queued@);
        } else {
            assert(j == free);
            assert(r@.map_values(|k: usize| k as int) =~= q.take(free as int));
        }
    }
    r
}

/// Starting the chosen tasks never takes more than `limit` slots, and it
/// fills every free slot that a queued task can take.
pub proof fn lemma_start_respects_limit(st: Seq<Seq<char>>, limit: nat)
    ensures
        running_count(st) < limit ==> running_count(st) + tasks_to_start_spec(st, limit).len()
            <= limit,
        tasks_to_start_spec(st, limit).len() == if running_count(st) >= limit {
            0
        } else {
            vstd::math::min(
                queued_indices(st, st.len() as int).len() as int,
                limit - running_count(st),
            )
        },
        forall|j: int|
            0 <= j < tasks_to_start_spec(st, limit).len() ==> st[#[trigger] tasks_to_start_spec(
                st,
                limit,
            )[j]] == "queued"@,
{
    lemma_queued_indices(st, st.len() as int);
}

// ---------------------------------------------------------------------------
// Texts
// ---------------------------------------------------------------------------

/// A remaining time as `m:ss`.
pub open spec fn eta_text_spec(secs: u32) -> Seq<char> {
    let m = (secs / 60) as nat;
    let s = (secs % 60) as nat;
    dec_string(m) + ":"@ + (if s < 10 {
        seq!['0'] + dec_string(s)
    } else {
        dec_string(s)
    })
}

pub fn eta_text(secs: u32) -> (r: String)
    ensures
        r@ == eta_text_spec(secs),
{
    let mut v: Vec<char> = Vec::new();
    push_decimal(&mut v, (secs / 60) as u64);
    push_str(&mut v, ":");
    push_decimal_2(&mut v, (secs % 60) as u64);
    string_of(v.as_slice())
}

/// The error of a media server that answered with a failure status: the
/// status line, and the trimmed body when it is not blank.
pub open spec fn media_error_spec(status: Seq<char>, body: Seq<char>) -> Seq<char> {
    "Media server error: "@ + if trim(body).len() == 0 {
        status
    } else {
        status + ": "@ + trim(body)
    }
}

pub fn media_error_message(status: &str, body: &str) -> (r: String)
    ensures
        r@ == media_error_spec(status@, body@),
{
    let t = trim_vec(&chars_of(body));
    let mut v = chars_of("Media server error: ");
    push_str(&mut v, status);
    if t.len() > 0 {
        push_str(&mut v, ": ");
        crate::text::push_all(&mut v, &t);
    }
    string_of(v.as_slice())
}

/// The text of a clipboard that is offered for download: the trimmed text
/// when it is a link (starts with `http`) other than the one offered last.
pub open spec fn clipboard_offer_spec(text: Seq<char>, last: Seq<char>) -> Option<Seq<char>> {
    let t = trim(text);
    if t.len() > 0 && t != last && starts_with(t, "http"@) {
        Some(t)
    } else {
        None
    }
}

pub fn clipboard_offer(text: &str, last: &str) -> (r: Option<String>)
    ensures
        match clipboard_offer_spec(text@, last@) {
            Some(t) => r is Some && r->0@ == t,
            None => r is None,
        },
{
    let t = trim_vec(&chars_of(text));
    let l = chars_of(last);
    if t.len() > 0 && !seq_eq(&t, &l) && starts_with_str(&t, "http") {
        Some(string_of(t.as_slice()))
    } else {
        None
    }
}

} // verus!
