//! Output file names: the parts of a Unix path that `std::path::Path`
//! reports (file name, stem, extension), joining, and the choice of a name
//! that does not overwrite an existing file.
use vstd::prelude::*;
use crate::text::{
    after_last_slash, after_last_slash_exec, chars_of, dec_string, dec_value, is_digit, push_all,
    push_decimal, push_str, rfind, slice_of, string_of,
};

verus! {

// ---------------------------------------------------------------------------
// Path parts
// ---------------------------------------------------------------------------

/// The path without what `Path::components` skips at its end: trailing
/// separators and trailing `/.` components.
pub open spec fn trim_path_end(p: Seq<char>) -> Seq<char>
    decreases p.len(),
{
    if p.len() > 0 && p.last() == '/' {
        trim_path_end(p.drop_last())
    } else if p.len() >= 2 && p.last() == '.' && p[p.len() - 2] == '/' {
        trim_path_end(p.drop_last())
    } else {
        p
    }
}

/// `Path::file_name`: the last component when it is a normal name (not
/// empty, `.`, `..` or the root).
pub open spec fn file_name(p: Seq<char>) -> Option<Seq<char>> {
    let s = after_last_slash(trim_path_end(p));
    if s.len() == 0 || s == seq!['.'] || s == seq!['.', '.'] {
        None
    } else {
        Some(s)
    }
}

/// `PathBuf::join` on Unix: an absolute `name` replaces `dir`, otherwise a
/// separator is put between them unless `dir` is empty or already ends
/// with one.
pub open spec fn join(dir: Seq<char>, name: Seq<char>) -> Seq<char> {
    if name.len() > 0 && name[0] == '/' {
        name
    } else if dir.len() == 0 || dir.last() == '/' {
        dir + name
    } else {
        dir + seq!['/'] + name
    }
}

/// `Path::file_stem` and `Path::extension` of a file name: split at the
/// last dot, unless the name has no dot or its only dot is the first
/// character.
pub open spec fn split_extension(name: Seq<char>) -> (Seq<char>, Option<Seq<char>>) {
    match rfind(name, seq!['.']) {
        Some(k) => if k == 0 {
            (name, None)
        } else {
            (name.take(k), Some(name.skip(k + 1)))
        },
        None => (name, None),
    }
}

fn trim_path_end_exec(v: &Vec<char>) -> (r: Vec<char>)
    ensures
        r@ == trim_path_end(v@),
{
    let mut n = v.len();
    proof {
        assert(v@.take(v.len() as int) =~= v@);
    }
    while n > 0 && (v[n - 1] == '/' || (n >= 2 && v[n - 1] == '.' && v[n - 2] == '/'))
        invariant
            n <= v.len(),
            trim_path_end(v@.take(n as int)) == trim_path_end(v@),
        decreases n,
    {
        proof {
            assert(v@.take(n as int).drop_last() =~= v@.take(n - 1));
        }
        n -= 1;
    }
    slice_of(v, 0, n)
}

pub fn file_name_exec(v: &Vec<char>) -> (r: Option<Vec<char>>)
    ensures
        match file_name(v@) {
            Some(n) => r is Some && r->0@ == n,
            None => r is None,
        },
{
    let t = trim_path_end_exec(v);
    let s = after_last_slash_exec(&t);
    if s.len() == 0 || (s.len() == 1 && s[0] == '.') || (s.len() == 2 && s[0] == '.' && s[1]
        == '.') {
        proof {
            if s.len() == 1 {
                assert(s@ =~= seq!['.']);
            }
            if s.len() == 2 {
                assert(s@ =~= seq!['.', '.']);
            }
        }
        None
    } else {
        proof {
            if s@ == seq!['.'] {
                assert(s@[0] == '.');
            }
            if s@ == seq!['.', '.'] {
                assert(s@[0] == '.' && s@[1] == '.');
            }
        }
        Some(s)
    }
}

pub fn join_exec(dir: &Vec<char>, name: &Vec<char>) -> (r: Vec<char>)
    ensures
        r@ == join(dir@, name@),
{
    if name.len() > 0 && name[0] == '/' {
        return name.clone();
    }
    let mut r = dir.clone();
    if !(dir.len() == 0 || dir[dir.len() - 1] == '/') {
        r.push('/');
    }
    push_all(&mut r, name);
    proof {
        if !(dir.len() == 0 || dir@.last() == '/') {
            assert(r@ =~= dir@ + seq!['/'] + name@);
        }
    }
    r
}

fn split_extension_exec(name: &Vec<char>) -> (r: (Vec<char>, Option<Vec<char>>))
    ensures
        r.0@ == split_extension(name@).0,
        match split_extension(name@).1 {
            Some(e) => r.1 is Some && r.1->0@ == e,
            None => r.1 is None,
        },
{
    let dot = vec!['.'];
    proof {
        assert(dot@ =~= seq!['.']);
    }
    match crate::text::rfind_exec(name, &dot) {
        Some(k) => {
            proof {
                crate::text::lemma_rfind_from(name@, seq!['.'], name@.len() - 1);
            }
            if k == 0 {
                (name.clone(), None)
            } else {
                let n = name.len();
                assert(k + 1 <= n);
                (slice_of(name, 0, k), Some(slice_of(name, k + 1, n)))
            }
        },
        None => (name.clone(), None),
    }
}

// ---------------------------------------------------------------------------
// Output file names
// ---------------------------------------------------------------------------

/// The name under which `filename` is saved: its file name, or all of it
/// when it has none.
pub open spec fn safe_name(filename: Seq<char>) -> Seq<char> {
    match file_name(filename) {
        Some(n) => n,
        None => filename,
    }
}

/// The first choice of output path: the file name inside `save_dir`.
pub open spec fn first_output_path(save_dir: Seq<char>, filename: Seq<char>) -> Seq<char> {
    join(save_dir, safe_name(filename))
}

/// The stem that numbered alternatives are built from.
pub open spec fn output_stem(save_dir: Seq<char>, filename: Seq<char>) -> Seq<char> {
    match file_name(first_output_path(save_dir, filename)) {
        Some(n) => split_extension(n).0,
        None => safe_name(filename),
    }
}

/// The extension of numbered alternatives, with its dot (empty when there
/// is none).
pub open spec fn output_extension(save_dir: Seq<char>, filename: Seq<char>) -> Seq<char> {
    match file_name(first_output_path(save_dir, filename)) {
        Some(n) => match split_extension(n).1 {
            Some(e) => seq!['.'] + e,
            None => Seq::empty(),
        },
        None => Seq::empty(),
    }
}

/// Candidate `k` for the output path: the plain name for `k == 0`, else
/// `<stem> (<k>)<extension>` in the same folder.
pub open spec fn output_candidate_spec(save_dir: Seq<char>, filename: Seq<char>, k: nat) -> Seq<
    char,
> {
    if k == 0 {
        first_output_path(save_dir, filename)
    } else {
        join(
            save_dir,
            output_stem(save_dir, filename) + " ("@ + dec_string(k) + ")"@ + output_extension(
                save_dir,
                filename,
            ),
        )
    }
}

/// Candidate `k` of the output path of `filename` in `save_dir`.
pub fn output_candidate(save_dir: &str, filename: &str, k: u64) -> (r: String)
    ensures
        r@ == output_candidate_spec(save_dir@, filename@, k as nat),
{
    let dir = chars_of(save_dir);
    let f = chars_of(filename);
    let safe = match file_name_exec(&f) {
        Some(n) => n,
        None => f,
    };
    let first = join_exec(&dir, &safe);
    if k == 0 {
        return string_of(first.as_slice());
    }
    let (stem, ext) = match file_name_exec(&first) {
        Some(n) => {
            let (st, e) = split_extension_exec(&n);
            let ext = match e {
                Some(e) => {
                    let mut d = vec!['.'];
                    push_all(&mut d, &e);
                    d
                },
                None => Vec::new(),
            };
            (st, ext)
        },
        None => (safe, Vec::new()),
    };
    let mut name = stem;
    push_str(&mut name, " (");
    push_decimal(&mut name, k);
    push_str(&mut name, ")");
    push_all(&mut name, &ext);
    proof {
        assert(ext@ =~= output_extension(save_dir@, filename@));
    }
    let path = join_exec(&dir, &name);
    string_of(path.as_slice())
}

/// Whether something exists at `path` (`Path::exists`). Nothing is stated:
/// the answer depends on the file system at the time of the call.
#[verifier::external_body]
pub(crate) fn path_exists(path: &str) -> (r: bool) {
    std::path::Path::new(path).exists()
}

/// What looking at the numbered candidates 0, 1, 2, ... in turn can have
/// answered: `taken[k]` is the answer for candidate `k` (`true`: something
/// is there), every answer but the last is "taken", and the looking stops
/// at the first "free" or at the largest number an `i32` holds.
pub open spec fn probed_until_free(taken: Seq<bool>) -> bool {
    &&& 1 <= taken.len() <= i32::MAX + 1
    &&& forall|j: int| 0 <= j < taken.len() - 1 ==> taken[j]
    &&& taken.last() ==> taken.len() - 1 == i32::MAX
}

/// The index of the first candidate reported free.
pub fn first_free(taken: &Vec<bool>) -> (r: Option<usize>)
    ensures
        match r {
            Some(k) => k < taken.len() && !taken@[k as int] && forall|j: int| 0 <= j < k ==> taken@[j],
            None => forall|j: int| 0 <= j < taken.len() ==> taken@[j],
        },
{
    let mut i: usize = 0;
    while i < taken.len()
        invariant
            i <= taken.len(),
            forall|j: int| 0 <= j < i ==> taken@[j],
        decreases taken.len() - i,
    {
        if !taken[i] {
            return Some(i);
        }
        i += 1;
    }
    None
}

/// Looks at the numbered candidates for `filename` in `save_dir` in turn
/// and stops at the first that is reported free (or at the largest number
/// an `i32` holds); the answers, one per candidate looked at. What the file
/// system answers is not stated, only the order of the looking.
pub fn probe_output_candidates(save_dir: &str, filename: &str) -> (r: Vec<bool>)
    ensures
        probed_until_free(r@),
{
    let mut taken: Vec<bool> = Vec::new();
    let mut k: u64 = 0;
    let mut done = false;
    while !done
        invariant
            k <= i32::MAX,
            done ==> probed_until_free(taken@),
            !done ==> taken.len() == k && forall|j: int| 0 <= j < k ==> taken@[j],
        decreases i32::MAX - k + (if done { 0int } else { 1int }),
    {
        let candidate = output_candidate(save_dir, filename, k);
        let t = path_exists(candidate.as_str());
        taken.push(t);
        if !t || k == 0x7fff_ffff {
            done = true;
        } else {
            k += 1;
        }
    }
    taken
}

/// A path for `filename` in `save_dir` that does not overwrite an existing
/// file: the first numbered candidate (see [`output_candidate`]), counting
/// up from the plain name, that is reported free when it is looked at.
pub fn unique_output_path(save_dir: &str, filename: &str) -> (r: String)
    ensures
        exists|taken: Seq<bool>|
            #[trigger] probed_until_free(taken) && r@ == output_candidate_spec(
                save_dir@,
                filename@,
                (taken.len() - 1) as nat,
            ),
{
    let taken = probe_output_candidates(save_dir, filename);
    let last: usize = taken.len() - 1;
    let k: usize = match first_free(&taken) {
        Some(k) => {
            proof {
                if k < last {
                    assert(taken@[k as int]);
                }
            }
            k
        },
        None => last,
    };
    assert(k == last);
    output_candidate(save_dir, filename, k as u64)
}

// ---------------------------------------------------------------------------
// Laws
// ---------------------------------------------------------------------------

proof fn lemma_dec_string_digits(n: nat)
    ensures
        dec_string(n).len() >= 1,
        forall|i: int| 0 <= i < dec_string(n).len() ==> is_digit(#[trigger] dec_string(n)[i]),
    decreases n,
{
    if n >= 10 {
        lemma_dec_string_digits(n / 10);
    }
}

proof fn lemma_dec_string_value(n: nat)
    ensures
        dec_value(dec_string(n)) == n,
    decreases n,
{
    if n < 10 {
        assert(dec_string(n).drop_last() =~= Seq::<char>::empty());
        assert(dec_value(Seq::<char>::empty()) == 0);
    } else {
        lemma_dec_string_value(n / 10);
        let s = dec_string(n);
        assert(s.drop_last() =~= dec_string(n / 10));
        assert(n == (n / 10) * 10 + n % 10);
    }
}

/// Different retries look at different paths: the numbered candidates of
/// one file name are pairwise distinct, so the search never tries a name
/// twice.
#[verifier::spinoff_prover]
#[verifier::rlimit(40)]
pub proof fn lemma_numbered_candidates_differ(save_dir: Seq<char>, filename: Seq<char>, k1: nat, k2: nat)
    requires
        1 <= k1,
        1 <= k2,
        k1 != k2,
    ensures
        output_candidate_spec(save_dir, filename, k1) != output_candidate_spec(save_dir, filename, k2),
{
    reveal_strlit(" (");
    reveal_strlit(")");
    let st = output_stem(save_dir, filename);
    let ext = output_extension(save_dir, filename);
    let d1 = dec_string(k1);
    let d2 = dec_string(k2);
    let n1 = st + " ("@ + d1 + ")"@ + ext;
    let n2 = st + " ("@ + d2 + ")"@ + ext;
    lemma_dec_string_digits(k1);
    lemma_dec_string_digits(k2);
    lemma_dec_string_value(k1);
    lemma_dec_string_value(k2);
    if output_candidate_spec(save_dir, filename, k1) == output_candidate_spec(save_dir, filename, k2) {
        assert(n1.len() > 0 && n2.len() > 0);
        assert(n1[0] == n2[0]) by {
            if st.len() > 0 {
                assert(n1[0] == st[0]);
                assert(n2[0] == st[0]);
            } else {
                assert(n1[0] == ' ');
                assert(n2[0] == ' ');
            }
        }
        let c1 = join(save_dir, n1);
        let c2 = join(save_dir, n2);
        let q = (c1.len() - n1.len()) as int;
        assert(c1.skip(q) =~= n1);
        assert(c2.skip(q) =~= n2);
        assert(n1 == n2);
        let off = st.len() + 2int;
        let t1 = n1.skip(off);
        let t2 = n2.skip(off);
        assert(t1 =~= d1 + ")"@ + ext);
        assert(t2 =~= d2 + ")"@ + ext);
        if d1.len() < d2.len() {
            assert(t1[d1.len() as int] == ')');
            assert(t2[d1.len() as int] == d2[d1.len() as int]);
            assert(is_digit(d2[d1.len() as int]));
        } else if d2.len() < d1.len() {
            assert(t2[d2.len() as int] == ')');
            assert(t1[d2.len() as int] == d1[d2.len() as int]);
            assert(is_digit(d1[d2.len() as int]));
        } else {
            assert(d1 =~= t1.take(d1.len() as int));
            assert(d2 =~= t2.take(d2.len() as int));
            assert(d1 == d2);
        }
    }
}

/// No `/` occurs in `n`.
pub open spec fn no_slash(n: Seq<char>) -> bool {
    forall|i: int| 0 <= i < n.len() ==> n[i] != '/'
}

proof fn lemma_after_last_slash_has_none(s: Seq<char>)
    ensures
        no_slash(after_last_slash(s)),
{
    crate::text::lemma_rfind_from(s, seq!['/'], s.len() - 1);
    let a = after_last_slash(s);
    assert forall|i: int| 0 <= i < a.len() implies a[i] != '/' by {
        let m = match rfind(s, seq!['/']) {
            Some(k) => k + 1 + i,
            None => i,
        };
        assert(a[i] == s[m]);
        if s[m] == '/' {
            assert(s.subrange(m, m + 1) =~= seq!['/']);
            assert(crate::text::occurs_at(s, seq!['/'], m));
        }
    }
}

proof fn lemma_after_last_slash_of_prefixed(pre: Seq<char>, n: Seq<char>)
    requires
        no_slash(n),
        pre.len() == 0 || pre.last() == '/',
    ensures
        after_last_slash(pre + n) == n,
{
    let j = pre + n;
    let sl = seq!['/'];
    crate::text::lemma_rfind_from(j, sl, j.len() - 1);
    if pre.len() > 0 {
        let q = pre.len() - 1;
        assert(j[q] == '/');
        assert(j.subrange(q, q + 1) =~= sl);
        assert(crate::text::occurs_at(j, sl, q));
        assert(rfind(j, sl) is Some);
        let k = rfind(j, sl)->0;
        assert(crate::text::occurs_at(j, sl, k));
        assert(j.subrange(k, k + 1)[0] == j[k]);
        assert(j[k] == '/');
        if k > q {
            assert(j[k] == n[k - pre.len()]);
        }
        assert(k == q);
        assert(j.skip(k + 1) =~= n);
    } else {
        assert(j =~= n);
        if rfind(j, sl) is Some {
            let k = rfind(j, sl)->0;
            assert(j.subrange(k, k + 1)[0] == j[k]);
            assert(j[k] == n[k]);
        }
    }
}

proof fn lemma_file_name_of_join(d: Seq<char>, n: Seq<char>)
    requires
        n.len() > 0,
        no_slash(n),
        n != seq!['.'],
        n != seq!['.', '.'],
    ensures
        file_name(join(d, n)) == Some(n),
{
    let j = join(d, n);
    assert(n[0] != '/');
    let pre = if d.len() == 0 || d.last() == '/' {
        d
    } else {
        d + seq!['/']
    };
    assert(j =~= pre + n);
    assert(n.last() != '/');
    if n.len() == 1 {
        assert(n =~= seq![n[0]]);
    }
    assert(!(j.len() >= 2 && j.last() == '.' && j[j.len() - 2] == '/')) by {
        if n.len() >= 2 {
            assert(j[j.len() - 2] == n[n.len() - 2]);
        }
    }
    assert(trim_path_end(j) == j);
    lemma_after_last_slash_of_prefixed(pre, n);
}

/// A download is saved directly inside the chosen folder, whatever path its
/// name carries: when `filename` has a file name part, every candidate is
/// `save_dir` joined with a name that holds no `/` (so `../../etc/passwd`
/// becomes `passwd` or a numbered `passwd (k)` there).
pub proof fn lemma_candidates_stay_in_folder(save_dir: Seq<char>, filename: Seq<char>, k: nat)
    requires
        file_name(filename) is Some,
    ensures
        exists|n: Seq<char>|
            n.len() > 0 && no_slash(n) && #[trigger] join(save_dir, n) == output_candidate_spec(
                save_dir,
                filename,
                k,
            ),
{
    let s = file_name(filename)->0;
    lemma_after_last_slash_has_none(trim_path_end(filename));
    assert(no_slash(s));
    if k == 0 {
        assert(join(save_dir, s) == output_candidate_spec(save_dir, filename, k));
    } else {
        reveal_strlit(" (");
        reveal_strlit(")");
        lemma_file_name_of_join(save_dir, s);
        let (stem, e) = split_extension(s);
        let ext = output_extension(save_dir, filename);
        let d = dec_string(k);
        lemma_dec_string_digits(k);
        crate::text::lemma_rfind_from(s, seq!['.'], s.len() - 1);
        assert(no_slash(stem)) by {
            assert forall|i: int| 0 <= i < stem.len() implies stem[i] != '/' by {
                assert(stem[i] == s[i]);
            }
        }
        assert(no_slash(ext)) by {
            assert forall|i: int| 0 <= i < ext.len() implies ext[i] != '/' by {
                if i > 0 {
                    let q = rfind(s, seq!['.'])->0;
                    assert(ext[i] == s[q + i]);
                }
            }
        }
        let n = stem + " ("@ + d + ")"@ + ext;
        assert(no_slash(n)) by {
            assert forall|i: int| 0 <= i < n.len() implies n[i] != '/' by {
                if i >= stem.len() + 2 && i < stem.len() + 2 + d.len() {
                    assert(is_digit(d[i - stem.len() - 2]));
                }
            }
        }
        assert(join(save_dir, n) == output_candidate_spec(save_dir, filename, k));
    }
}

} // verus!
