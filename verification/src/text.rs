//! Character-level text operations with their specifications.
//!
//! Strings are handled as `Vec<char>` inside the library; every operation is
//! specified over `Seq<char>` so that the callers' contracts can speak of the
//! same model as the views of `&str` and `String`.
use vstd::prelude::*;

verus! {

// ---------------------------------------------------------------------------
// Character classes
// ---------------------------------------------------------------------------

/// Unicode `White_Space`, the set that `char::is_whitespace` accepts.
pub open spec fn is_ws(c: char) -> bool {
    let u = c as u32;
    (0x9 <= u <= 0xd) || u == 0x20 || u == 0x85 || u == 0xa0 || u == 0x1680 || (0x2000 <= u
        <= 0x200a) || u == 0x2028 || u == 0x2029 || u == 0x202f || u == 0x205f || u == 0x3000
}

/// Unicode general category `Cc`, the set that `char::is_control` accepts.
pub open spec fn is_control(c: char) -> bool {
    let u = c as u32;
    u <= 0x1f || (0x7f <= u <= 0x9f)
}

pub open spec fn is_digit(c: char) -> bool {
    '0' as u32 <= c as u32 <= '9' as u32
}

pub open spec fn is_upper_ascii(c: char) -> bool {
    'A' as u32 <= c as u32 <= 'Z' as u32
}

pub open spec fn lower_ascii(c: char) -> char {
    if is_upper_ascii(c) {
        ((c as u32) + 32) as char
    } else {
        c
    }
}

pub open spec fn lower_ascii_seq(s: Seq<char>) -> Seq<char> {
    Seq::new(s.len(), |i: int| lower_ascii(s[i]))
}

pub fn char_is_ws(c: char) -> (r: bool)
    ensures
        r == is_ws(c),
{
    let u = c as u32;
    (0x9 <= u && u <= 0xd) || u == 0x20 || u == 0x85 || u == 0xa0 || u == 0x1680 || (0x2000 <= u
        && u <= 0x200a) || u == 0x2028 || u == 0x2029 || u == 0x202f || u == 0x205f || u == 0x3000
}

pub fn char_is_control(c: char) -> (r: bool)
    ensures
        r == is_control(c),
{
    let u = c as u32;
    u <= 0x1f || (0x7f <= u && u <= 0x9f)
}

pub fn char_is_digit(c: char) -> (r: bool)
    ensures
        r == is_digit(c),
{
    let u = c as u32;
    '0' as u32 <= u && u <= '9' as u32
}

pub fn char_lower_ascii(c: char) -> (r: char)
    ensures
        r == lower_ascii(c),
{
    if 'A' as u32 <= c as u32 && c as u32 <= 'Z' as u32 {
        ((c as u8) + 32) as char
    } else {
        c
    }
}

// ---------------------------------------------------------------------------
// Conversions between `str`/`String` and `Vec<char>`
// ---------------------------------------------------------------------------

/// The characters of `s`, in order.
pub fn chars_of(s: &str) -> (v: Vec<char>)
    ensures
        v@ == s@,
{
    let mut v: Vec<char> = Vec::new();
    for c in it: s.chars()
        invariant
            v@ == it.seq().take(it.index() as int),
    {
        v.push(c);
    }
    v
}

/// Builds a `String` from characters (`String: FromIterator<&char>`).
#[verifier::external_body]
pub fn string_of(v: &[char]) -> (s: String)
    ensures
        s@ == v@,
{
    String::from_iter(v.iter())
}

/// `v[a..b]` as a fresh vector.
pub fn slice_of(v: &Vec<char>, a: usize, b: usize) -> (r: Vec<char>)
    requires
        a <= b <= v.len(),
    ensures
        r@ == v@.subrange(a as int, b as int),
{
    let mut r: Vec<char> = Vec::new();
    let mut i = a;
    while i < b
        invariant
            a <= i <= b <= v.len(),
            r@ == v@.subrange(a as int, i as int),
        decreases b - i,
    {
        r.push(v[i]);
        i += 1;
    }
    r
}

/// Appends the characters of `w` to `v`.
pub fn push_all(v: &mut Vec<char>, w: &Vec<char>)
    ensures
        final(v)@ == old(v)@ + w@,
{
    let mut i: usize = 0;
    while i < w.len()
        invariant
            i <= w.len(),
            v@ == old(v)@ + w@.take(i as int),
        decreases w.len() - i,
    {
        v.push(w[i]);
        i += 1;
        assert(w@.take(i as int) == w@.take((i - 1) as int).push(w@[i - 1]));
    }
    assert(w@.take(w.len() as int) == w@);
}

/// Appends the characters of `s` to `v`.
pub fn push_str(v: &mut Vec<char>, s: &str)
    ensures
        final(v)@ == old(v)@ + s@,
{
    let w = chars_of(s);
    push_all(v, &w);
}

pub fn seq_eq(a: &Vec<char>, b: &Vec<char>) -> (r: bool)
    ensures
        r == (a@ == b@),
{
    if a.len() != b.len() {
        return false;
    }
    let mut i: usize = 0;
    while i < a.len()
        invariant
            i <= a.len() == b.len(),
            a@.take(i as int) == b@.take(i as int),
        decreases a.len() - i,
    {
        if a[i] != b[i] {
            assert(a@[i as int] != b@[i as int]);
            return false;
        }
        i += 1;
        assert(a@.take(i as int) == a@.take((i - 1) as int).push(a@[i - 1]));
        assert(b@.take(i as int) == b@.take((i - 1) as int).push(b@[i - 1]));
    }
    assert(a@ == a@.take(a.len() as int));
    assert(b@ == b@.take(b.len() as int));
    true
}

pub fn str_eq(a: &Vec<char>, s: &str) -> (r: bool)
    ensures
        r == (a@ == s@),
{
    let b = chars_of(s);
    seq_eq(a, &b)
}

// ---------------------------------------------------------------------------
// Trimming
// ---------------------------------------------------------------------------

/// End of the run of whitespace that starts at `i`.
pub open spec fn lead_ws_end(s: Seq<char>, i: int) -> int
    decreases s.len() - i,
{
    if 0 <= i < s.len() && is_ws(s[i]) {
        lead_ws_end(s, i + 1)
    } else {
        i
    }
}

/// Start of the run of whitespace that ends at `j`.
pub open spec fn trail_ws_start(s: Seq<char>, j: int) -> int
    decreases j,
{
    if 0 < j <= s.len() && is_ws(s[j - 1]) {
        trail_ws_start(s, j - 1)
    } else {
        j
    }
}

/// `str::trim_start`
pub open spec fn trim_start(s: Seq<char>) -> Seq<char> {
    s.subrange(lead_ws_end(s, 0), s.len() as int)
}

/// `str::trim_end`
pub open spec fn trim_end(s: Seq<char>) -> Seq<char> {
    s.subrange(0, trail_ws_start(s, s.len() as int))
}

/// `str::trim`: whitespace removed at both ends.
pub open spec fn trim(s: Seq<char>) -> Seq<char> {
    trim_end(trim_start(s))
}

pub proof fn lemma_lead_ws_end(s: Seq<char>, i: int)
    requires
        0 <= i <= s.len(),
    ensures
        i <= lead_ws_end(s, i) <= s.len(),
        forall|k: int| i <= k < lead_ws_end(s, i) ==> is_ws(#[trigger] s[k]),
        lead_ws_end(s, i) < s.len() ==> !is_ws(s[lead_ws_end(s, i)]),
    decreases s.len() - i,
{
    if i < s.len() && is_ws(s[i]) {
        lemma_lead_ws_end(s, i + 1);
    }
}

pub proof fn lemma_trail_ws_start(s: Seq<char>, j: int)
    requires
        0 <= j <= s.len(),
    ensures
        0 <= trail_ws_start(s, j) <= j,
        forall|k: int| trail_ws_start(s, j) <= k < j ==> is_ws(#[trigger] s[k]),
        trail_ws_start(s, j) > 0 ==> !is_ws(s[trail_ws_start(s, j) - 1]),
    decreases j,
{
    if 0 < j && is_ws(s[j - 1]) {
        lemma_trail_ws_start(s, j - 1);
    }
}

pub fn lead_ws_end_exec(v: &Vec<char>, start: usize) -> (r: usize)
    requires
        start <= v.len(),
    ensures
        r == lead_ws_end(v@, start as int),
        start <= r <= v.len(),
{
    proof {
        lemma_lead_ws_end(v@, start as int);
    }
    let mut i = start;
    while i < v.len() && char_is_ws(v[i])
        invariant
            start <= i <= v.len(),
            lead_ws_end(v@, i as int) == lead_ws_end(v@, start as int),
        decreases v.len() - i,
    {
        i += 1;
    }
    i
}

pub fn trail_ws_start_exec(v: &Vec<char>, end: usize) -> (r: usize)
    requires
        end <= v.len(),
    ensures
        r == trail_ws_start(v@, end as int),
        r <= end,
{
    proof {
        lemma_trail_ws_start(v@, end as int);
    }
    let mut j = end;
    while j > 0 && char_is_ws(v[j - 1])
        invariant
            j <= end <= v.len(),
            trail_ws_start(v@, j as int) == trail_ws_start(v@, end as int),
        decreases j,
    {
        j -= 1;
    }
    j
}

pub fn trim_start_vec(v: &Vec<char>) -> (r: Vec<char>)
    ensures
        r@ == trim_start(v@),
{
    let a = lead_ws_end_exec(v, 0);
    slice_of(v, a, v.len())
}

pub fn trim_end_vec(v: &Vec<char>) -> (r: Vec<char>)
    ensures
        r@ == trim_end(v@),
{
    let b = trail_ws_start_exec(v, v.len());
    slice_of(v, 0, b)
}

pub fn trim_vec(v: &Vec<char>) -> (r: Vec<char>)
    ensures
        r@ == trim(v@),
{
    let t = trim_start_vec(v);
    trim_end_vec(&t)
}

/// `str::trim_end_matches(c)` for a single character.
pub open spec fn trail_char_start(s: Seq<char>, c: char, j: int) -> int
    decreases j,
{
    if 0 < j <= s.len() && s[j - 1] == c {
        trail_char_start(s, c, j - 1)
    } else {
        j
    }
}

pub open spec fn trim_end_char(s: Seq<char>, c: char) -> Seq<char> {
    s.subrange(0, trail_char_start(s, c, s.len() as int))
}

pub proof fn lemma_trail_char_start(s: Seq<char>, c: char, j: int)
    requires
        0 <= j <= s.len(),
    ensures
        0 <= trail_char_start(s, c, j) <= j,
        forall|k: int| trail_char_start(s, c, j) <= k < j ==> #[trigger] s[k] == c,
        trail_char_start(s, c, j) > 0 ==> s[trail_char_start(s, c, j) - 1] != c,
    decreases j,
{
    if 0 < j && s[j - 1] == c {
        lemma_trail_char_start(s, c, j - 1);
    }
}

pub fn trim_end_char_vec(v: &Vec<char>, c: char) -> (r: Vec<char>)
    ensures
        r@ == trim_end_char(v@, c),
{
    proof {
        lemma_trail_char_start(v@, c, v.len() as int);
    }
    let mut j = v.len();
    while j > 0 && v[j - 1] == c
        invariant
            j <= v.len(),
            trail_char_start(v@, c, j as int) == trail_char_start(v@, c, v.len() as int),
        decreases j,
    {
        j -= 1;
    }
    slice_of(v, 0, j)
}

// ---------------------------------------------------------------------------
// Prefixes, suffixes and searching
// ---------------------------------------------------------------------------

pub open spec fn starts_with(s: Seq<char>, p: Seq<char>) -> bool {
    p.len() <= s.len() && s.take(p.len() as int) == p
}

pub open spec fn ends_with(s: Seq<char>, p: Seq<char>) -> bool {
    p.len() <= s.len() && s.skip(s.len() - p.len()) == p
}

/// `p` occurs in `s` at position `i`.
pub open spec fn occurs_at(s: Seq<char>, p: Seq<char>, i: int) -> bool {
    0 <= i && i + p.len() <= s.len() && s.subrange(i, i + p.len()) == p
}

/// First occurrence of `p` in `s` at or after `i` (`str::find` when `i == 0`).
pub open spec fn find_from(s: Seq<char>, p: Seq<char>, i: int) -> Option<int>
    decreases s.len() + 1 - i,
{
    if i < 0 || i + p.len() > s.len() {
        None
    } else if occurs_at(s, p, i) {
        Some(i)
    } else {
        find_from(s, p, i + 1)
    }
}

pub open spec fn find(s: Seq<char>, p: Seq<char>) -> Option<int> {
    find_from(s, p, 0)
}

/// `str::contains`
pub open spec fn contains(s: Seq<char>, p: Seq<char>) -> bool {
    find(s, p) is Some
}

/// Last occurrence of `p` in `s` starting at or before `i`.
pub open spec fn rfind_from(s: Seq<char>, p: Seq<char>, i: int) -> Option<int>
    decreases i + 1,
{
    if i < 0 {
        None
    } else if occurs_at(s, p, i) {
        Some(i)
    } else {
        rfind_from(s, p, i - 1)
    }
}

/// `str::rfind`
pub open spec fn rfind(s: Seq<char>, p: Seq<char>) -> Option<int> {
    rfind_from(s, p, s.len() - p.len())
}

pub proof fn lemma_find_from(s: Seq<char>, p: Seq<char>, i: int)
    requires
        0 <= i,
    ensures
        find_from(s, p, i) matches Some(k) ==> i <= k && occurs_at(s, p, k) && forall|m: int|
            i <= m < k ==> !occurs_at(s, p, m),
        find_from(s, p, i) is None ==> forall|m: int| i <= m ==> !occurs_at(s, p, m),
    decreases s.len() + 1 - i,
{
    if i + p.len() > s.len() {
    } else if occurs_at(s, p, i) {
    } else {
        lemma_find_from(s, p, i + 1);
    }
}

pub proof fn lemma_rfind_from(s: Seq<char>, p: Seq<char>, i: int)
    ensures
        rfind_from(s, p, i) matches Some(k) ==> k <= i && occurs_at(s, p, k) && forall|m: int|
            k < m <= i ==> !occurs_at(s, p, m),
        rfind_from(s, p, i) is None ==> forall|m: int| m <= i ==> !occurs_at(s, p, m),
    decreases i + 1,
{
    if i < 0 {
    } else if occurs_at(s, p, i) {
    } else {
        lemma_rfind_from(s, p, i - 1);
    }
}

/// Whether `p` occurs in `v` at `i`.
pub fn occurs_at_exec(v: &Vec<char>, p: &Vec<char>, i: usize) -> (r: bool)
    ensures
        r == occurs_at(v@, p@, i as int),
{
    if p.len() > v.len() || i > v.len() - p.len() {
        return false;
    }
    let mut k: usize = 0;
    while k < p.len()
        invariant
            k <= p.len(),
            i + p.len() <= v.len(),
            forall|m: int| 0 <= m < k ==> v@[i + m] == p@[m],
        decreases p.len() - k,
    {
        if v[i + k] != p[k] {
            assert(v@.subrange(i as int, i + p.len())[k as int] != p@[k as int]);
            return false;
        }
        k += 1;
    }
    assert(v@.subrange(i as int, i + p.len()) == p@);
    true
}

pub fn starts_with_exec(v: &Vec<char>, p: &Vec<char>) -> (r: bool)
    ensures
        r == starts_with(v@, p@),
{
    let r = occurs_at_exec(v, p, 0);
    proof {
        if p.len() <= v.len() {
            assert(v@.subrange(0, p@.len() as int) == v@.take(p@.len() as int));
        }
    }
    r
}

pub fn starts_with_str(v: &Vec<char>, s: &str) -> (r: bool)
    ensures
        r == starts_with(v@, s@),
{
    let p = chars_of(s);
    starts_with_exec(v, &p)
}

pub fn ends_with_exec(v: &Vec<char>, p: &Vec<char>) -> (r: bool)
    ensures
        r == ends_with(v@, p@),
{
    if p.len() > v.len() {
        return false;
    }
    let r = occurs_at_exec(v, p, v.len() - p.len());
    proof {
        assert(v@.subrange(v.len() - p.len(), v.len() as int) == v@.skip(v.len() - p.len()));
    }
    r
}

pub fn ends_with_str(v: &Vec<char>, s: &str) -> (r: bool)
    ensures
        r == ends_with(v@, s@),
{
    let p = chars_of(s);
    ends_with_exec(v, &p)
}

/// `str::find` from position `start`.
pub fn find_from_exec(v: &Vec<char>, p: &Vec<char>, start: usize) -> (r: Option<usize>)
    ensures
        r matches Some(k) ==> find_from(v@, p@, start as int) == Some(k as int),
        r is None ==> find_from(v@, p@, start as int) is None,
{
    if p.len() > v.len() || start > v.len() - p.len() {
        return None;
    }
    let mut i = start;
    while i <= v.len() - p.len()
        invariant
            start <= i,
            p.len() <= v.len(),
            find_from(v@, p@, i as int) == find_from(v@, p@, start as int),
        decreases v.len() - i,
    {
        if occurs_at_exec(v, p, i) {
            return Some(i);
        }
        assert(p.len() > 0) by {
            if p.len() == 0 {
                assert(v@.subrange(i as int, i as int) == p@);
            }
        }
        i += 1;
    }
    None
}

pub fn find_exec(v: &Vec<char>, p: &Vec<char>) -> (r: Option<usize>)
    ensures
        r matches Some(k) ==> find(v@, p@) == Some(k as int),
        r is None ==> find(v@, p@) is None,
{
    find_from_exec(v, p, 0)
}

pub fn find_str(v: &Vec<char>, s: &str) -> (r: Option<usize>)
    ensures
        r matches Some(k) ==> find(v@, s@) == Some(k as int),
        r is None ==> find(v@, s@) is None,
{
    let p = chars_of(s);
    find_exec(v, &p)
}

pub fn contains_exec(v: &Vec<char>, p: &Vec<char>) -> (r: bool)
    ensures
        r == contains(v@, p@),
{
    find_exec(v, p).is_some()
}

pub fn contains_str(v: &Vec<char>, s: &str) -> (r: bool)
    ensures
        r == contains(v@, s@),
{
    find_str(v, s).is_some()
}

/// `str::rfind`
pub fn rfind_exec(v: &Vec<char>, p: &Vec<char>) -> (r: Option<usize>)
    ensures
        r matches Some(k) ==> rfind(v@, p@) == Some(k as int),
        r is None ==> rfind(v@, p@) is None,
{
    if p.len() > v.len() {
        proof {
            lemma_rfind_from(v@, p@, v@.len() - p@.len());
            assert(rfind_from(v@, p@, v@.len() - p@.len()) is None) by {
                if rfind_from(v@, p@, v@.len() - p@.len()) is Some {
                    let k = rfind_from(v@, p@, v@.len() - p@.len())->0;
                    assert(occurs_at(v@, p@, k));
                }
            }
        }
        return None;
    }
    let mut i: usize = v.len() - p.len();
    loop
        invariant
            i <= v.len() - p.len(),
            p.len() <= v.len(),
            rfind_from(v@, p@, i as int) == rfind_from(v@, p@, v@.len() - p@.len()),
        decreases i,
    {
        if occurs_at_exec(v, p, i) {
            return Some(i);
        }
        if i == 0 {
            assert(rfind_from(v@, p@, -1) is None);
            return None;
        }
        i -= 1;
    }
}

/// The text after the last `'/'` (all of it when there is none).
pub open spec fn after_last_slash(s: Seq<char>) -> Seq<char> {
    match rfind(s, seq!['/']) {
        Some(k) => s.skip(k + 1),
        None => s,
    }
}

pub fn after_last_slash_exec(v: &Vec<char>) -> (r: Vec<char>)
    ensures
        r@ == after_last_slash(v@),
{
    let slash = vec!['/'];
    proof {
        assert(slash@ == seq!['/']);
    }
    proof {
        lemma_rfind_from(v@, seq!['/'], v@.len() - 1);
    }
    match rfind_exec(v, &slash) {
        Some(k) => {
            assert(occurs_at(v@, seq!['/'], k as int));
            assert(seq!['/'].len() == 1);
            let n = v.len();
            assert(k + 1 <= n);
            slice_of(v, k + 1, n)
        },
        None => v.clone(),
    }
}

/// Whether some character of `v` satisfies `c == x`.
pub open spec fn has_char(s: Seq<char>, c: char) -> bool {
    exists|i: int| 0 <= i < s.len() && s[i] == c
}

pub fn has_char_exec(v: &Vec<char>, c: char) -> (r: bool)
    ensures
        r == has_char(v@, c),
{
    let mut i: usize = 0;
    while i < v.len()
        invariant
            i <= v.len(),
            forall|k: int| 0 <= k < i ==> v@[k] != c,
        decreases v.len() - i,
    {
        if v[i] == c {
            return true;
        }
        i += 1;
    }
    false
}

/// ASCII lower-casing of every character (`str::to_ascii_lowercase`).
pub fn lower_ascii_vec(v: &Vec<char>) -> (r: Vec<char>)
    ensures
        r@ == lower_ascii_seq(v@),
{
    let mut r: Vec<char> = Vec::new();
    let mut i: usize = 0;
    while i < v.len()
        invariant
            i <= v.len(),
            r@ == lower_ascii_seq(v@.take(i as int)),
        decreases v.len() - i,
    {
        let c = char_lower_ascii(v[i]);
        r.push(c);
        i += 1;
        assert(lower_ascii_seq(v@.take(i as int)) == lower_ascii_seq(v@.take((i - 1) as int)).push(
            lower_ascii(v@[i - 1]),
        ));
    }
    assert(v@.take(v.len() as int) == v@);
    r
}

/// `str::eq_ignore_ascii_case`
pub open spec fn eq_ignore_ascii_case(a: Seq<char>, b: Seq<char>) -> bool {
    lower_ascii_seq(a) == lower_ascii_seq(b)
}

pub fn eq_ignore_ascii_case_exec(a: &Vec<char>, b: &Vec<char>) -> (r: bool)
    ensures
        r == eq_ignore_ascii_case(a@, b@),
{
    let la = lower_ascii_vec(a);
    let lb = lower_ascii_vec(b);
    seq_eq(&la, &lb)
}

// ---------------------------------------------------------------------------
// Lines and whitespace-separated tokens
// ---------------------------------------------------------------------------

/// Index of the first `'\n'` at or after `i`, or the length when there is none.
pub open spec fn next_nl(s: Seq<char>, i: int) -> int
    decreases s.len() - i,
{
    if 0 <= i < s.len() && s[i] != '\n' {
        next_nl(s, i + 1)
    } else {
        i
    }
}

pub proof fn lemma_next_nl(s: Seq<char>, i: int)
    requires
        0 <= i <= s.len(),
    ensures
        i <= next_nl(s, i) <= s.len(),
        next_nl(s, i) < s.len() ==> s[next_nl(s, i)] == '\n',
        forall|k: int| i <= k < next_nl(s, i) ==> #[trigger] s[k] != '\n',
    decreases s.len() - i,
{
    if i < s.len() && s[i] != '\n' {
        lemma_next_nl(s, i + 1);
    }
}

/// The line that starts at `i`: up to the next `'\n'`, without it, and
/// without one `'\r'` before it (the final unterminated line keeps its `'\r'`).
pub open spec fn line_at(s: Seq<char>, i: int) -> Seq<char> {
    let j = next_nl(s, i);
    let raw = s.subrange(i, j);
    if j < s.len() && raw.len() > 0 && raw.last() == '\r' {
        raw.drop_last()
    } else {
        raw
    }
}

pub open spec fn lines_from(s: Seq<char>, i: int) -> Seq<Seq<char>>
    decreases s.len() - i,
{
    if i < 0 || i >= s.len() {
        Seq::empty()
    } else {
        let j = next_nl(s, i);
        if j < i {
            Seq::empty()
        } else if j >= s.len() {
            seq![line_at(s, i)]
        } else {
            seq![line_at(s, i)] + lines_from(s, j + 1)
        }
    }
}

pub proof fn lemma_deep_view_chars(v: &Vec<char>)
    ensures
        v.deep_view() == v@,
{
    assert(v.deep_view() =~= v@);
}

/// Appends `item` to a vector of character vectors.
pub fn push_chars(v: &mut Vec<Vec<char>>, item: Vec<char>)
    ensures
        final(v).deep_view() == old(v).deep_view().push(item@),
{
    let ghost iv = item@;
    proof {
        lemma_deep_view_chars(&item);
    }
    v.push(item);
    proof {
        assert(v.deep_view() =~= old(v).deep_view().push(iv));
    }
}

/// `str::lines`
pub open spec fn lines(s: Seq<char>) -> Seq<Seq<char>> {
    lines_from(s, 0)
}

/// The lines of `v`, as `str::lines` yields them.
pub fn split_lines(v: &Vec<char>) -> (r: Vec<Vec<char>>)
    ensures
        r.deep_view() == lines(v@),
{
    let mut r: Vec<Vec<char>> = Vec::new();
    let mut i: usize = 0;
    while i < v.len()
        invariant
            i <= v.len(),
            r.deep_view() + lines_from(v@, i as int) == lines(v@),
        decreases v.len() - i,
    {
        proof {
            lemma_next_nl(v@, i as int);
        }
        let mut j = i;
        while j < v.len() && v[j] != '\n'
            invariant
                i <= j <= v.len(),
                next_nl(v@, j as int) == next_nl(v@, i as int),
            decreases v.len() - j,
        {
            j += 1;
        }
        let mut e = j;
        if j < v.len() && j > i && v[j - 1] == '\r' {
            e = j - 1;
        }
        let line = slice_of(v, i, e);
        proof {
            let raw = v@.subrange(i as int, j as int);
            if j < v.len() && raw.len() > 0 && raw.last() == '\r' {
                assert(raw.drop_last() == v@.subrange(i as int, e as int));
            }
            assert(line@ == line_at(v@, i as int));
        }
        let ghost before = r.deep_view();
        proof {
            lemma_deep_view_chars(&line);
        }
        r.push(line);
        proof {
            assert(r.deep_view() =~= before.push(line@));
            assert(r.deep_view() == before.push(line@));
            assert(lines_from(v@, i as int) == seq![line@] + lines_from(v@, j + 1));
            assert(before + lines_from(v@, i as int) == before.push(line@) + lines_from(
                v@,
                j + 1,
            ));
        }
        if j == v.len() {
            i = j;
            proof {
                assert(lines_from(v@, (j + 1) as int) == Seq::<Seq<char>>::empty());
            }
        } else {
            i = j + 1;
        }
    }
    proof {
        assert(lines_from(v@, i as int) == Seq::<Seq<char>>::empty());
        assert(r.deep_view() + Seq::<Seq<char>>::empty() == r.deep_view());
    }
    r
}

/// End of the run of non-whitespace characters that starts at `i`.
pub open spec fn word_end(s: Seq<char>, i: int) -> int
    decreases s.len() - i,
{
    if 0 <= i < s.len() && !is_ws(s[i]) {
        word_end(s, i + 1)
    } else {
        i
    }
}

pub proof fn lemma_word_end(s: Seq<char>, i: int)
    requires
        0 <= i <= s.len(),
    ensures
        i <= word_end(s, i) <= s.len(),
        word_end(s, i) < s.len() ==> is_ws(s[word_end(s, i)]),
        forall|k: int| i <= k < word_end(s, i) ==> !is_ws(#[trigger] s[k]),
    decreases s.len() - i,
{
    if i < s.len() && !is_ws(s[i]) {
        lemma_word_end(s, i + 1);
    }
}

pub open spec fn words_from(s: Seq<char>, i: int) -> Seq<Seq<char>>
    decreases s.len() - i,
{
    if i < 0 || i > s.len() {
        Seq::empty()
    } else {
        let a = lead_ws_end(s, i);
        proof {
            lemma_lead_ws_end(s, i);
        }
        if a >= s.len() {
            Seq::empty()
        } else {
            proof {
                lemma_word_end(s, a);
            }
            seq![s.subrange(a, word_end(s, a))] + words_from(s, word_end(s, a))
        }
    }
}

/// `str::split_whitespace`
pub open spec fn words(s: Seq<char>) -> Seq<Seq<char>> {
    words_from(s, 0)
}

pub fn split_words(v: &Vec<char>) -> (r: Vec<Vec<char>>)
    ensures
        r.deep_view() == words(v@),
{
    let mut r: Vec<Vec<char>> = Vec::new();
    let mut i: usize = 0;
    loop
        invariant
            i <= v.len(),
            r.deep_view() + words_from(v@, i as int) == words(v@),
        decreases v.len() - i,
    {
        let a = lead_ws_end_exec(v, i);
        if a >= v.len() {
            proof {
                assert(words_from(v@, i as int) == Seq::<Seq<char>>::empty());
                assert(r.deep_view() + Seq::<Seq<char>>::empty() == r.deep_view());
            }
            return r;
        }
        proof {
            lemma_word_end(v@, a as int);
        }
        let mut b = a;
        while b < v.len() && !char_is_ws(v[b])
            invariant
                a <= b <= v.len(),
                word_end(v@, b as int) == word_end(v@, a as int),
            decreases v.len() - b,
        {
            b += 1;
        }
        let w = slice_of(v, a, b);
        let ghost before = r.deep_view();
        proof {
            lemma_deep_view_chars(&w);
        }
        r.push(w);
        proof {
            assert(r.deep_view() =~= before.push(w@));
            assert(r.deep_view() == before.push(w@));
            assert(words_from(v@, i as int) == seq![w@] + words_from(v@, b as int));
            assert(before + words_from(v@, i as int) == before.push(w@) + words_from(
                v@,
                b as int,
            ));
        }
        i = b;
    }
}

// ---------------------------------------------------------------------------
// Splitting at a set of stop characters
// ---------------------------------------------------------------------------

/// Whether `c` is one of `stops`, or whitespace when `ws` is set.
pub open spec fn is_stop(c: char, stops: Seq<char>, ws: bool) -> bool {
    stops.contains(c) || (ws && is_ws(c))
}

/// First index at or after `i` whose character is a stop, or the length.
pub open spec fn stop_index(s: Seq<char>, stops: Seq<char>, ws: bool, i: int) -> int
    decreases s.len() - i,
{
    if 0 <= i < s.len() && !is_stop(s[i], stops, ws) {
        stop_index(s, stops, ws, i + 1)
    } else {
        i
    }
}

/// `s.split(|c| is_stop(c)).next()`: the text before the first stop.
pub open spec fn before_stop(s: Seq<char>, stops: Seq<char>, ws: bool) -> Seq<char> {
    s.take(stop_index(s, stops, ws, 0))
}

pub proof fn lemma_stop_index(s: Seq<char>, stops: Seq<char>, ws: bool, i: int)
    requires
        0 <= i <= s.len(),
    ensures
        i <= stop_index(s, stops, ws, i) <= s.len(),
        forall|k: int| i <= k < stop_index(s, stops, ws, i) ==> !is_stop(#[trigger] s[k], stops, ws),
    decreases s.len() - i,
{
    if i < s.len() && !is_stop(s[i], stops, ws) {
        lemma_stop_index(s, stops, ws, i + 1);
    }
}

pub fn before_stop_exec(v: &Vec<char>, stops: &Vec<char>, ws: bool) -> (r: Vec<char>)
    ensures
        r@ == before_stop(v@, stops@, ws),
{
    proof {
        lemma_stop_index(v@, stops@, ws, 0);
    }
    let mut i: usize = 0;
    while i < v.len() && !(has_char_exec(stops, v[i]) || (ws && char_is_ws(v[i])))
        invariant
            i <= v.len(),
            stop_index(v@, stops@, ws, i as int) == stop_index(v@, stops@, ws, 0),
        decreases v.len() - i,
    {
        proof {
            assert(!is_stop(v@[i as int], stops@, ws)) by {
                if stops@.contains(v@[i as int]) {
                    let k = choose|k: int| 0 <= k < stops@.len() && stops@[k] == v@[i as int];
                    assert(has_char(stops@, v@[i as int]));
                }
            }
        }
        i += 1;
    }
    proof {
        if i < v.len() {
            assert(is_stop(v@[i as int], stops@, ws)) by {
                if has_char(stops@, v@[i as int]) {
                    let k = choose|k: int| 0 <= k < stops@.len() && stops@[k] == v@[i as int];
                    assert(stops@.contains(v@[i as int]));
                }
            }
        }
    }
    slice_of(v, 0, i)
}

/// `str::trim_start_matches(p)` for a non-empty pattern: every leading
/// repetition of `p` removed.
pub open spec fn strip_all_prefix(s: Seq<char>, p: Seq<char>) -> Seq<char>
    decreases s.len(),
{
    if p.len() > 0 && starts_with(s, p) {
        strip_all_prefix(s.skip(p.len() as int), p)
    } else {
        s
    }
}

pub fn strip_all_prefix_exec(v: &Vec<char>, p: &Vec<char>) -> (r: Vec<char>)
    ensures
        r@ == strip_all_prefix(v@, p@),
{
    let mut cur = v.clone();
    while p.len() > 0 && starts_with_exec(&cur, p)
        invariant
            strip_all_prefix(cur@, p@) == strip_all_prefix(v@, p@),
        decreases cur.len(),
    {
        cur = slice_of(&cur, p.len(), cur.len());
    }
    cur
}

// ---------------------------------------------------------------------------
// Decimal numbers
// ---------------------------------------------------------------------------

pub open spec fn digit_value(c: char) -> nat {
    (c as u32 - '0' as u32) as nat
}

pub open spec fn all_digits(s: Seq<char>) -> bool {
    forall|i: int| 0 <= i < s.len() ==> is_digit(#[trigger] s[i])
}

/// Value of a string of decimal digits.
pub open spec fn dec_value(s: Seq<char>) -> nat
    decreases s.len(),
{
    if s.len() == 0 {
        0
    } else {
        dec_value(s.drop_last()) * 10 + digit_value(s.last())
    }
}

/// `FromStr` of an unsigned integer type whose maximum is `max`: an optional
/// `'+'`, then one or more ASCII digits, with a value that fits.
pub open spec fn parse_unsigned(s: Seq<char>, max: nat) -> Option<nat> {
    let d = if s.len() > 0 && s[0] == '+' {
        s.drop_first()
    } else {
        s
    };
    if d.len() == 0 || !all_digits(d) || dec_value(d) > max {
        None
    } else {
        Some(dec_value(d))
    }
}

/// `FromStr` of a signed integer type ranging over `-min_abs ..= max`.
pub open spec fn parse_signed(s: Seq<char>, min_abs: nat, max: nat) -> Option<int> {
    if s.len() > 0 && s[0] == '-' {
        let d = s.drop_first();
        if d.len() == 0 || !all_digits(d) || dec_value(d) > min_abs {
            None
        } else {
            Some(-(dec_value(d) as int))
        }
    } else {
        match parse_unsigned(s, max) {
            Some(n) => Some(n as int),
            None => None,
        }
    }
}

pub proof fn lemma_dec_value_prefix(s: Seq<char>, i: int, j: int)
    requires
        0 <= i <= j <= s.len(),
        all_digits(s),
    ensures
        dec_value(s.take(i)) <= dec_value(s.take(j)),
    decreases j - i,
{
    if i < j {
        lemma_dec_value_prefix(s, i, j - 1);
        assert(s.take(j).drop_last() == s.take(j - 1));
        assert(is_digit(s[j - 1]));
    }
}

/// Parses the digits `v[start..]` as a decimal number no larger than `max`.
fn parse_digits(v: &Vec<char>, start: usize, max: u64) -> (r: Option<u64>)
    requires
        start <= v.len(),
    ensures
        ({
            let d = v@.skip(start as int);
            if d.len() == 0 || !all_digits(d) || dec_value(d) > max {
                r is None
            } else {
                r == Some(dec_value(d) as u64)
            }
        }),
{
    let ghost d = v@.skip(start as int);
    if start == v.len() {
        return None;
    }
    let mut value: u64 = 0;
    let mut i = start;
    while i < v.len()
        invariant
            start <= i <= v.len(),
            d == v@.skip(start as int),
            all_digits(d.take(i - start)),
            value == dec_value(d.take(i - start)),
            value <= max,
        decreases v.len() - i,
    {
        let c = v[i];
        if !char_is_digit(c) {
            assert(d[i - start] == c);
            return None;
        }
        let next: u128 = (value as u128) * 10 + ((c as u32 - '0' as u32) as u128);
        proof {
            assert(d.take(i - start + 1).drop_last() == d.take(i - start));
            assert(d.take(i - start + 1).last() == c);
            assert(all_digits(d.take(i - start + 1)));
        }
        if next > max as u128 {
            proof {
                if all_digits(d) {
                    lemma_dec_value_prefix(d, i - start + 1, d.len() as int);
                    assert(d.take(d.len() as int) == d);
                }
            }
            return None;
        }
        value = next as u64;
        i += 1;
    }
    assert(d.take(d.len() as int) == d);
    Some(value)
}

/// `<u64 as FromStr>::from_str` restricted to values up to `max`; with `max`
/// the maximum of an unsigned type this is that type's `from_str`.
pub fn parse_unsigned_exec(v: &Vec<char>, max: u64) -> (r: Option<u64>)
    ensures
        match parse_unsigned(v@, max as nat) {
            Some(n) => r == Some(n as u64),
            None => r is None,
        },
{
    if v.len() > 0 && v[0] == '+' {
        proof {
            assert(v@.drop_first() == v@.skip(1));
        }
        parse_digits(v, 1, max)
    } else {
        proof {
            assert(v@ == v@.skip(0));
        }
        parse_digits(v, 0, max)
    }
}

/// `<i32 as FromStr>::from_str`
pub fn parse_i32_exec(v: &Vec<char>) -> (r: Option<i32>)
    ensures
        match parse_signed(v@, 0x8000_0000, 0x7fff_ffff) {
            Some(n) => r == Some(n as i32),
            None => r is None,
        },
{
    if v.len() > 0 && v[0] == '-' {
        proof {
            assert(v@.drop_first() == v@.skip(1));
        }
        match parse_digits(v, 1, 0x8000_0000) {
            Some(n) => Some((0 - (n as i64)) as i32),
            None => None,
        }
    } else {
        match parse_unsigned_exec(v, 0x7fff_ffff) {
            Some(n) => Some(n as i32),
            None => None,
        }
    }
}

pub open spec fn digit_char(n: nat) -> char {
    (n + '0' as u32) as char
}

/// Decimal representation without leading zeros (`u64::to_string`).
pub open spec fn dec_string(n: nat) -> Seq<char>
    decreases n,
{
    if n < 10 {
        seq![digit_char(n)]
    } else {
        dec_string(n / 10).push(digit_char(n % 10))
    }
}

/// Appends the decimal representation of `n`.
pub fn push_decimal(v: &mut Vec<char>, n: u64)
    ensures
        final(v)@ == old(v)@ + dec_string(n as nat),
    decreases n,
{
    if n >= 10 {
        push_decimal(v, n / 10);
    }
    let d = (n % 10) as u8;
    v.push(('0' as u8 + d) as char);
    proof {
        if n >= 10 {
            assert(old(v)@ + dec_string(n as nat) == old(v)@ + dec_string((n / 10) as nat) + seq![
                digit_char((n % 10) as nat),
            ]);
        } else {
            assert(dec_string(n as nat) == seq![digit_char(n as nat)]);
        }
    }
}

/// Appends the decimal representation of `n`, padded with zeros to at least
/// two digits (`format!("{:02}", n)`).
pub fn push_decimal_2(v: &mut Vec<char>, n: u64)
    ensures
        final(v)@ == old(v)@ + (if n < 10 {
            seq!['0'] + dec_string(n as nat)
        } else {
            dec_string(n as nat)
        }),
{
    if n < 10 {
        v.push('0');
    }
    push_decimal(v, n);
    proof {
        if n < 10 {
            assert(old(v)@.push('0') + dec_string(n as nat) == old(v)@ + (seq!['0'] + dec_string(
                n as nat,
            )));
        }
    }
}

// ---------------------------------------------------------------------------
// Unicode case mapping
// ---------------------------------------------------------------------------

/// What `str::to_lowercase` returns for a text (full Unicode lowercase
/// mapping).
pub uninterp spec fn lowercase(s: Seq<char>) -> Seq<char>;

/// What `char::to_uppercase` yields for a character (full Unicode uppercase
/// mapping; one to three characters).
pub uninterp spec fn uppercase(c: char) -> Seq<char>;

/// Calls `str::to_lowercase`. The contract names the result; the Unicode
/// case tables that decide it are not stated.
#[verifier::external_body]
pub fn to_lowercase(s: &str) -> (r: String)
    ensures
        r@ == lowercase(s@),
{
    s.to_lowercase()
}

/// Calls `char::to_uppercase` and collects what it yields. The contract
/// names the result; the Unicode case tables that decide it are not stated.
#[verifier::external_body]
pub fn char_to_uppercase(c: char) -> (r: String)
    ensures
        r@ == uppercase(c),
{
    String::from_iter(c.to_uppercase())
}

} // verus!
