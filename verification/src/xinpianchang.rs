//! Xinpianchang article links and the resolver's callback.
use vstd::prelude::*;
use crate::links::{url_parse, UrlParts, UrlView};
use crate::text::{
    all_digits, chars_of, char_is_control, char_is_digit, ends_with, ends_with_str, is_control,
    is_digit, lower_ascii_seq, lower_ascii_vec, parse_unsigned, parse_unsigned_exec, push_str,
    seq_eq, starts_with, starts_with_str, str_eq, string_of, trim, trim_end_char,
    trim_end_char_vec, trim_vec,
};

verus! {

/// A media stream that the resolver page exposed.
#[derive(Debug, Clone)]
pub struct ResolvedMedia {
    pub url: String,
    pub filename: String,
    pub expected_bytes: u64,
    pub article_id: String,
}

pub struct ResolvedMediaView {
    pub url: Seq<char>,
    pub filename: Seq<char>,
    pub expected_bytes: u64,
    pub article_id: Seq<char>,
}

impl PartialEq for ResolvedMedia {
    fn eq(&self, other: &Self) -> (r: bool) {
        self.url == other.url && self.filename == other.filename && self.expected_bytes
            == other.expected_bytes && self.article_id == other.article_id
    }
}

impl vstd::std_specs::cmp::PartialEqSpecImpl for ResolvedMedia {
    open spec fn obeys_eq_spec() -> bool {
        true
    }

    open spec fn eq_spec(&self, other: &Self) -> bool {
        self.url@ == other.url@ && self.filename@ == other.filename@ && self.expected_bytes
            == other.expected_bytes && self.article_id@ == other.article_id@
    }
}

impl Eq for ResolvedMedia {

}

impl View for ResolvedMedia {
    type V = ResolvedMediaView;

    open spec fn view(&self) -> ResolvedMediaView {
        ResolvedMediaView {
            url: self.url@,
            filename: self.filename@,
            expected_bytes: self.expected_bytes,
            article_id: self.article_id@,
        }
    }
}

/// The scheme that the resolver page reports through.
pub open spec fn resolver_scheme() -> Seq<char> {
    "cobalt-xpc"@
}

// ---------------------------------------------------------------------------
// Article links
// ---------------------------------------------------------------------------

/// The non-empty segments of a path, in order.
pub open spec fn nonempty_segments(segs: Seq<Seq<char>>) -> Seq<Seq<char>>
    decreases segs.len(),
{
    if segs.len() == 0 {
        Seq::empty()
    } else if segs.last().len() > 0 {
        nonempty_segments(segs.drop_last()).push(segs.last())
    } else {
        nonempty_segments(segs.drop_last())
    }
}

/// An article path is a single non-empty segment `a<digits>`.
pub open spec fn article_id_of_segments(segs: Seq<Seq<char>>) -> Option<Seq<char>> {
    let ne = nonempty_segments(segs);
    if ne.len() != 1 {
        None
    } else {
        let c = ne[0];
        if c.len() < 2 || c[0] != 'a' || !all_digits(c.skip(1)) {
            None
        } else {
            Some(c)
        }
    }
}

pub open spec fn article_id_spec(url: Seq<char>) -> Option<Seq<char>> {
    match url_parse(url) {
        Ok(u) => match u.path_segments {
            Some(segs) => article_id_of_segments(segs),
            None => None,
        },
        Err(_) => None,
    }
}

fn nonempty_segments_exec(segs: &Vec<String>) -> (r: Vec<Vec<char>>)
    ensures
        r.deep_view() == nonempty_segments(segs.deep_view()),
{
    let mut r: Vec<Vec<char>> = Vec::new();
    let mut i: usize = 0;
    while i < segs.len()
        invariant
            i <= segs.len(),
            r.deep_view() == nonempty_segments(segs.deep_view().take(i as int)),
        decreases segs.len() - i,
    {
        let c = chars_of(segs[i].as_str());
        let ghost before = r.deep_view();
        proof {
            crate::text::lemma_deep_view_chars(&c);
            assert(segs.deep_view().take(i + 1).drop_last() == segs.deep_view().take(i as int));
            assert(segs.deep_view().take(i + 1).last() == c@);
        }
        if c.len() > 0 {
            r.push(c);
            proof {
                assert(r.deep_view() =~= before.push(c@));
            }
        }
        i += 1;
    }
    assert(segs.deep_view().take(segs.len() as int) == segs.deep_view());
    r
}

fn article_id_of_parts(u: &UrlParts) -> (r: Option<String>)
    ensures
        match u@.path_segments {
            Some(segs) => match article_id_of_segments(segs) {
                Some(id) => r is Some && r->0@ == id,
                None => r is None,
            },
            None => r is None,
        },
{
    match &u.path_segments {
        None => None,
        Some(segs) => {
            let ne = nonempty_segments_exec(segs);
            if ne.len() != 1 {
                return None;
            }
            let c = &ne[0];
            proof {
                crate::text::lemma_deep_view_chars(c);
            }
            if c.len() < 2 || c[0] != 'a' {
                return None;
            }
            let mut i: usize = 1;
            #[verifier::loop_isolation(false)]
            while i < c.len()
                invariant
                    1 <= i <= c.len(),
                    forall|k: int| 1 <= k < i ==> is_digit(#[trigger] c@[k]),
                decreases c.len() - i,
            {
                if !char_is_digit(c[i]) {
                    assert(c@.skip(1)[i - 1] == c@[i as int]);
                    return None;
                }
                i += 1;
            }
            assert forall|k: int| 0 <= k < c@.skip(1).len() implies is_digit(
                #[trigger] c@.skip(1)[k],
            ) by {
                assert(c@.skip(1)[k] == c@[k + 1]);
            }
            Some(string_of(c.as_slice()))
        },
    }
}

/// The article identifier (`a` followed by digits) of an article link.
pub fn article_id(url: &str) -> (r: Option<String>)
    ensures
        match article_id_spec(url@) {
            Some(id) => r is Some && r->0@ == id,
            None => r is None,
        },
{
    match UrlParts::parse(url) {
        Ok(u) => article_id_of_parts(&u),
        Err(_) => None,
    }
}

pub open spec fn is_xinpianchang_host(h: Seq<char>) -> bool {
    let l = lower_ascii_seq(h);
    l == "xinpianchang.com"@ || l == "www.xinpianchang.com"@
}

/// An `http`/`https` link to a Xinpianchang article.
pub open spec fn is_xinpianchang_url_spec(url: Seq<char>) -> bool {
    match url_parse(url) {
        Ok(u) => (u.scheme == "http"@ || u.scheme == "https"@) && match u.host {
            Some(h) => is_xinpianchang_host(h),
            None => false,
        } && article_id_spec(url) is Some,
        Err(_) => false,
    }
}

pub fn is_xinpianchang_url(url: &str) -> (r: bool)
    ensures
        r == is_xinpianchang_url_spec(url@),
{
    let u = match UrlParts::parse(url) {
        Ok(u) => u,
        Err(_) => {
            return false;
        },
    };
    let scheme = chars_of(u.scheme.as_str());
    if !(str_eq(&scheme, "http") || str_eq(&scheme, "https")) {
        return false;
    }
    let host = match &u.host {
        Some(h) => lower_ascii_vec(&chars_of(h.as_str())),
        None => {
            return false;
        },
    };
    if !(str_eq(&host, "xinpianchang.com") || str_eq(&host, "www.xinpianchang.com")) {
        return false;
    }
    article_id_of_parts(&u).is_some()
}

// ---------------------------------------------------------------------------
// File names
// ---------------------------------------------------------------------------

pub open spec fn is_reserved_filename_char(c: char) -> bool {
    c == '/' || c == '\\' || c == ':' || c == '*' || c == '?' || c == '"' || c == '<' || c == '>'
        || c == '|'
}

/// Reserved characters become `'_'`, control characters become `' '`.
pub open spec fn clean_filename_char(c: char) -> char {
    if is_reserved_filename_char(c) {
        '_'
    } else if is_control(c) {
        ' '
    } else {
        c
    }
}

pub open spec fn cleaned_title(title: Seq<char>) -> Seq<char> {
    let mapped = Seq::new(title.len(), |i: int| clean_filename_char(title[i]));
    trim(trim_end_char(trim(mapped), '.'))
}

/// `<stem>.mp4`, where the stem is the cleaned title cut to 120 characters,
/// or `xinpianchang_<article id>` when nothing of the title is left.
pub open spec fn safe_filename_spec(title: Seq<char>, article_id: Seq<char>) -> Seq<char> {
    let cleaned = cleaned_title(title);
    let stem = if cleaned.len() == 0 {
        "xinpianchang_"@ + article_id
    } else if cleaned.len() > 120 {
        cleaned.take(120)
    } else {
        cleaned
    };
    stem + ".mp4"@
}

pub fn safe_filename(title: &str, article_id: &str) -> (r: String)
    ensures
        r@ == safe_filename_spec(title@, article_id@),
{
    let t = chars_of(title);
    let mut mapped: Vec<char> = Vec::new();
    let mut i: usize = 0;
    while i < t.len()
        invariant
            i <= t.len(),
            mapped@ == Seq::new(i as nat, |k: int| clean_filename_char(t@[k])),
        decreases t.len() - i,
    {
        let c = t[i];
        let d = if c == '/' || c == '\\' || c == ':' || c == '*' || c == '?' || c == '"' || c
            == '<' || c == '>' || c == '|' {
            '_'
        } else if char_is_control(c) {
            ' '
        } else {
            c
        };
        mapped.push(d);
        i += 1;
        assert(mapped@ =~= Seq::new(i as nat, |k: int| clean_filename_char(t@[k])));
    }
    let a = trim_vec(&mapped);
    let b = trim_end_char_vec(&a, '.');
    let cleaned = trim_vec(&b);
    let mut stem: Vec<char> = if cleaned.len() == 0 {
        let mut s = chars_of("xinpianchang_");
        push_str(&mut s, article_id);
        s
    } else if cleaned.len() > 120 {
        crate::text::slice_of(&cleaned, 0, 120)
    } else {
        cleaned
    };
    push_str(&mut stem, ".mp4");
    string_of(stem.as_slice())
}

// ---------------------------------------------------------------------------
// Resolver callback
// ---------------------------------------------------------------------------

/// The value of the last pair named `key` (a map built from the pairs keeps
/// the last one).
pub open spec fn query_value(pairs: Seq<(Seq<char>, Seq<char>)>, key: Seq<char>) -> Option<
    Seq<char>,
>
    decreases pairs.len(),
{
    if pairs.len() == 0 {
        None
    } else if pairs.last().0 == key {
        Some(pairs.last().1)
    } else {
        query_value(pairs.drop_last(), key)
    }
}

fn query_value_exec(pairs: &Vec<(String, String)>, key: &str) -> (r: Option<String>)
    ensures
        match query_value(pairs.deep_view(), key@) {
            Some(v) => r is Some && r->0@ == v,
            None => r is None,
        },
{
    let k = chars_of(key);
    let mut i = pairs.len();
    assert(pairs.deep_view().take(pairs.len() as int) == pairs.deep_view());
    while i > 0
        invariant
            i <= pairs.len(),
            k@ == key@,
            query_value(pairs.deep_view().take(i as int), key@) == query_value(
                pairs.deep_view(),
                key@,
            ),
        decreases i,
    {
        let name = chars_of(pairs[i - 1].0.as_str());
        proof {
            let t = pairs.deep_view().take(i as int);
            assert(t.drop_last() == pairs.deep_view().take(i - 1));
            assert(t.last() == pairs.deep_view()[i - 1]);
            assert(pairs.deep_view()[i - 1] == (pairs@[i - 1].0@, pairs@[i - 1].1@));
        }
        if seq_eq(&name, &k) {
            return Some(pairs[i - 1].1.clone());
        }
        i -= 1;
    }
    assert(pairs.deep_view().take(0) =~= Seq::<(Seq<char>, Seq<char>)>::empty());
    None
}

pub open spec fn is_xpccdn_host(h: Seq<char>) -> bool {
    h == "xpccdn.com"@ || ends_with(h, ".xpccdn.com"@)
}

/// The lower-cased host of a link that parses and has one.
pub open spec fn lower_host_of(url: Seq<char>) -> Option<Seq<char>> {
    match url_parse(url) {
        Ok(u) => match u.host {
            Some(h) => Some(lower_ascii_seq(h)),
            None => None,
        },
        Err(_) => None,
    }
}

/// What the resolver's callback link reports: a media stream on the
/// Xinpianchang CDN, or an error text.
pub open spec fn parse_callback_spec(u: UrlView) -> Result<ResolvedMediaView, Seq<char>> {
    let q = u.query_pairs;
    if u.scheme != resolver_scheme() {
        Err("Unexpected Xinpianchang resolver callback"@)
    } else if u.host == Some("error"@) {
        match query_value(q, "message"@) {
            Some(m) => Err(m),
            None => Err("Xinpianchang did not expose a downloadable video"@),
        }
    } else if u.host == Some("resolved"@) {
        match query_value(q, "url"@) {
            Some(media) => if !starts_with(media, "https://"@) {
                Err("Xinpianchang returned an invalid media URL"@)
            } else {
                match lower_host_of(media) {
                    None => Err("Xinpianchang returned an invalid media URL"@),
                    Some(h) => if !is_xpccdn_host(h) {
                        Err("Xinpianchang returned an unexpected media host"@)
                    } else {
                        let article_id = match query_value(q, "articleId"@) {
                            Some(a) => if a.len() > 0 {
                                a
                            } else {
                                "video"@
                            },
                            None => "video"@,
                        };
                        let title = match query_value(q, "title"@) {
                            Some(t) => t,
                            None => "Xinpianchang video"@,
                        };
                        let expected = match query_value(q, "filesize"@) {
                            Some(f) => match parse_unsigned(f, 0xffff_ffff_ffff_ffff) {
                                Some(n) => n as u64,
                                None => 0,
                            },
                            None => 0,
                        };
                        Ok(
                            ResolvedMediaView {
                                url: media,
                                filename: safe_filename_spec(title, article_id),
                                expected_bytes: expected,
                                article_id,
                            },
                        )
                    },
                }
            },
            None => Err("Xinpianchang returned an invalid media URL"@),
        }
    } else {
        Err("Unexpected Xinpianchang resolver callback"@)
    }
}

fn err_text(s: &str) -> (r: Result<ResolvedMedia, String>)
    ensures
        r is Err && r->Err_0@ == s@,
{
    Err(s.to_string())
}

pub fn parse_callback_url(url: &UrlParts) -> (r: Result<ResolvedMedia, String>)
    ensures
        match parse_callback_spec(url@) {
            Ok(m) => r is Ok && r->Ok_0@ == m,
            Err(e) => r is Err && r->Err_0@ == e,
        },
{
    let scheme = chars_of(url.scheme.as_str());
    if !str_eq(&scheme, "cobalt-xpc") {
        return err_text("Unexpected Xinpianchang resolver callback");
    }
    let host = match &url.host {
        Some(h) => chars_of(h.as_str()),
        None => {
            return err_text("Unexpected Xinpianchang resolver callback");
        },
    };
    let q = &url.query_pairs;
    if str_eq(&host, "error") {
        return match query_value_exec(q, "message") {
            Some(m) => Err(m),
            None => err_text("Xinpianchang did not expose a downloadable video"),
        };
    }
    if !str_eq(&host, "resolved") {
        return err_text("Unexpected Xinpianchang resolver callback");
    }
    let media = match query_value_exec(q, "url") {
        Some(m) => m,
        None => {
            return err_text("Xinpianchang returned an invalid media URL");
        },
    };
    let media_chars = chars_of(media.as_str());
    if !starts_with_str(&media_chars, "https://") {
        return err_text("Xinpianchang returned an invalid media URL");
    }
    let media_host = match UrlParts::parse(media.as_str()) {
        Ok(parts) => match parts.host {
            Some(h) => lower_ascii_vec(&chars_of(h.as_str())),
            None => {
                return err_text("Xinpianchang returned an invalid media URL");
            },
        },
        Err(_) => {
            return err_text("Xinpianchang returned an invalid media URL");
        },
    };
    if !str_eq(&media_host, "xpccdn.com") && !ends_with_str(&media_host, ".xpccdn.com") {
        return err_text("Xinpianchang returned an unexpected media host");
    }
    let article_id = match query_value_exec(q, "articleId") {
        Some(a) => if a.as_str().unicode_len() > 0 {
            a
        } else {
            "video".to_string()
        },
        None => "video".to_string(),
    };
    let title = match query_value_exec(q, "title") {
        Some(t) => t,
        None => "Xinpianchang video".to_string(),
    };
    let expected_bytes = match query_value_exec(q, "filesize") {
        Some(f) => match parse_unsigned_exec(&chars_of(f.as_str()), 0xffff_ffff_ffff_ffff) {
            Some(n) => n,
            None => 0,
        },
        None => 0,
    };
    let filename = safe_filename(title.as_str(), article_id.as_str());
    Ok(ResolvedMedia { url: media, filename, expected_bytes, article_id })
}

/// What the resolver window does with a navigation.
pub enum NavigationDecision {
    /// A callback of the resolver page: hand it over and stay.
    Report,
    /// Follow the navigation.
    Allow,
    /// Stay on the current page.
    Deny,
}

/// Callbacks are reported, `about:` pages are allowed, and otherwise only
/// Xinpianchang's own pages.
pub fn navigation_decision(scheme: &str, host: Option<&str>) -> (r: NavigationDecision)
    ensures
        scheme@ == resolver_scheme() ==> r is Report,
        scheme@ != resolver_scheme() && scheme@ == "about"@ ==> r is Allow,
        scheme@ != resolver_scheme() && scheme@ != "about"@ ==> (r is Allow <==> (match host {
            Some(h) => h@ == "xinpianchang.com"@ || h@ == "www.xinpianchang.com"@,
            None => false,
        })),
        !(r is Report) || scheme@ == resolver_scheme(),
{
    let s = chars_of(scheme);
    if str_eq(&s, "cobalt-xpc") {
        return NavigationDecision::Report;
    }
    if str_eq(&s, "about") {
        return NavigationDecision::Allow;
    }
    match host {
        Some(h) => {
            let hc = chars_of(h);
            if str_eq(&hc, "xinpianchang.com") || str_eq(&hc, "www.xinpianchang.com") {
                NavigationDecision::Allow
            } else {
                NavigationDecision::Deny
            }
        },
        None => NavigationDecision::Deny,
    }
}

/// How the resolver window ended.
pub enum ResolverEnd {
    /// The page navigated to a resolver callback.
    Callback(UrlParts),
    /// The window closed before any callback.
    Closed,
    /// No callback came in time.
    TimedOut,
}

/// The outcome of resolving an article: what the callback says, or why
/// there was none.
pub open spec fn resolution_spec(end: ResolverEnd) -> Result<ResolvedMediaView, Seq<char>> {
    match end {
        ResolverEnd::Callback(u) => parse_callback_spec(u@),
        ResolverEnd::Closed => Err("The Xinpianchang resolver closed before finding a video"@),
        ResolverEnd::TimedOut => Err("Timed out while resolving the Xinpianchang video"@),
    }
}

pub fn finish_resolution(end: &ResolverEnd) -> (r: Result<ResolvedMedia, String>)
    ensures
        match resolution_spec(*end) {
            Ok(m) => r is Ok && r->Ok_0@ == m,
            Err(e) => r is Err && r->Err_0@ == e,
        },
{
    match end {
        ResolverEnd::Callback(u) => parse_callback_url(u),
        ResolverEnd::Closed => err_text("The Xinpianchang resolver closed before finding a video"),
        ResolverEnd::TimedOut => err_text("Timed out while resolving the Xinpianchang video"),
    }
}

/// Only Xinpianchang article links are resolved.
pub fn resolution_precheck(url: &str) -> (r: Result<(), String>)
    ensures
        is_xinpianchang_url_spec(url@) <==> r is Ok,
        r matches Err(e) ==> e@ == "Unsupported Xinpianchang article URL"@,
{
    if is_xinpianchang_url(url) {
        Ok(())
    } else {
        Err("Unsupported Xinpianchang article URL".to_string())
    }
}

// ---------------------------------------------------------------------------
// Laws
// ---------------------------------------------------------------------------

/// No character of `s` is reserved in file names or a control character.
pub open spec fn clean_chars(s: Seq<char>) -> bool {
    forall|i: int| 0 <= i < s.len() ==> !is_reserved_filename_char(#[trigger] s[i]) && !is_control(s[i])
}

proof fn lemma_trim_keeps_clean(s: Seq<char>)
    requires
        clean_chars(s),
    ensures
        clean_chars(trim(s)),
{
    crate::text::lemma_lead_ws_end(s, 0);
    let t = crate::text::trim_start(s);
    assert(clean_chars(t));
    crate::text::lemma_trail_ws_start(t, t.len() as int);
}

/// A saved Xinpianchang file name ends in `.mp4`, and neither a reserved
/// character (`/ \ : * ? " < > |`) nor a control character occurs in it,
/// provided none occurs in the article id.
pub proof fn lemma_safe_filename_is_clean(title: Seq<char>, article_id: Seq<char>)
    requires
        clean_chars(article_id),
    ensures
        ends_with(safe_filename_spec(title, article_id), ".mp4"@),
        clean_chars(safe_filename_spec(title, article_id)),
        cleaned_title(title).len() > 0 ==> safe_filename_spec(title, article_id).len() <= 124,
{
    reveal_strlit(".mp4");
    reveal_strlit("xinpianchang_");
    let mapped = Seq::new(title.len(), |i: int| clean_filename_char(title[i]));
    assert(clean_chars(mapped));
    lemma_trim_keeps_clean(mapped);
    let a = trim(mapped);
    crate::text::lemma_trail_char_start(a, '.', a.len() as int);
    let b = trim_end_char(a, '.');
    assert(clean_chars(b));
    lemma_trim_keeps_clean(b);
    let cleaned = cleaned_title(title);
    let stem = if cleaned.len() == 0 {
        "xinpianchang_"@ + article_id
    } else if cleaned.len() > 120 {
        cleaned.take(120)
    } else {
        cleaned
    };
    assert(clean_chars(stem));
    let f = safe_filename_spec(title, article_id);
    assert(f == stem + ".mp4"@);
    assert(clean_chars(".mp4"@));
    assert(clean_chars(f));
    assert(f.skip(f.len() - 4) =~= ".mp4"@);
}

/// A resolver callback is accepted only with an `https://` media link whose
/// host is Xinpianchang's CDN (`xpccdn.com` or one of its subdomains).
pub proof fn lemma_callback_media_is_on_cdn(u: UrlView)
    ensures
        parse_callback_spec(u) matches Ok(m) ==> starts_with(m.url, "https://"@) && (
        lower_host_of(m.url) matches Some(h) && is_xpccdn_host(h)),
{
}

/// None of `/ \ : * ? " < > |` occurs in `s`.
pub open spec fn free_of_reserved(s: Seq<char>) -> bool {
    forall|i: int|
        0 <= i < s.len() ==> #[trigger] s[i] != '/' && s[i] != '\\' && s[i] != ':' && s[i] != '*'
            && s[i] != '?' && s[i] != '"' && s[i] != '<' && s[i] != '>' && s[i] != '|'
}

proof fn lemma_trim_keeps_free(s: Seq<char>)
    requires
        free_of_reserved(s),
    ensures
        free_of_reserved(trim(s)),
{
    crate::text::lemma_lead_ws_end(s, 0);
    let t = crate::text::trim_start(s);
    assert(free_of_reserved(t));
    crate::text::lemma_trail_ws_start(t, t.len() as int);
}

/// Whatever the title holds, none of the characters `/ \ : * ? " < > |`
/// reaches the saved file name (each is replaced by `_`), provided none
/// occurs in the article id.
pub proof fn lemma_safe_filename_has_no_reserved(title: Seq<char>, article_id: Seq<char>)
    requires
        free_of_reserved(article_id),
    ensures
        free_of_reserved(safe_filename_spec(title, article_id)),
{
    reveal_strlit(".mp4");
    reveal_strlit("xinpianchang_");
    let mapped = Seq::new(title.len(), |i: int| clean_filename_char(title[i]));
    assert(free_of_reserved(mapped));
    lemma_trim_keeps_free(mapped);
    let a = trim(mapped);
    crate::text::lemma_trail_char_start(a, '.', a.len() as int);
    let b = trim_end_char(a, '.');
    assert(free_of_reserved(b));
    lemma_trim_keeps_free(b);
    let cleaned = cleaned_title(title);
    let stem = if cleaned.len() == 0 {
        "xinpianchang_"@ + article_id
    } else if cleaned.len() > 120 {
        cleaned.take(120)
    } else {
        cleaned
    };
    assert(free_of_reserved("xinpianchang_"@));
    assert(free_of_reserved(stem));
    assert(free_of_reserved(".mp4"@));
    assert(safe_filename_spec(title, article_id) == stem + ".mp4"@);
}

/// A title made only of letters, digits, spaces inside and the characters
/// `/ \ : * ? " < > |` is saved with each of those characters replaced by
/// `_`, one for one.
pub proof fn lemma_reserved_become_underscores(title: Seq<char>, article_id: Seq<char>)
    requires
        0 < title.len() <= 120,
        title[0] != ' ' && title[title.len() - 1] != ' ',
        forall|i: int|
            0 <= i < title.len() ==> ('a' <= #[trigger] title[i] <= 'z' || 'A' <= title[i] <= 'Z'
                || '0' <= title[i] <= '9' || title[i] == ' ' || title[i] == '/' || title[i] == '\\'
                || title[i] == ':' || title[i] == '*' || title[i] == '?' || title[i] == '"'
                || title[i] == '<' || title[i] == '>' || title[i] == '|'),
    ensures
        safe_filename_spec(title, article_id) == Seq::new(
            title.len(),
            |i: int|
                if title[i] == '/' || title[i] == '\\' || title[i] == ':' || title[i] == '*'
                    || title[i] == '?' || title[i] == '"' || title[i] == '<' || title[i] == '>'
                    || title[i] == '|' {
                    '_'
                } else {
                    title[i]
                },
        ) + ".mp4"@,
{
    let expected = Seq::new(
        title.len(),
        |i: int|
            if title[i] == '/' || title[i] == '\\' || title[i] == ':' || title[i] == '*'
                || title[i] == '?' || title[i] == '"' || title[i] == '<' || title[i] == '>'
                || title[i] == '|' {
                '_'
            } else {
                title[i]
            },
    );
    let mapped = Seq::new(title.len(), |i: int| clean_filename_char(title[i]));
    assert(mapped =~= expected) by {
        assert forall|i: int| 0 <= i < title.len() implies mapped[i] == expected[i] by {
            let c = title[i];
            assert(!is_control(c));
        }
    }
    crate::text::lemma_lead_ws_end(mapped, 0);
    assert(!crate::text::is_ws(mapped[0]));
    assert(crate::text::trim_start(mapped) =~= mapped);
    crate::text::lemma_trail_ws_start(mapped, mapped.len() as int);
    assert(!crate::text::is_ws(mapped[mapped.len() - 1]));
    assert(trim(mapped) =~= mapped);
    crate::text::lemma_trail_char_start(mapped, '.', mapped.len() as int);
    assert(mapped[mapped.len() - 1] != '.');
    assert(trim_end_char(mapped, '.') =~= mapped);
    assert(cleaned_title(title) == mapped);
}

} // verus!
