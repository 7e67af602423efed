//! The state of resource capture and how it changes: what the capture
//! sidecar reports, the captured media, the download descriptors it
//! resolves, and the steps of switching the system proxy on and back off.
use vstd::prelude::*;
use crate::files::{join, join_exec};
use crate::order::{lex_le, lex_le_exec};
use crate::text::{
    chars_of, seq_eq, starts_with, starts_with_str, str_eq, string_of, trim, trim_vec,
};

verus! {

// ---------------------------------------------------------------------------
// Captured media and descriptors
// ---------------------------------------------------------------------------

/// Media metadata that the sidecar captured.
#[derive(Debug, Clone)]
pub struct CapturedResource {
    pub id: String,
    pub title: String,
    pub source: String,
    pub kind: String,
    pub mime_type: String,
    pub size: i64,
    pub extension: String,
    pub captured_at: String,
    pub cover_url: Option<String>,
}

fn copy_opt(o: &Option<String>) -> (r: Option<String>)
    ensures
        r == *o,
{
    match o {
        Some(s) => Some(s.clone()),
        None => None,
    }
}

impl CapturedResource {
    /// A copy with equal fields.
    pub fn duplicate(&self) -> (r: CapturedResource)
        ensures
            r == *self,
    {
        CapturedResource {
            id: self.id.clone(),
            title: self.title.clone(),
            source: self.source.clone(),
            kind: self.kind.clone(),
            mime_type: self.mime_type.clone(),
            size: self.size,
            extension: self.extension.clone(),
            captured_at: self.captured_at.clone(),
            cover_url: copy_opt(&self.cover_url),
        }
    }
}

/// How a captured medium is downloaded.
#[derive(Debug, Clone)]
pub struct DownloadDescriptor {
    pub url: String,
    /// Request headers, one value per name.
    pub headers: Vec<(String, String)>,
    pub filename: String,
    pub kind: String,
    /// The key that decrypts the medium, when it is encrypted.
    pub decode_key: Option<String>,
}

pub struct DescriptorView {
    pub url: Seq<char>,
    pub headers: Seq<(Seq<char>, Seq<char>)>,
    pub filename: Seq<char>,
    pub kind: Seq<char>,
    pub decode_key: Option<Seq<char>>,
}

pub open spec fn text_opt(o: Option<String>) -> Option<Seq<char>> {
    match o {
        Some(s) => Some(s@),
        None => None,
    }
}

pub open spec fn header_views(h: Seq<(String, String)>) -> Seq<(Seq<char>, Seq<char>)> {
    h.map_values(|p: (String, String)| (p.0@, p.1@))
}

impl View for DownloadDescriptor {
    type V = DescriptorView;

    open spec fn view(&self) -> DescriptorView {
        DescriptorView {
            url: self.url@,
            headers: header_views(self.headers@),
            filename: self.filename@,
            kind: self.kind@,
            decode_key: text_opt(self.decode_key),
        }
    }
}

/// What the capture screen shows.
#[derive(Debug, Clone)]
pub struct SnifferViewState {
    pub status: String,
    pub port: u16,
    pub message: Option<String>,
    pub tun_proxy_detected: Option<String>,
    /// Newest first.
    pub captures: Vec<CapturedResource>,
    pub supported_sources: Vec<String>,
    pub certificate_path: Option<String>,
    pub certificate_fingerprint: Option<String>,
    pub certificate_installed: bool,
    pub proxy_active: bool,
    pub wechat_hooks: u32,
    pub wechat_callbacks: u32,
}

/// The bookkeeping of resource capture (the sidecar process itself is
/// held by the application).
pub struct SnifferState {
    pub status: String,
    pub port: u16,
    pub message: Option<String>,
    pub upstream: Option<String>,
    /// One entry per resource id, in the order they were first captured.
    pub captures: Vec<CapturedResource>,
    /// One entry per resource id.
    pub descriptors: Vec<(String, DownloadDescriptor)>,
    pub data_dir: String,
    pub certificate_path: Option<String>,
    pub certificate_fingerprint: Option<String>,
    pub certificate_installed: bool,
    pub proxy_active: bool,
    pub wechat_hooks: u32,
    pub wechat_callbacks: u32,
}

pub open spec fn capture_ids(c: Seq<CapturedResource>) -> Seq<Seq<char>> {
    c.map_values(|r: CapturedResource| r.id@)
}

pub open spec fn descriptor_ids(d: Seq<(String, DownloadDescriptor)>) -> Seq<Seq<char>> {
    d.map_values(|e: (String, DownloadDescriptor)| e.0@)
}

impl SnifferState {
    /// No resource id occurs twice, among the captures or among the
    /// descriptors.
    pub open spec fn wf(&self) -> bool {
        capture_ids(self.captures@).no_duplicates() && descriptor_ids(self.descriptors@).no_duplicates()
    }

    /// The state before capture is first started, keeping its files in
    /// `data_dir`.
    pub fn new(data_dir: String) -> (s: SnifferState)
        ensures
            s.wf(),
            s.status@ == "stopped"@,
            s.port == 8899,
            s.message is None,
            s.upstream is None,
            s.captures@.len() == 0,
            s.descriptors@.len() == 0,
            s.data_dir@ == data_dir@,
            s.certificate_path matches Some(p) && p@ == join(data_dir@, "cobalt-capture-ca.pem"@),
            s.certificate_fingerprint is None,
            !s.certificate_installed,
            !s.proxy_active,
            s.wechat_hooks == 0,
            s.wechat_callbacks == 0,
    {
        let cert = join_exec(&chars_of(data_dir.as_str()), &chars_of("cobalt-capture-ca.pem"));
        let s = SnifferState {
            status: "stopped".to_string(),
            port: 8899,
            message: None,
            upstream: None,
            captures: Vec::new(),
            descriptors: Vec::new(),
            data_dir,
            certificate_path: Some(string_of(cert.as_slice())),
            certificate_fingerprint: None,
            certificate_installed: false,
            proxy_active: false,
            wechat_hooks: 0,
            wechat_callbacks: 0,
        };
        proof {
            assert(capture_ids(s.captures@) =~= Seq::<Seq<char>>::empty());
            assert(descriptor_ids(s.descriptors@) =~= Seq::<Seq<char>>::empty());
        }
        s
    }

    pub fn is_running(&self) -> (r: bool)
        ensures
            r == (self.status@ == "running"@),
    {
        str_eq(&chars_of(self.status.as_str()), "running")
    }
}

// ---------------------------------------------------------------------------
// Keyed updates
// ---------------------------------------------------------------------------

/// The position of the capture with resource id `id`.
pub open spec fn capture_index(c: Seq<CapturedResource>, id: Seq<char>) -> Option<int> {
    if exists|i: int| 0 <= i < c.len() && c[i].id@ == id {
        Some(choose|i: int| 0 <= i < c.len() && c[i].id@ == id)
    } else {
        None
    }
}

/// The captures after `r` is recorded: it replaces the capture with the same
/// id, or is added at the end.
pub open spec fn with_capture(c: Seq<CapturedResource>, r: CapturedResource) -> Seq<CapturedResource> {
    match capture_index(c, r.id@) {
        Some(i) => c.update(i, r),
        None => c.push(r),
    }
}

/// The view of a descriptor entry: its resource id and the descriptor.
pub open spec fn entry_views(d: Seq<(String, DownloadDescriptor)>) -> Seq<(Seq<char>, DescriptorView)> {
    d.map_values(|e: (String, DownloadDescriptor)| (e.0@, e.1@))
}

pub open spec fn entry_index(e: Seq<(Seq<char>, DescriptorView)>, id: Seq<char>) -> Option<int> {
    if exists|i: int| 0 <= i < e.len() && e[i].0 == id {
        Some(choose|i: int| 0 <= i < e.len() && e[i].0 == id)
    } else {
        None
    }
}

/// The entries after `(id, v)` is recorded: it replaces the entry of the
/// same id, or is added at the end.
pub open spec fn with_entry(e: Seq<(Seq<char>, DescriptorView)>, id: Seq<char>, v: DescriptorView) -> Seq<
    (Seq<char>, DescriptorView),
> {
    match entry_index(e, id) {
        Some(i) => e.update(i, (id, v)),
        None => e.push((id, v)),
    }
}

/// The entries without the one of resource `id`.
pub open spec fn without_entry(e: Seq<(Seq<char>, DescriptorView)>, id: Seq<char>) -> Seq<
    (Seq<char>, DescriptorView),
> {
    match entry_index(e, id) {
        Some(i) => e.remove(i),
        None => e,
    }
}

fn find_capture(c: &Vec<CapturedResource>, id: &String) -> (r: Option<usize>)
    ensures
        match r {
            Some(i) => i < c.len() && c@[i as int].id@ == id@,
            None => capture_index(c@, id@) is None,
        },
{
    let key = chars_of(id.as_str());
    let mut i: usize = 0;
    while i < c.len()
        invariant
            i <= c.len(),
            key@ == id@,
            forall|k: int| 0 <= k < i ==> c@[k].id@ != id@,
        decreases c.len() - i,
    {
        if seq_eq(&chars_of(c[i].id.as_str()), &key) {
            return Some(i);
        }
        i += 1;
    }
    None
}

fn find_descriptor(d: &Vec<(String, DownloadDescriptor)>, id: &str) -> (r: Option<usize>)
    ensures
        match r {
            Some(i) => i < d.len() && d@[i as int].0@ == id@,
            None => entry_index(entry_views(d@), id@) is None,
        },
{
    let key = chars_of(id);
    let mut i: usize = 0;
    while i < d.len()
        invariant
            i <= d.len(),
            key@ == id@,
            forall|k: int| 0 <= k < i ==> d@[k].0@ != id@,
        decreases d.len() - i,
    {
        if seq_eq(&chars_of(d[i].0.as_str()), &key) {
            return Some(i);
        }
        i += 1;
    }
    None
}

proof fn lemma_unique_index_capture(c: Seq<CapturedResource>, i: int)
    requires
        capture_ids(c).no_duplicates(),
        0 <= i < c.len(),
    ensures
        capture_index(c, c[i].id@) == Some(i),
{
    let j = choose|j: int| 0 <= j < c.len() && c[j].id@ == c[i].id@;
    assert(capture_ids(c)[i] == capture_ids(c)[j]);
}

proof fn lemma_unique_index_descriptor(d: Seq<(String, DownloadDescriptor)>, i: int)
    requires
        descriptor_ids(d).no_duplicates(),
        0 <= i < d.len(),
    ensures
        entry_index(entry_views(d), d[i].0@) == Some(i),
{
    let e = entry_views(d);
    assert(e[i].0 == d[i].0@);
    let j = choose|j: int| 0 <= j < e.len() && e[j].0 == d[i].0@;
    assert(descriptor_ids(d)[i] == descriptor_ids(d)[j]);
}

// ---------------------------------------------------------------------------
// Sidecar messages
// ---------------------------------------------------------------------------

/// The `data` of a `ready` or `status` message; each field is present when
/// the message holds it with the expected JSON type.
pub struct StatusReport {
    pub running: Option<bool>,
    pub certificate_path: Option<String>,
    pub certificate_fingerprint: Option<String>,
    pub wechat_hooks: Option<u64>,
    pub wechat_callbacks: Option<u64>,
    pub message: Option<String>,
}

/// The `data` of a successful answer to a `resolve_download` command.
pub struct ResolvedDownload {
    pub url: Option<String>,
    /// Each header name with the first of its values, when that is a
    /// string.
    pub headers: Vec<(String, Option<String>)>,
    pub filename: Option<String>,
    pub kind: Option<String>,
    pub decode_key: Option<String>,
}

/// A message of the capture sidecar.
pub enum SidecarEvent {
    /// `ready` or `status`, with its data when it has one.
    Status(Option<StatusReport>),
    /// `resource`, with the captured resource when its data is one.
    Resource(Option<CapturedResource>),
    /// `response` to the command `id`, `ok` when it succeeded.
    Response { id: Option<String>, ok: bool, data: Option<ResolvedDownload> },
    /// `error`, with its text.
    Error(Option<String>),
    /// Any other message.
    Other,
}

pub open spec fn or_keep<T>(new: Option<T>, old: Option<T>) -> Option<T> {
    match new {
        Some(v) => Some(v),
        None => old,
    }
}

pub open spec fn counter_after(new: Option<u64>, old: u32) -> u32 {
    match new {
        Some(c) => c as u32,
        None => old,
    }
}

/// The headers that have a string value.
pub open spec fn string_headers(h: Seq<(String, Option<String>)>) -> Seq<(Seq<char>, Seq<char>)>
    decreases h.len(),
{
    if h.len() == 0 {
        Seq::empty()
    } else {
        let rest = string_headers(h.drop_last());
        match h.last().1 {
            Some(v) => rest.push((h.last().0@, v@)),
            None => rest,
        }
    }
}

/// The descriptor that a resolved download with this url describes: its
/// string headers, `captured-media.mp4` and `video` when no file name or
/// kind is given, and the decoding key when it is not empty.
pub open spec fn resolved_view(d: ResolvedDownload, url: Seq<char>) -> DescriptorView {
    DescriptorView {
        url: url,
        headers: string_headers(d.headers@),
        filename: match text_opt(d.filename) {
            Some(f) => f,
            None => "captured-media.mp4"@,
        },
        kind: match text_opt(d.kind) {
            Some(k) => k,
            None => "video"@,
        },
        decode_key: match text_opt(d.decode_key) {
            Some(k) => if k.len() > 0 {
                Some(k)
            } else {
                None
            },
            None => None,
        },
    }
}

// ---------------------------------------------------------------------------
// Applying sidecar messages
// ---------------------------------------------------------------------------

/// Everything but the captured media, the descriptors, the status, the
/// message, the certificate and the counters is left as it was.
pub open spec fn keeps_setup(o: SnifferState, n: SnifferState) -> bool {
    &&& n.port == o.port
    &&& n.upstream == o.upstream
    &&& n.data_dir == o.data_dir
    &&& n.proxy_active == o.proxy_active
}

pub open spec fn keeps_certificate(o: SnifferState, n: SnifferState) -> bool {
    &&& n.certificate_path == o.certificate_path
    &&& n.certificate_fingerprint == o.certificate_fingerprint
    &&& n.certificate_installed == o.certificate_installed
}

/// The resource id that a `response` message answers for, when it answers a
/// `resolve:` command.
pub open spec fn resolved_resource_id(id: Option<String>) -> Option<Seq<char>> {
    match id {
        Some(i) => if starts_with(i@, "resolve:"@) {
            Some(i@.skip(8))
        } else {
            None
        },
        None => None,
    }
}

/// How a sidecar message changes the state (`o` before, `n` after). The
/// trust of the certificate is then looked up by the caller when the message
/// was a status report (see [`SnifferState::apply_event`]).
pub open spec fn event_applied(o: SnifferState, n: SnifferState, ev: SidecarEvent) -> bool {
    match ev {
        SidecarEvent::Status(Some(d)) => {
            &&& keeps_setup(o, n)
            &&& n.captures == o.captures
            &&& n.descriptors == o.descriptors
            &&& n.status@ == (if d.running == Some(true) {
                "running"@
            } else {
                o.status@
            })
            &&& text_opt(n.certificate_path) == or_keep(
                text_opt(d.certificate_path),
                text_opt(o.certificate_path),
            )
            &&& text_opt(n.certificate_fingerprint) == or_keep(
                text_opt(d.certificate_fingerprint),
                text_opt(o.certificate_fingerprint),
            )
            &&& !n.certificate_installed
            &&& n.wechat_hooks == counter_after(d.wechat_hooks, o.wechat_hooks)
            &&& n.wechat_callbacks == counter_after(d.wechat_callbacks, o.wechat_callbacks)
            &&& text_opt(n.message) == or_keep(text_opt(d.message), text_opt(o.message))
        },
        SidecarEvent::Resource(Some(r)) => {
            &&& keeps_setup(o, n)
            &&& keeps_certificate(o, n)
            &&& n.status == o.status
            &&& n.descriptors == o.descriptors
            &&& n.wechat_hooks == o.wechat_hooks
            &&& n.captures@ == with_capture(o.captures@, r)
            &&& n.wechat_callbacks == o.wechat_callbacks + 1
            &&& text_opt(n.message) == Some("WeChat Channels media metadata captured."@)
        },
        SidecarEvent::Response { id, ok, data } => {
            let target = resolved_resource_id(id);
            if target is Some && ok && data is Some && data->0.url is Some {
                &&& keeps_setup(o, n)
                &&& keeps_certificate(o, n)
                &&& n.status == o.status
                &&& n.message == o.message
                &&& n.captures == o.captures
                &&& n.wechat_hooks == o.wechat_hooks
                &&& n.wechat_callbacks == o.wechat_callbacks
                &&& entry_views(n.descriptors@) == with_entry(
                    entry_views(o.descriptors@),
                    target->0,
                    resolved_view(data->0, data->0.url->0@),
                )
            } else {
                n == o
            }
        },
        SidecarEvent::Error(m) => {
            &&& keeps_setup(o, n)
            &&& keeps_certificate(o, n)
            &&& n.captures == o.captures
            &&& n.descriptors == o.descriptors
            &&& n.wechat_hooks == o.wechat_hooks
            &&& n.wechat_callbacks == o.wechat_callbacks
            &&& n.status@ == "error"@
            &&& text_opt(n.message) == text_opt(m)
        },
        _ => n == o,
    }
}

fn string_headers_exec(h: &Vec<(String, Option<String>)>) -> (r: Vec<(String, String)>)
    ensures
        header_views(r@) == string_headers(h@),
{
    let mut r: Vec<(String, String)> = Vec::new();
    let mut i: usize = 0;
    while i < h.len()
        invariant
            i <= h.len(),
            header_views(r@) == string_headers(h@.take(i as int)),
        decreases h.len() - i,
    {
        proof {
            assert(h@.take(i + 1).drop_last() =~= h@.take(i as int));
            assert(h@.take(i + 1).last() == h@[i as int]);
        }
        match &h[i].1 {
            Some(v) => {
                let ghost before = r@;
                r.push((h[i].0.clone(), v.clone()));
                proof {
                    assert(header_views(r@) =~= header_views(before).push((h@[i as int].0@, v@)));
                }
            },
            None => {},
        }
        i += 1;
    }
    proof {
        assert(h@.take(h.len() as int) =~= h@);
    }
    r
}

fn descriptor_from(d: &ResolvedDownload, url: &String) -> (r: DownloadDescriptor)
    ensures
        r@ == resolved_view(*d, url@),
{
    let filename = match &d.filename {
        Some(f) => f.clone(),
        None => "captured-media.mp4".to_string(),
    };
    let kind = match &d.kind {
        Some(k) => k.clone(),
        None => "video".to_string(),
    };
    let decode_key = match &d.decode_key {
        Some(k) => if chars_of(k.as_str()).len() > 0 {
            Some(k.clone())
        } else {
            None
        },
        None => None,
    };
    DownloadDescriptor {
        url: url.clone(),
        headers: string_headers_exec(&d.headers),
        filename,
        kind,
        decode_key,
    }
}

impl SnifferState {
    /// Records a captured resource under its id.
    pub fn record_capture(&mut self, r: CapturedResource)
        requires
            old(self).wf(),
        ensures
            final(self).wf(),
            final(self).captures@ == with_capture(old(self).captures@, r),
            final(self).descriptors == old(self).descriptors,
            final(self).status == old(self).status,
            final(self).message == old(self).message,
            keeps_setup(*old(self), *final(self)),
            keeps_certificate(*old(self), *final(self)),
            final(self).wechat_hooks == old(self).wechat_hooks,
            final(self).wechat_callbacks == old(self).wechat_callbacks,
    {
        let ghost c0 = self.captures@;
        match find_capture(&self.captures, &r.id) {
            Some(i) => {
                proof {
                    lemma_unique_index_capture(c0, i as int);
                }
                self.captures.set(i, r);
                proof {
                    assert(capture_ids(self.captures@) =~= capture_ids(c0));
                }
            },
            None => {
                let ghost rid = r.id@;
                self.captures.push(r);
                proof {
                    assert(capture_ids(self.captures@) =~= capture_ids(c0).push(rid));
                    assert forall|i: int| 0 <= i < c0.len() implies capture_ids(c0)[i] != rid by {
                        if capture_ids(c0)[i] == rid {
                            assert(c0[i].id@ == rid);
                        }
                    }
                }
            },
        }
    }

    /// Records the descriptor of resource `id`.
    pub fn record_descriptor(&mut self, id: String, desc: DownloadDescriptor)
        requires
            old(self).wf(),
        ensures
            final(self).wf(),
            entry_views(final(self).descriptors@) == with_entry(
                entry_views(old(self).descriptors@),
                id@,
                desc@,
            ),
            final(self).captures == old(self).captures,
            final(self).status == old(self).status,
            final(self).message == old(self).message,
            keeps_setup(*old(self), *final(self)),
            keeps_certificate(*old(self), *final(self)),
            final(self).wechat_hooks == old(self).wechat_hooks,
            final(self).wechat_callbacks == old(self).wechat_callbacks,
    {
        let ghost d0 = self.descriptors@;
        let ghost idv = id@;
        let ghost dv = desc@;
        match find_descriptor(&self.descriptors, id.as_str()) {
            Some(i) => {
                proof {
                    lemma_unique_index_descriptor(d0, i as int);
                }
                self.descriptors.set(i, (id, desc));
                proof {
                    assert(descriptor_ids(self.descriptors@) =~= descriptor_ids(d0));
                    assert(entry_views(self.descriptors@) =~= entry_views(d0).update(
                        i as int,
                        (idv, dv),
                    ));
                }
            },
            None => {
                self.descriptors.push((id, desc));
                proof {
                    assert(descriptor_ids(self.descriptors@) =~= descriptor_ids(d0).push(idv));
                    assert(entry_views(self.descriptors@) =~= entry_views(d0).push((idv, dv)));
                    assert forall|i: int| 0 <= i < d0.len() implies descriptor_ids(d0)[i] != idv by {
                        if descriptor_ids(d0)[i] == idv {
                            assert(entry_views(d0)[i].0 == idv);
                        }
                    }
                }
            },
        }
    }

    /// Applies a message of the sidecar. For a status report it returns the
    /// certificate fingerprint whose trust the caller looks up next and
    /// stores in `certificate_installed`.
    pub fn apply_event(&mut self, ev: SidecarEvent) -> (check: Option<String>)
        requires
            old(self).wf(),
            ev matches SidecarEvent::Resource(Some(_)) ==> old(self).wechat_callbacks < u32::MAX,
        ensures
            final(self).wf(),
            event_applied(*old(self), *final(self), ev),
            ev matches SidecarEvent::Status(Some(_)) ==> text_opt(check) == text_opt(
                final(self).certificate_fingerprint,
            ),
            !(ev matches SidecarEvent::Status(Some(_))) ==> check is None,
    {
        match ev {
            SidecarEvent::Status(Some(d)) => {
                if d.running == Some(true) {
                    self.status = "running".to_string();
                }
                if let Some(p) = d.certificate_path {
                    self.certificate_path = Some(p);
                }
                if let Some(f) = d.certificate_fingerprint {
                    self.certificate_fingerprint = Some(f);
                }
                self.certificate_installed = false;
                if let Some(c) = d.wechat_hooks {
                    self.wechat_hooks = c as u32;
                }
                if let Some(c) = d.wechat_callbacks {
                    self.wechat_callbacks = c as u32;
                }
                if let Some(m) = d.message {
                    self.message = Some(m);
                }
                copy_opt(&self.certificate_fingerprint)
            },
            SidecarEvent::Resource(Some(r)) => {
                self.record_capture(r);
                self.wechat_callbacks = self.wechat_callbacks + 1;
                self.message = Some("WeChat Channels media metadata captured.".to_string());
                None
            },
            SidecarEvent::Response { id, ok, data } => {
                proof {
                    reveal_strlit("resolve:");
                }
                if let Some(i) = id {
                    let iv = chars_of(i.as_str());
                    if ok && starts_with_str(&iv, "resolve:") {
                        if let Some(d) = data {
                            if let Some(u) = &d.url {
                                let rid = string_of(crate::text::slice_of(&iv, 8, iv.len()).as_slice());
                                let desc = descriptor_from(&d, u);
                                self.record_descriptor(rid, desc);
                            }
                        }
                    }
                }
                None
            },
            SidecarEvent::Error(m) => {
                self.status = "error".to_string();
                self.message = m;
                None
            },
            _ => None,
        }
    }
}

// ---------------------------------------------------------------------------
// The view
// ---------------------------------------------------------------------------

/// Newest first: ordered by capture time, descending.
pub open spec fn newest_first(c: Seq<CapturedResource>) -> bool {
    forall|a: int, b: int|
        0 <= a < b < c.len() ==> lex_le(#[trigger] c[b].captured_at@, #[trigger] c[a].captured_at@)
}

/// Where an entry captured at `key` goes among `r` (newest first), looking
/// from position `p` on: after every entry captured no earlier than it.
pub open spec fn newest_insert_pos(r: Seq<CapturedResource>, key: Seq<char>, p: int) -> int
    decreases r.len() - p,
{
    if 0 <= p < r.len() && lex_le(key, r[p].captured_at@) {
        newest_insert_pos(r, key, p + 1)
    } else {
        p
    }
}

/// The captures ordered newest first, entries captured at the same time in
/// the order they came: each in turn goes after every entry already placed
/// that was captured no earlier.
pub open spec fn newest_first_order(c: Seq<CapturedResource>) -> Seq<CapturedResource>
    decreases c.len(),
{
    if c.len() == 0 {
        Seq::empty()
    } else {
        let r = newest_first_order(c.drop_last());
        r.insert(newest_insert_pos(r, c.last().captured_at@, 0), c.last())
    }
}

/// The captured media, newest first (ties keep their order).
pub fn sort_newest_first(c: &Vec<CapturedResource>) -> (r: Vec<CapturedResource>)
    ensures
        r@ == newest_first_order(c@),
        newest_first(r@),
        r@.to_multiset() == c@.to_multiset(),
{
    broadcast use vstd::seq_lib::group_to_multiset_ensures;

    let mut r: Vec<CapturedResource> = Vec::new();
    let mut i: usize = 0;
    while i < c.len()
        invariant
            i <= c.len(),
            r@ == newest_first_order(c@.take(i as int)),
            newest_first(r@),
            r@.to_multiset() == c@.take(i as int).to_multiset(),
        decreases c.len() - i,
    {
        let x = c[i].duplicate();
        let key = chars_of(x.captured_at.as_str());
        let ghost old_r = r@;
        let mut p: usize = 0;
        while p < r.len() && lex_le_exec(&key, &chars_of(r[p].captured_at.as_str()))
            invariant
                p <= r.len(),
                r@ == old_r,
                key@ == x.captured_at@,
                forall|j: int| 0 <= j < p ==> lex_le(x.captured_at@, #[trigger] old_r[j].captured_at@),
                newest_insert_pos(old_r, x.captured_at@, 0) == newest_insert_pos(old_r, x.captured_at@, p as int),
            decreases r.len() - p,
        {
            p += 1;
        }
        proof {
            assert(newest_insert_pos(old_r, x.captured_at@, 0) == p);
            if p < r.len() {
                crate::order::lemma_lex_total_ordering();
                assert(!lex_le(x.captured_at@, old_r[p as int].captured_at@));
                assert((crate::order::lex_le_fn())(old_r[p as int].captured_at@, x.captured_at@) || (crate::order::lex_le_fn())(x.captured_at@, old_r[p as int].captured_at@));
            }
        }
        r.insert(p, x);
        proof {
            let nr = r@;
            assert(nr =~= old_r.insert(p as int, x));
            crate::order::lemma_lex_total_ordering();
            assert forall|a: int, b: int| 0 <= a < b < nr.len() implies lex_le(
                #[trigger] nr[b].captured_at@,
                #[trigger] nr[a].captured_at@,
            ) by {
                if b < p {
                    assert(lex_le(old_r[b].captured_at@, old_r[a].captured_at@));
                } else if a > p {
                    assert(lex_le(old_r[b - 1].captured_at@, old_r[a - 1].captured_at@));
                } else if a == p {
                    if b - 1 > p {
                        assert(lex_le(old_r[b - 1].captured_at@, old_r[p as int].captured_at@));
                        assert((crate::order::lex_le_fn())(old_r[b - 1].captured_at@, old_r[p as int].captured_at@));
                        assert((crate::order::lex_le_fn())(old_r[p as int].captured_at@, x.captured_at@));
                    }
                } else if b == p {
                } else {
                    assert(lex_le(old_r[b - 1].captured_at@, old_r[a].captured_at@));
                }
            }
            assert(c@.take(i + 1) =~= c@.take(i as int).push(x));
            assert(c@.take(i + 1).drop_last() =~= c@.take(i as int));
            assert(nr == newest_first_order(c@.take(i + 1)));
            vstd::seq_lib::to_multiset_build(c@.take(i as int), x);
            vstd::seq_lib::to_multiset_insert(old_r, p as int, x);
        }
        i += 1;
    }
    proof {
        assert(c@.take(c.len() as int) =~= c@);
    }
    r
}

pub open spec fn supported_sources_spec() -> Seq<Seq<char>> {
    seq![
        "WeChat Channels"@,
        "Douyin"@,
        "Bilibili"@,
        "Xiaohongshu"@,
        "Kuaishou"@,
        "QQ Music / KuGou"@,
        "Safari / Chrome Web Browsers"@,
    ]
}

/// `v` is what the capture screen shows of `s`, with `tun` the TUN-mode
/// proxy detected now: the status, port, message, certificate, proxy
/// switch and hook counters of `s`, its captures newest first, and the
/// supported sources.
pub open spec fn shown_by(s: SnifferState, tun: Option<String>, v: SnifferViewState) -> bool {
    &&& v.status == s.status
    &&& v.port == s.port
    &&& v.message == s.message
    &&& v.tun_proxy_detected == tun
    &&& v.captures@ == newest_first_order(s.captures@)
    &&& v.supported_sources.deep_view() == supported_sources_spec()
    &&& v.certificate_path == s.certificate_path
    &&& v.certificate_fingerprint == s.certificate_fingerprint
    &&& v.certificate_installed == s.certificate_installed
    &&& v.proxy_active == s.proxy_active
    &&& v.wechat_hooks == s.wechat_hooks
    &&& v.wechat_callbacks == s.wechat_callbacks
}

/// The two states agree on everything the capture screen shows of them.
pub open spec fn agree_on_shown(a: SnifferState, b: SnifferState) -> bool {
    &&& a.status == b.status
    &&& a.port == b.port
    &&& a.message == b.message
    &&& a.captures@ == b.captures@
    &&& a.certificate_path == b.certificate_path
    &&& a.certificate_fingerprint == b.certificate_fingerprint
    &&& a.certificate_installed == b.certificate_installed
    &&& a.proxy_active == b.proxy_active
    &&& a.wechat_hooks == b.wechat_hooks
    &&& a.wechat_callbacks == b.wechat_callbacks
}

/// The capture screen shows nothing of the download descriptors (media
/// URLs, request headers, decode keys), of the upstream proxy or of the
/// data folder: two states that differ only there are shown alike.
pub proof fn lemma_view_hides_descriptors(
    a: SnifferState,
    b: SnifferState,
    tun: Option<String>,
    va: SnifferViewState,
    vb: SnifferViewState,
)
    requires
        agree_on_shown(a, b),
        shown_by(a, tun, va),
        shown_by(b, tun, vb),
    ensures
        va.status == vb.status,
        va.port == vb.port,
        va.message == vb.message,
        va.tun_proxy_detected == vb.tun_proxy_detected,
        va.captures@ == vb.captures@,
        va.supported_sources.deep_view() == vb.supported_sources.deep_view(),
        va.certificate_path == vb.certificate_path,
        va.certificate_fingerprint == vb.certificate_fingerprint,
        va.certificate_installed == vb.certificate_installed,
        va.proxy_active == vb.proxy_active,
        va.wechat_hooks == vb.wechat_hooks,
        va.wechat_callbacks == vb.wechat_callbacks,
{
}

impl SnifferState {
    /// What the capture screen shows, given the TUN-mode proxy detected now
    /// (if any).
    pub fn view(&self, tun_proxy_detected: Option<String>) -> (v: SnifferViewState)
        ensures
            shown_by(*self, tun_proxy_detected, v),
            newest_first(v.captures@),
            v.captures@.to_multiset() == self.captures@.to_multiset(),
    {
        let mut sources: Vec<String> = Vec::new();
        crate::invocation::push_text(&mut sources, "WeChat Channels");
        crate::invocation::push_text(&mut sources, "Douyin");
        crate::invocation::push_text(&mut sources, "Bilibili");
        crate::invocation::push_text(&mut sources, "Xiaohongshu");
        crate::invocation::push_text(&mut sources, "Kuaishou");
        crate::invocation::push_text(&mut sources, "QQ Music / KuGou");
        crate::invocation::push_text(&mut sources, "Safari / Chrome Web Browsers");
        proof {
            assert(sources.deep_view() =~= supported_sources_spec());
        }
        SnifferViewState {
            status: self.status.clone(),
            port: self.port,
            message: copy_opt(&self.message),
            tun_proxy_detected,
            captures: sort_newest_first(&self.captures),
            supported_sources: sources,
            certificate_path: copy_opt(&self.certificate_path),
            certificate_fingerprint: copy_opt(&self.certificate_fingerprint),
            certificate_installed: self.certificate_installed,
            proxy_active: self.proxy_active,
            wechat_hooks: self.wechat_hooks,
            wechat_callbacks: self.wechat_callbacks,
        }
    }

    /// Removes and returns the descriptor of resource `id`, if there is one.
    pub fn take_descriptor(&mut self, id: &str) -> (r: Option<DownloadDescriptor>)
        requires
            old(self).wf(),
        ensures
            final(self).wf(),
            entry_views(final(self).descriptors@) == without_entry(
                entry_views(old(self).descriptors@),
                id@,
            ),
            match entry_index(entry_views(old(self).descriptors@), id@) {
                Some(i) => r is Some && r->0@ == entry_views(old(self).descriptors@)[i].1,
                None => r is None,
            },
            final(self).captures == old(self).captures,
            final(self).status == old(self).status,
            final(self).message == old(self).message,
            keeps_setup(*old(self), *final(self)),
            keeps_certificate(*old(self), *final(self)),
            final(self).wechat_hooks == old(self).wechat_hooks,
            final(self).wechat_callbacks == old(self).wechat_callbacks,
    {
        let ghost d0 = self.descriptors@;
        match find_descriptor(&self.descriptors, id) {
            Some(i) => {
                proof {
                    lemma_unique_index_descriptor(d0, i as int);
                }
                let (_, d) = self.descriptors.remove(i);
                proof {
                    assert(entry_views(self.descriptors@) =~= entry_views(d0).remove(i as int));
                    assert(descriptor_ids(self.descriptors@) =~= descriptor_ids(d0).remove(i as int));
                    assert forall|a: int, b: int|
                        0 <= a < b < descriptor_ids(self.descriptors@).len() implies descriptor_ids(
                        self.descriptors@,
                    )[a] != descriptor_ids(self.descriptors@)[b] by {
                        let ids = descriptor_ids(d0);
                        let aa = if a < i { a } else { a + 1 };
                        let bb = if b < i { b } else { b + 1 };
                        assert(ids[aa] != ids[bb]);
                    }
                }
                Some(d)
            },
            None => None,
        }
    }

    /// Forgets the captured media and descriptors; returns whether the
    /// running sidecar is told to forget them too.
    pub fn clear_captures(&mut self) -> (tell_sidecar: bool)
        ensures
            final(self).wf(),
            final(self).captures@.len() == 0,
            final(self).descriptors@.len() == 0,
            tell_sidecar == (old(self).status@ == "running"@),
            final(self).status == old(self).status,
            final(self).message == old(self).message,
            keeps_setup(*old(self), *final(self)),
            keeps_certificate(*old(self), *final(self)),
            final(self).wechat_hooks == old(self).wechat_hooks,
            final(self).wechat_callbacks == old(self).wechat_callbacks,
    {
        self.captures = Vec::new();
        self.descriptors = Vec::new();
        proof {
            assert(capture_ids(self.captures@) =~= Seq::<Seq<char>>::empty());
            assert(descriptor_ids(self.descriptors@) =~= Seq::<Seq<char>>::empty());
        }
        self.is_running()
    }

    /// The state once the sidecar was stopped: no status message, no
    /// descriptors (the captured media stay listed).
    pub fn mark_stopped(&mut self)
        requires
            old(self).wf(),
        ensures
            final(self).wf(),
            final(self).status@ == "stopped"@,
            final(self).message is None,
            final(self).descriptors@.len() == 0,
            final(self).captures == old(self).captures,
            keeps_setup(*old(self), *final(self)),
            keeps_certificate(*old(self), *final(self)),
            final(self).wechat_hooks == old(self).wechat_hooks,
            final(self).wechat_callbacks == old(self).wechat_callbacks,
    {
        self.status = "stopped".to_string();
        self.message = None;
        self.descriptors = Vec::new();
        proof {
            assert(descriptor_ids(self.descriptors@) =~= Seq::<Seq<char>>::empty());
        }
    }

    /// The state once the sidecar was launched: starting, with the hint
    /// for the user, and the upstream proxy when one that is not blank is
    /// configured.
    pub fn mark_starting(&mut self, upstream_proxy: Option<String>)
        requires
            old(self).wf(),
        ensures
            final(self).wf(),
            final(self).status@ == "starting"@,
            text_opt(final(self).message)
                == Some("Configure the system proxy, then play media in the target app."@),
            final(self).upstream == match upstream_proxy {
                Some(p) => if trim(p@).len() > 0 {
                    Some(p)
                } else {
                    None
                },
                None => None,
            },
            final(self).captures == old(self).captures,
            final(self).descriptors == old(self).descriptors,
            final(self).port == old(self).port,
            final(self).data_dir == old(self).data_dir,
            final(self).proxy_active == old(self).proxy_active,
            keeps_certificate(*old(self), *final(self)),
            final(self).wechat_hooks == old(self).wechat_hooks,
            final(self).wechat_callbacks == old(self).wechat_callbacks,
    {
        self.status = "starting".to_string();
        self.message = Some("Configure the system proxy, then play media in the target app.".to_string());
        self.upstream = match upstream_proxy {
            Some(p) => if trim_vec(&chars_of(p.as_str())).len() > 0 {
                Some(p)
            } else {
                None
            },
            None => None,
        };
    }
}

// ---------------------------------------------------------------------------
// Laws
// ---------------------------------------------------------------------------

/// Recording a capture keeps one entry per resource id: the recorded
/// resource is then listed, every capture of another id stays listed, and
/// the list grows by at most one entry.
pub proof fn lemma_recorded_capture_is_listed(c: Seq<CapturedResource>, r: CapturedResource)
    requires
        capture_ids(c).no_duplicates(),
    ensures
        capture_ids(with_capture(c, r)).no_duplicates(),
        with_capture(c, r).contains(r),
        with_capture(c, r).len() <= c.len() + 1,
        forall|i: int| 0 <= i < c.len() && c[i].id@ != r.id@ ==> with_capture(c, r).contains(#[trigger] c[i]),
{
    let n = with_capture(c, r);
    match capture_index(c, r.id@) {
        Some(k) => {
            assert(n[k] == r);
            assert(capture_ids(n) =~= capture_ids(c));
            assert forall|i: int| 0 <= i < c.len() && c[i].id@ != r.id@ implies n.contains(
                #[trigger] c[i],
            ) by {
                assert(i != k);
                assert(n[i] == c[i]);
            }
        },
        None => {
            assert(n[c.len() as int] == r);
            assert(capture_ids(n) =~= capture_ids(c).push(r.id@));
            assert forall|i: int| 0 <= i < c.len() implies capture_ids(c)[i] != r.id@ by {
                if capture_ids(c)[i] == r.id@ {
                    assert(c[i].id@ == r.id@);
                }
            }
            assert forall|i: int| 0 <= i < c.len() && c[i].id@ != r.id@ implies n.contains(
                #[trigger] c[i],
            ) by {
                assert(n[i] == c[i]);
            }
        },
    }
}

} // verus!
