//! One download task: the pipeline state machine from prefetch through
//! filename resolution and engine start to completion, with resumable
//! progress and the file-identity guard against URL drift.
//!
//! The async shell around the library performs the network and file work;
//! each of its outcomes is handed to a step method here, which decides the
//! next state and what to do, and yields the event to publish.

use crate::config::DownloadConfig;
use crate::config::default_view;
use crate::config::effective_config;
use crate::config::is_complete;
use crate::config::is_positive;
use crate::config::view_inherit;
use crate::gid::Gid;
use crate::progress::ByteRange;
use crate::progress::bounded_by;
use crate::progress::covered;
use crate::progress::covers_at;
use crate::progress::interval;
use crate::progress::invert_progress;
use crate::progress::is_normalized;
use crate::progress::lemma_covered_iff;
use crate::progress::merge_progress;
use crate::progress::range_set;
use vstd::prelude::*;

verus! {

/// Identity of the remote resource, used to detect URL drift between runs:
/// the `ETag` and `Last-Modified` header values together with the size.
#[derive(Debug)]
pub struct FileId {
    pub etag: Option<String>,
    pub last_modified: Option<String>,
}

#[verifier::ext_equal]
pub struct FileIdView {
    pub etag: Option<Seq<char>>,
    pub last_modified: Option<Seq<char>>,
}

impl View for FileId {
    type V = FileIdView;

    open spec fn view(&self) -> FileIdView {
        FileIdView { etag: self.etag.deep_view(), last_modified: self.last_modified.deep_view() }
    }
}

impl FileId {
    pub fn duplicate(&self) -> (r: FileId)
        ensures
            r@ == self@,
    {
        let r = FileId {
            etag: clone_opt(&self.etag),
            last_modified: clone_opt(&self.last_modified),
        };
        proof {
            assert(r@ =~~= self@);
        }
        r
    }
}

fn clone_opt(s: &Option<String>) -> (r: Option<String>)
    ensures
        r.deep_view() == s.deep_view(),
{
    match s {
        Some(x) => Some(x.clone()),
        None => None,
    }
}

/// What the prefetch discovered about a URL.
#[derive(Debug)]
pub struct UrlInfo {
    pub file_id: FileId,
    pub name: String,
    pub size: u64,
    pub fast_download: bool,
}

#[verifier::ext_equal]
pub struct UrlInfoView {
    pub file_id: FileIdView,
    pub name: Seq<char>,
    pub size: u64,
    pub fast_download: bool,
}

impl View for UrlInfo {
    type V = UrlInfoView;

    open spec fn view(&self) -> UrlInfoView {
        UrlInfoView {
            file_id: self.file_id@,
            name: self.name@,
            size: self.size,
            fast_download: self.fast_download,
        }
    }
}

impl UrlInfo {
    pub fn duplicate(&self) -> (r: UrlInfo)
        ensures
            r@ == self@,
    {
        let r = UrlInfo {
            file_id: self.file_id.duplicate(),
            name: self.name.clone(),
            size: self.size,
            fast_download: self.fast_download,
        };
        proof {
            assert(r@ =~~= self@);
        }
        r
    }
}

fn opt_str_eq(x: &Option<String>, y: &Option<String>) -> (r: bool)
    ensures
        r == (x.deep_view() == y.deep_view()),
{
    match x {
        Some(xs) => match y {
            Some(ys) => {
                let e = xs.eq(ys);
                proof {
                    assert(e == (xs@ == ys@));
                    assert(x.deep_view() == Some(xs@));
                    assert(y.deep_view() == Some(ys@));
                }
                e
            },
            None => false,
        },
        None => y.is_none(),
    }
}

/// Two prefetch results name the same remote content: same header identity
/// and same size.
pub fn same_identity(a: &UrlInfo, b: &UrlInfo) -> (r: bool)
    ensures
        r == (a.file_id@ == b.file_id@ && a.size == b.size),
{
    let etag_eq = opt_str_eq(&a.file_id.etag, &b.file_id.etag);
    let lm_eq = opt_str_eq(&a.file_id.last_modified, &b.file_id.last_modified);
    let r = etag_eq && lm_eq && a.size == b.size;
    proof {
        if etag_eq && lm_eq {
            assert(a.file_id@ =~~= b.file_id@);
        }
    }
    r
}

/// The stored info of an earlier run names different remote content than a
/// new prefetch result: the identity guard must trip.
pub open spec fn drifted(stored: Option<UrlInfo>, new_info: UrlInfoView) -> bool {
    stored matches Some(oi) && !(oi.file_id@ == new_info.file_id && oi.size == new_info.size)
}

/// The states of the task pipeline.
#[derive(Clone, Copy, PartialEq, Eq, Structural, Debug)]
pub enum TaskState {
    Idle,
    Connecting,
    Resolving,
    Opening,
    Downloading,
    Done,
    Failed,
    Aborted,
}

impl TaskState {
    /// A task in one of these states occupies a parallelism slot.
    pub open spec fn is_active(self) -> bool {
        match self {
            TaskState::Connecting => true,
            TaskState::Resolving => true,
            TaskState::Opening => true,
            TaskState::Downloading => true,
            _ => false,
        }
    }
}

/// Events of a running engine, as the task observes them.
#[derive(Debug)]
pub enum EngineEvent {
    Connected,
    PushProgress(usize, ByteRange),
    Retry(String),
    Finished,
    Failed(String),
}

/// The linearized event stream one task publishes.
#[derive(Debug)]
pub enum DownloadEvent {
    GetHttpClientError(String),
    Prefetch(Result<UrlInfo, String>),
    NoSameFile,
    FilePath(Result<String, String>),
    CreatePullerError(String),
    CreatePusherError(String),
    Download(EngineEvent),
}

/// What the engine should be started with. `Multi` carries the remaining
/// work already split off the progress set; `Single` streams sequentially
/// from offset zero.
pub enum EnginePlan {
    Multi {
        download_chunks: Vec<ByteRange>,
        concurrent: usize,
        min_chunk_size: u64,
        retry_gap_ms: u64,
        push_queue_cap: usize,
    },
    Single { retry_gap_ms: u64, push_queue_cap: usize },
}

/// The mutable state of one download task.
#[derive(Debug)]
pub struct DownloadEntryInner {
    pub url: String,
    pub config: DownloadConfig,
    pub info: Option<UrlInfo>,
    pub push_progress: Vec<ByteRange>,
    pub path: Option<String>,
    pub state: TaskState,
}

impl DownloadEntryInner {
    /// Well-formedness: the progress set is normalized, bounded by the
    /// discovered size, empty before any prefetch, and the task-local
    /// configuration keeps its positive fields positive.
    pub open spec fn wf(self) -> bool {
        &&& is_normalized(self.push_progress@)
        &&& (self.info matches Some(i) ==> bounded_by(self.push_progress@, i.size))
        &&& (self.info is None ==> self.push_progress@.len() == 0)
        &&& is_positive(self.config@)
    }

    /// Fields that survive every transition of `self` untouched.
    pub open spec fn same_identity_fields(self, other: DownloadEntryInner) -> bool {
        &&& self.url == other.url
        &&& self.config == other.config
    }

    pub fn new(url: String, config: DownloadConfig) -> (e: DownloadEntryInner)
        requires
            is_positive(config@),
        ensures
            e.wf(),
            e.state == TaskState::Idle,
            e.url == url,
            e.config == config,
            e.info is None,
            e.path is None,
            e.push_progress@.len() == 0,
    {
        DownloadEntryInner {
            url,
            config,
            info: None,
            push_progress: Vec::new(),
            path: None,
            state: TaskState::Idle,
        }
    }

    /// The effective configuration: task-local values first, then the
    /// global configuration, then the defaults.
    pub fn config(&self, global: &DownloadConfig) -> (r: DownloadConfig)
        ensures
            r@ == view_inherit(view_inherit(self.config@, global@), default_view()),
            is_complete(r@),
    {
        effective_config(&self.config, global)
    }

    pub fn is_running(&self) -> (r: bool)
        ensures
            r == self.state.is_active(),
    {
        match self.state {
            TaskState::Connecting => true,
            TaskState::Resolving => true,
            TaskState::Opening => true,
            TaskState::Downloading => true,
            _ => false,
        }
    }

    /// Abort: an active task leaves its slot; everything else, including
    /// progress, path and discovered info, is retained for a later re-run.
    /// Aborting an inactive task changes nothing, so abort is idempotent.
    pub fn abort(&mut self)
        requires
            old(self).wf(),
        ensures
            final(self).wf(),
            final(self).state == (if old(self).state.is_active() {
                TaskState::Aborted
            } else {
                old(self).state
            }),
            final(self).same_identity_fields(*old(self)),
            final(self).info == old(self).info,
            final(self).path == old(self).path,
            final(self).push_progress == old(self).push_progress,
    {
        if self.is_running() {
            self.state = TaskState::Aborted;
        }
    }

    /// Begin (or re-begin) a run: the task enters `Connecting` and hands
    /// back the effective configuration to build the client from.
    /// `url_info`, `path` and `progress` are retained across re-runs.
    pub fn start_run(&mut self, global: &DownloadConfig) -> (cfg: DownloadConfig)
        requires
            old(self).wf(),
            is_positive(global@),
        ensures
            final(self).wf(),
            final(self).state == TaskState::Connecting,
            final(self).same_identity_fields(*old(self)),
            final(self).info == old(self).info,
            final(self).path == old(self).path,
            final(self).push_progress == old(self).push_progress,
            cfg@ == view_inherit(view_inherit(old(self).config@, global@), default_view()),
            is_complete(cfg@),
            is_positive(cfg@),
    {
        self.state = TaskState::Connecting;
        let cfg = effective_config(&self.config, global);
        proof {
            crate::config::lemma_inherit_positive(self.config@, global@);
            crate::config::lemma_inherit_positive(
                view_inherit(self.config@, global@),
                default_view(),
            );
        }
        cfg
    }

    /// The client could not be built: fatal for this run.
    pub fn on_client_error(&mut self, message: String) -> (ev: DownloadEvent)
        requires
            old(self).wf(),
        ensures
            final(self).wf(),
            final(self).state == TaskState::Failed,
            final(self).same_identity_fields(*old(self)),
            final(self).info == old(self).info,
            final(self).path == old(self).path,
            final(self).push_progress == old(self).push_progress,
            ev == DownloadEvent::GetHttpClientError(message),
    {
        self.state = TaskState::Failed;
        DownloadEvent::GetHttpClientError(message)
    }

    /// The prefetch came back. On success the file-identity guard goes
    /// first: when a prior prefetch recorded a different identity, the
    /// task fails with `NoSameFile` and nothing — progress, path, stored
    /// info — is touched, so no byte of the file can be overwritten.
    /// Otherwise the info is stored and the task moves on to resolving.
    pub fn on_prefetch(&mut self, outcome: Result<UrlInfo, String>) -> (ev: DownloadEvent)
        requires
            old(self).wf(),
            old(self).state == TaskState::Connecting,
        ensures
            final(self).wf(),
            final(self).same_identity_fields(*old(self)),
            final(self).path == old(self).path,
            outcome matches Err(m) ==> {
                &&& final(self).state == TaskState::Failed
                &&& final(self).info == old(self).info
                &&& final(self).push_progress == old(self).push_progress
                &&& ev == DownloadEvent::Prefetch(Err::<UrlInfo, String>(m))
            },
            outcome matches Ok(info) ==> (if drifted(old(self).info, info@) {
                &&& final(self).state == TaskState::Failed
                &&& final(self).info == old(self).info
                &&& final(self).push_progress == old(self).push_progress
                &&& ev == DownloadEvent::NoSameFile
            } else {
                &&& final(self).state == TaskState::Resolving
                &&& (final(self).info matches Some(ni) && ni@ == info@)
                &&& final(self).push_progress == old(self).push_progress
                &&& ev == DownloadEvent::Prefetch(Ok::<UrlInfo, String>(info))
            }),
    {
        match outcome {
            Err(m) => {
                self.state = TaskState::Failed;
                DownloadEvent::Prefetch(Err(m))
            },
            Ok(info) => {
                let drift = match &self.info {
                    Some(oi) => !same_identity(oi, &info),
                    None => false,
                };
                if drift {
                    self.state = TaskState::Failed;
                    DownloadEvent::NoSameFile
                } else {
                    let dup = info.duplicate();
                    self.info = Some(dup);
                    self.state = TaskState::Resolving;
                    DownloadEvent::Prefetch(Ok(info))
                }
            },
        }
    }

    /// The destination path is settled. A path resolved on an earlier run
    /// sticks: the stored one is reused and the outcome is ignored.
    /// Otherwise a successful resolution is stored, and a failure is fatal.
    pub fn on_path(&mut self, outcome: Result<String, String>) -> (ev: DownloadEvent)
        requires
            old(self).wf(),
            old(self).state == TaskState::Resolving,
        ensures
            final(self).wf(),
            final(self).same_identity_fields(*old(self)),
            final(self).info == old(self).info,
            final(self).push_progress == old(self).push_progress,
            old(self).path matches Some(p) ==> {
                &&& final(self).state == TaskState::Opening
                &&& final(self).path == old(self).path
                &&& (ev matches DownloadEvent::FilePath(r) && r matches Ok(q) && q@ == p@)
            },
            outcome matches Ok(p) ==> (old(self).path is None ==> {
                &&& final(self).state == TaskState::Opening
                &&& (final(self).path matches Some(sp) && sp@ == p@)
                &&& ev == DownloadEvent::FilePath(Ok::<String, String>(p))
            }),
            outcome matches Err(m) ==> (old(self).path is None ==> {
                &&& final(self).state == TaskState::Failed
                &&& final(self).path is None
                &&& ev == DownloadEvent::FilePath(Err::<String, String>(m))
            }),
    {
        match &self.path {
            Some(p) => {
                let kept = p.clone();
                self.state = TaskState::Opening;
                DownloadEvent::FilePath(Ok(kept))
            },
            None => {
                match outcome {
                    Ok(p) => {
                        let dup = p.clone();
                        self.path = Some(dup);
                        self.state = TaskState::Opening;
                        DownloadEvent::FilePath(Ok(p))
                    },
                    Err(m) => {
                        self.state = TaskState::Failed;
                        DownloadEvent::FilePath(Err(m))
                    },
                }
            },
        }
    }

    /// The puller could not be built: fatal for this run.
    pub fn on_puller_error(&mut self, message: String) -> (ev: DownloadEvent)
        requires
            old(self).wf(),
            old(self).state == TaskState::Opening,
        ensures
            final(self).wf(),
            final(self).state == TaskState::Failed,
            final(self).same_identity_fields(*old(self)),
            final(self).info == old(self).info,
            final(self).path == old(self).path,
            final(self).push_progress == old(self).push_progress,
            ev == DownloadEvent::CreatePullerError(message),
    {
        self.state = TaskState::Failed;
        DownloadEvent::CreatePullerError(message)
    }

    /// The destination file or the pusher could not be opened: fatal.
    pub fn on_pusher_error(&mut self, message: String) -> (ev: DownloadEvent)
        requires
            old(self).wf(),
            old(self).state == TaskState::Opening,
        ensures
            final(self).wf(),
            final(self).state == TaskState::Failed,
            final(self).same_identity_fields(*old(self)),
            final(self).info == old(self).info,
            final(self).path == old(self).path,
            final(self).push_progress == old(self).push_progress,
            ev == DownloadEvent::CreatePusherError(message),
    {
        self.state = TaskState::Failed;
        DownloadEvent::CreatePusherError(message)
    }

    /// Everything is open: choose the engine. A range-capable server gets
    /// the multi-range engine, fed exactly the inversion of the progress
    /// set — the remaining work — so a resumed task never re-downloads
    /// covered ranges. Everything else gets the single-stream engine.
    pub fn start_engine(&mut self, cfg: &DownloadConfig) -> (plan: EnginePlan)
        requires
            old(self).wf(),
            old(self).state == TaskState::Opening,
            old(self).info is Some,
            is_complete(cfg@),
            is_positive(cfg@),
        ensures
            final(self).wf(),
            final(self).state == TaskState::Downloading,
            final(self).same_identity_fields(*old(self)),
            final(self).info == old(self).info,
            final(self).path == old(self).path,
            final(self).push_progress == old(self).push_progress,
            old(self).info matches Some(i) ==> (if i.fast_download {
                plan matches EnginePlan::Multi {
                    download_chunks,
                    concurrent,
                    min_chunk_size,
                    retry_gap_ms,
                    push_queue_cap,
                } && {
                    &&& is_normalized(download_chunks@)
                    &&& covered(download_chunks@) == interval(i.size).difference(
                        covered(old(self).push_progress@),
                    )
                    &&& Some(concurrent) == cfg@.threads
                    &&& Some(min_chunk_size) == cfg@.min_chunk_size
                    &&& Some(retry_gap_ms) == cfg@.retry_gap_ms
                    &&& Some(push_queue_cap) == cfg@.write_queue_cap
                }
            } else {
                plan matches EnginePlan::Single { retry_gap_ms, push_queue_cap } && {
                    &&& Some(retry_gap_ms) == cfg@.retry_gap_ms
                    &&& Some(push_queue_cap) == cfg@.write_queue_cap
                }
            }),
    {
        self.state = TaskState::Downloading;
        let retry_gap_ms = match cfg.retry_gap_ms {
            Some(x) => x,
            None => 0,
        };
        let push_queue_cap = match cfg.write_queue_cap {
            Some(x) => x,
            None => 0,
        };
        let fast = match &self.info {
            Some(i) => i.fast_download,
            None => false,
        };
        if fast {
            let size = match &self.info {
                Some(i) => i.size,
                None => 0,
            };
            let download_chunks = invert_progress(&self.push_progress, size);
            let concurrent = match cfg.threads {
                Some(x) => x,
                None => 1,
            };
            let min_chunk_size = match cfg.min_chunk_size {
                Some(x) => x,
                None => 1,
            };
            EnginePlan::Multi {
                download_chunks,
                concurrent,
                min_chunk_size,
                retry_gap_ms,
                push_queue_cap,
            }
        } else {
            EnginePlan::Single { retry_gap_ms, push_queue_cap }
        }
    }

    /// An engine event arrived. Progress reports are merged at once —
    /// clipped to the discovered size — so an abort right after still
    /// resumes exactly where the writes reached; the progress set only ever
    /// grows. `Finished` and `Failed` are terminal.
    pub fn on_engine_event(&mut self, event: EngineEvent) -> (out: DownloadEvent)
        requires
            old(self).wf(),
            old(self).state == TaskState::Downloading,
            old(self).info is Some,
        ensures
            final(self).wf(),
            final(self).same_identity_fields(*old(self)),
            final(self).info == old(self).info,
            final(self).path == old(self).path,
            out == DownloadEvent::Download(event),
            event matches EngineEvent::PushProgress(id, r) ==> {
                &&& final(self).state == TaskState::Downloading
                &&& (old(self).info matches Some(i) && covered(final(self).push_progress@)
                    == covered(old(self).push_progress@).union(
                    range_set(r).intersect(interval(i.size)),
                ))
                &&& covered(old(self).push_progress@).subset_of(
                    covered(final(self).push_progress@),
                )
            },
            event matches EngineEvent::Finished ==> final(self).state == TaskState::Done
                && final(self).push_progress == old(self).push_progress,
            event matches EngineEvent::Failed(m) ==> final(self).state == TaskState::Failed
                && final(self).push_progress == old(self).push_progress,
            (event is Connected || event is Retry) ==> final(self).state
                == TaskState::Downloading && final(self).push_progress == old(self).push_progress,
    {
        match &event {
            EngineEvent::PushProgress(_, r) => {
                let size = match &self.info {
                    Some(i) => i.size,
                    None => 0,
                };
                let clipped = ByteRange {
                    start: if r.start < size {
                        r.start
                    } else {
                        size
                    },
                    end: if r.end < size {
                        r.end
                    } else {
                        size
                    },
                };
                proof {
                    assert(range_set(clipped) =~= range_set(*r).intersect(interval(size)));
                }
                let ghost pre = self.push_progress@;
                merge_progress(&mut self.push_progress, clipped);
                proof {
                    crate::progress::lemma_covered_in_interval(pre, size);
                    assert forall|x: int| covered(self.push_progress@).contains(x) implies 0 <= x
                        < size by {
                        assert(covered(pre).contains(x) || range_set(clipped).contains(x));
                    }
                    lemma_bounded_from_covered(self.push_progress@, size);
                }
            },
            EngineEvent::Finished => {
                self.state = TaskState::Done;
            },
            EngineEvent::Failed(_) => {
                self.state = TaskState::Failed;
            },
            EngineEvent::Connected => {},
            EngineEvent::Retry(_) => {},
        }
        DownloadEvent::Download(event)
    }
}

/// Progress monotonicity over one pipeline step: every step either leaves
/// the progress set untouched or merges one more (clipped) range into it —
/// the two shapes the step contracts state — and in both the covered bytes
/// never shrink. Chained over the steps of a run, the progress set only
/// ever grows for the task's whole lifetime.
pub proof fn lemma_step_progress_monotone(
    pre: Seq<ByteRange>,
    post: Seq<ByteRange>,
    r: ByteRange,
    size: u64,
)
    requires
        post == pre || covered(post) == covered(pre).union(
            range_set(r).intersect(interval(size)),
        ),
    ensures
        covered(pre).subset_of(covered(post)),
{
}

/// Resume fidelity: the chunks handed to the multi-range engine on a re-run
/// are exactly the remaining work — they never meet what is already
/// downloaded, and together with it they cover the whole file. The
/// hypotheses are what `start_engine` ensures of its multi-range plan.
pub proof fn lemma_resume_fidelity(progress: Seq<ByteRange>, chunks: Seq<ByteRange>, size: u64)
    requires
        is_normalized(progress),
        bounded_by(progress, size),
        covered(chunks) == interval(size).difference(covered(progress)),
    ensures
        covered(chunks).intersect(covered(progress)) == Set::<int>::empty(),
        covered(chunks).union(covered(progress)) == interval(size),
{
    crate::progress::lemma_invert_partitions(progress, chunks, size);
    assert(covered(chunks).intersect(covered(progress)) =~= covered(progress).intersect(
        covered(chunks),
    ));
    assert(covered(chunks).union(covered(progress)) =~= covered(progress).union(covered(chunks)));
}

/// A normalized set covering only offsets below `total` is bounded by
/// `total` range by range.
proof fn lemma_bounded_from_covered(s: Seq<ByteRange>, total: u64)
    requires
        is_normalized(s),
        forall|x: int| covered(s).contains(x) ==> 0 <= x < total,
    ensures
        bounded_by(s, total),
{
    assert forall|i: int| 0 <= i < s.len() implies s[i].end <= total by {
        lemma_covered_iff(s, s[i].end - 1);
        assert(covers_at(s, i, s[i].end - 1));
    }
}

/// One entry of the task table: the identifier, the mutable task state and
/// the options it was created with.
#[derive(Debug)]
pub struct DownloadEntry {
    pub gid: Gid,
    pub inner: DownloadEntryInner,
    pub add_options: AddOptions,
}

impl PartialEq for DownloadEntry {
    /// Entries are the same task exactly when they carry the same
    /// identifier.
    fn eq(&self, other: &DownloadEntry) -> (r: bool) {
        self.gid == other.gid
    }
}

impl vstd::std_specs::cmp::PartialEqSpecImpl for DownloadEntry {
    open spec fn obeys_eq_spec() -> bool {
        true
    }

    open spec fn eq_spec(&self, other: &DownloadEntry) -> bool {
        self.gid == other.gid
    }
}

/// What `add` receives: the URL, whether to start at once, and the
/// task-local configuration.
#[derive(Debug)]
pub struct AddOptions {
    pub url: String,
    pub immediate_download: bool,
    pub config: DownloadConfig,
}

impl DownloadEntry {
    pub open spec fn wf(self) -> bool {
        self.inner.wf()
    }

    pub fn new(gid: Gid, options: AddOptions) -> (e: DownloadEntry)
        requires
            is_positive(options.config@),
        ensures
            e.wf(),
            e.gid == gid,
            e.inner.state == TaskState::Idle,
            e.inner.url@ == options.url@,
            e.inner.config@ == options.config@,
            e.inner.info is None,
            e.inner.path is None,
            e.inner.push_progress@.len() == 0,
            e.add_options.url@ == options.url@,
            e.add_options.immediate_download == options.immediate_download,
            e.add_options.config@ == options.config@,
    {
        let url = options.url.clone();
        let config = options.config.duplicate();
        let inner = DownloadEntryInner::new(url, config);
        DownloadEntry { gid, inner, add_options: options }
    }

    pub fn abort(&mut self)
        requires
            old(self).wf(),
        ensures
            final(self).wf(),
            final(self).gid == old(self).gid,
            final(self).inner.state == (if old(self).inner.state.is_active() {
                TaskState::Aborted
            } else {
                old(self).inner.state
            }),
            final(self).inner.same_identity_fields(old(self).inner),
            final(self).inner.info == old(self).inner.info,
            final(self).inner.path == old(self).inner.path,
            final(self).inner.push_progress == old(self).inner.push_progress,
            final(self).add_options == old(self).add_options,
    {
        self.inner.abort();
    }

    pub fn is_running(&self) -> (r: bool)
        ensures
            r == self.inner.state.is_active(),
    {
        self.inner.is_running()
    }

    /// Start the task: it enters `Connecting` and hands back the effective
    /// configuration, as [`DownloadEntryInner::start_run`] does.
    pub fn run(&mut self, global: &DownloadConfig) -> (cfg: DownloadConfig)
        requires
            old(self).wf(),
            is_positive(global@),
        ensures
            final(self).wf(),
            final(self).gid == old(self).gid,
            final(self).inner.state == TaskState::Connecting,
            final(self).inner.same_identity_fields(old(self).inner),
            final(self).inner.info == old(self).inner.info,
            final(self).inner.path == old(self).inner.path,
            final(self).inner.push_progress == old(self).inner.push_progress,
            final(self).add_options == old(self).add_options,
            cfg@ == view_inherit(view_inherit(old(self).inner.config@, global@), default_view()),
            is_complete(cfg@),
            is_positive(cfg@),
    {
        self.inner.start_run(global)
    }
}

} // verus!
