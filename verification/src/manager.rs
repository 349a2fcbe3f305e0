//! The task table: ordered entries under a global parallelism ceiling.
//! Commands (`add_task`, `remove`, `stop`, `set_parallelism`) mutate the
//! table and then rebalance: idle entries are started first-come-first-served
//! while slots remain, and running entries are aborted from the front when
//! the ceiling drops. `stop` demotes an entry by moving it to the tail.

use crate::config::DownloadConfig;
use crate::config::default_view;
use crate::config::is_complete;
use crate::config::is_positive;
use crate::config::view_inherit;
use crate::entry::AddOptions;
use crate::entry::DownloadEntry;
use crate::entry::DownloadEntryInner;
use crate::entry::DownloadEvent;
use crate::entry::EngineEvent;
use crate::entry::EnginePlan;
use crate::entry::TaskState;
use crate::entry::UrlInfo;
use crate::gid::Gid;
use crate::gid::fresh_gid;
use crate::progress::ByteRange;
use crate::progress::covered;
use crate::progress::interval;
use crate::progress::is_normalized;
use crate::progress::range_set;
use vstd::math::min;
use vstd::prelude::*;

verus! {

/// Number of entries holding a parallelism slot.
pub open spec fn running_count(s: Seq<DownloadEntry>) -> int
    decreases s.len(),
{
    if s.len() == 0 {
        0
    } else {
        (if s[0].inner.state.is_active() {
            1int
        } else {
            0int
        }) + running_count(s.drop_first())
    }
}

/// All entries carry pairwise distinct identifiers.
pub open spec fn distinct_gids(s: Seq<DownloadEntry>) -> bool {
    forall|i: int, j: int| 0 <= i < j < s.len() ==> s[i].gid != s[j].gid
}

/// Some entry carries this identifier.
pub open spec fn has_gid(s: Seq<DownloadEntry>, g: Gid) -> bool {
    exists|i: int| 0 <= i < s.len() && s[i].gid == g
}

/// The index of the entry carrying `g` (unique when gids are distinct).
pub open spec fn index_of_gid(s: Seq<DownloadEntry>, g: Gid) -> int {
    choose|i: int| 0 <= i < s.len() && s[i].gid == g
}

/// `e`, started: promoted into its slot.
pub open spec fn entry_started(e: DownloadEntry) -> DownloadEntry {
    DownloadEntry {
        inner: DownloadEntryInner { state: TaskState::Connecting, ..e.inner },
        ..e
    }
}

/// `e`, aborted out of its slot.
pub open spec fn entry_aborted(e: DownloadEntry) -> DownloadEntry {
    DownloadEntry { inner: DownloadEntryInner { state: TaskState::Aborted, ..e.inner }, ..e }
}

/// Start the first `k` non-running entries, in table order.
pub open spec fn start_first(s: Seq<DownloadEntry>, k: int) -> Seq<DownloadEntry>
    decreases s.len(),
{
    if s.len() == 0 {
        s
    } else if s[0].inner.state.is_active() {
        seq![s[0]] + start_first(s.drop_first(), k)
    } else if k > 0 {
        seq![entry_started(s[0])] + start_first(s.drop_first(), k - 1)
    } else {
        seq![s[0]] + start_first(s.drop_first(), 0)
    }
}

/// The identifiers started by `start_first(s, k)`, in order.
pub open spec fn started_gids(s: Seq<DownloadEntry>, k: int) -> Seq<Gid>
    decreases s.len(),
{
    if s.len() == 0 || k <= 0 {
        Seq::empty()
    } else if s[0].inner.state.is_active() {
        started_gids(s.drop_first(), k)
    } else {
        seq![s[0].gid] + started_gids(s.drop_first(), k - 1)
    }
}

/// Abort the first `k` running entries, in table order.
pub open spec fn abort_first(s: Seq<DownloadEntry>, k: int) -> Seq<DownloadEntry>
    decreases s.len(),
{
    if s.len() == 0 {
        s
    } else if s[0].inner.state.is_active() && k > 0 {
        seq![entry_aborted(s[0])] + abort_first(s.drop_first(), k - 1)
    } else {
        seq![s[0]] + abort_first(s.drop_first(), k)
    }
}

/// The identifiers aborted by `abort_first(s, k)`, in order.
pub open spec fn aborted_gids(s: Seq<DownloadEntry>, k: int) -> Seq<Gid>
    decreases s.len(),
{
    if s.len() == 0 || k <= 0 {
        Seq::empty()
    } else if s[0].inner.state.is_active() {
        seq![s[0].gid] + aborted_gids(s.drop_first(), k - 1)
    } else {
        aborted_gids(s.drop_first(), k)
    }
}

/// What one rebalance pass makes of the table.
pub open spec fn rebalanced(s: Seq<DownloadEntry>, p: int) -> Seq<DownloadEntry> {
    if running_count(s) <= p {
        start_first(s, p - running_count(s))
    } else {
        abort_first(s, running_count(s) - p)
    }
}

/// The identifiers one rebalance pass starts and aborts, in order.
pub open spec fn rebalance_actions(s: Seq<DownloadEntry>, p: int) -> (Seq<Gid>, Seq<Gid>) {
    if running_count(s) <= p {
        (started_gids(s, p - running_count(s)), Seq::<Gid>::empty())
    } else {
        (Seq::<Gid>::empty(), aborted_gids(s, running_count(s) - p))
    }
}

/// `e` with its state set back to idle: what an entry looked like before a
/// rebalance pass touched it.
pub open spec fn entry_idled(e: DownloadEntry) -> DownloadEntry {
    DownloadEntry { inner: DownloadEntryInner { state: TaskState::Idle, ..e.inner }, ..e }
}

pub proof fn lemma_running_count_bounds(s: Seq<DownloadEntry>)
    ensures
        0 <= running_count(s) <= s.len(),
    decreases s.len(),
{
    if s.len() > 0 {
        lemma_running_count_bounds(s.drop_first());
    }
}

pub proof fn lemma_running_count_push(s: Seq<DownloadEntry>, e: DownloadEntry)
    ensures
        running_count(s.push(e)) == running_count(s) + (if e.inner.state.is_active() {
            1int
        } else {
            0int
        }),
    decreases s.len(),
{
    if s.len() == 0 {
        assert(s.push(e).drop_first() =~= s);
    } else {
        assert(s.push(e).drop_first() =~= s.drop_first().push(e));
        lemma_running_count_push(s.drop_first(), e);
    }
}

/// `start_first` keeps length and identifiers, only promotes idle entries,
/// and raises the running count by `k`, capped by the idle entries present.
pub proof fn lemma_start_first(s: Seq<DownloadEntry>, k: int)
    requires
        k >= 0,
    ensures
        start_first(s, k).len() == s.len(),
        forall|i: int|
            0 <= i < s.len() ==> (#[trigger] start_first(s, k)[i] == s[i] || (!s[i].inner.state.is_active()
                && start_first(s, k)[i] == entry_started(s[i]))),
        running_count(start_first(s, k)) == running_count(s) + min(k, s.len() - running_count(s)),
    decreases s.len(),
{
    lemma_running_count_bounds(s);
    if s.len() > 0 {
        let rest = s.drop_first();
        lemma_running_count_bounds(rest);
        if s[0].inner.state.is_active() {
            lemma_start_first(rest, k);
            let out = seq![s[0]] + start_first(rest, k);
            assert(out.drop_first() =~= start_first(rest, k));
        } else if k > 0 {
            lemma_start_first(rest, k - 1);
            let out = seq![entry_started(s[0])] + start_first(rest, k - 1);
            assert(out.drop_first() =~= start_first(rest, k - 1));
            assert(entry_started(s[0]).inner.state.is_active());
        } else {
            lemma_start_first(rest, 0);
            let out = seq![s[0]] + start_first(rest, 0);
            assert(out.drop_first() =~= start_first(rest, 0));
        }
    }
}

/// `abort_first` keeps length and identifiers, only demotes running
/// entries, and lowers the running count by `k`, capped by what is running.
pub proof fn lemma_abort_first(s: Seq<DownloadEntry>, k: int)
    requires
        k >= 0,
    ensures
        abort_first(s, k).len() == s.len(),
        forall|i: int|
            0 <= i < s.len() ==> (#[trigger] abort_first(s, k)[i] == s[i] || (s[i].inner.state.is_active()
                && abort_first(s, k)[i] == entry_aborted(s[i]))),
        running_count(abort_first(s, k)) == running_count(s) - min(k, running_count(s)),
    decreases s.len(),
{
    lemma_running_count_bounds(s);
    if s.len() > 0 {
        let rest = s.drop_first();
        lemma_running_count_bounds(rest);
        if s[0].inner.state.is_active() && k > 0 {
            lemma_abort_first(rest, k - 1);
            let out = seq![entry_aborted(s[0])] + abort_first(rest, k - 1);
            assert(out.drop_first() =~= abort_first(rest, k - 1));
            assert(!entry_aborted(s[0]).inner.state.is_active());
        } else {
            lemma_abort_first(rest, k);
            let out = seq![s[0]] + abort_first(rest, k);
            assert(out.drop_first() =~= abort_first(rest, k));
        }
    }
}

/// Rebalancing settles the running count at the ceiling, or at the table
/// size when fewer tasks exist — and so never above the ceiling.
pub proof fn lemma_rebalanced_ceiling(s: Seq<DownloadEntry>, p: int)
    requires
        p >= 0,
    ensures
        running_count(rebalanced(s, p)) == min(p, s.len() as int),
        running_count(rebalanced(s, p)) <= p,
    decreases 0int,
{
    lemma_running_count_bounds(s);
    if running_count(s) <= p {
        lemma_start_first(s, p - running_count(s));
    } else {
        lemma_abort_first(s, running_count(s) - p);
    }
}

/// Which collaborator failed to build during the opening phase.
#[derive(Clone, Copy, PartialEq, Eq, Structural, Debug)]
pub enum BuildFailure {
    Client,
    Puller,
    Pusher,
}

/// With distinct identifiers, any position holding `g` is the index
/// `index_of_gid` names.
pub proof fn lemma_index_of(s: Seq<DownloadEntry>, g: Gid, i: int)
    requires
        distinct_gids(s),
        0 <= i < s.len(),
        s[i].gid == g,
    ensures
        index_of_gid(s, g) == i,
        has_gid(s, g),
{
    assert(has_gid(s, g));
    let j = index_of_gid(s, g);
    assert(0 <= j < s.len() && s[j].gid == g);
    if j < i {
        assert(s[j].gid != s[i].gid);
    } else if j > i {
        assert(s[i].gid != s[j].gid);
    }
}

/// Replacing one entry with a well-formed one of the same identifier keeps
/// the table well-formed.
pub proof fn lemma_wf_update(pre: Seq<DownloadEntry>, post: Seq<DownloadEntry>, i: int)
    requires
        distinct_gids(pre),
        forall|a: int| 0 <= a < pre.len() ==> (#[trigger] pre[a]).wf(),
        0 <= i < pre.len(),
        post == pre.update(i, post[i]),
        post[i].gid == pre[i].gid,
        post[i].wf(),
    ensures
        distinct_gids(post),
        forall|a: int| 0 <= a < post.len() ==> (#[trigger] post[a]).wf(),
{
    assert forall|a: int, b: int| 0 <= a < b < post.len() implies post[a].gid != post[b].gid by {
        assert(pre[a].gid != pre[b].gid);
    }
    assert forall|a: int| 0 <= a < post.len() implies (#[trigger] post[a]).wf() by {
        if a != i {
            assert(post[a] == pre[a]);
        }
    }
}

/// Why a task could not be admitted.
#[derive(Clone, Copy, PartialEq, Eq, Structural, Debug)]
pub enum AddTaskError {
    /// Every random identifier draw collided with the table.
    GidCollision,
}

/// The task table.
pub struct Downloader {
    pub list: Vec<DownloadEntry>,
    pub parallelism: usize,
    pub config: DownloadConfig,
}

impl Downloader {
    /// Well-formedness: identifiers distinct, every entry well-formed, the
    /// global configuration keeps positive fields positive.
    pub open spec fn wf(self) -> bool {
        &&& distinct_gids(self.list@)
        &&& (forall|i: int| 0 <= i < self.list@.len() ==> (#[trigger] self.list@[i]).wf())
        &&& is_positive(self.config@)
    }

    pub fn new(config: DownloadConfig) -> (d: Downloader)
        requires
            is_positive(config@),
        ensures
            d.wf(),
            d.list@.len() == 0,
            d.parallelism == 0,
            d.config == config,
    {
        Downloader::with_capacity(config, 0)
    }

    pub fn with_capacity(config: DownloadConfig, capacity: usize) -> (d: Downloader)
        requires
            is_positive(config@),
        ensures
            d.wf(),
            d.list@.len() == 0,
            d.parallelism == 0,
            d.config == config,
    {
        Downloader { list: Vec::with_capacity(capacity), parallelism: 0, config }
    }

    pub fn running_count(&self) -> (c: usize)
        ensures
            c == running_count(self.list@),
    {
        let n = self.list.len();
        let mut c: usize = 0;
        let mut i: usize = 0;
        proof {
            lemma_running_count_bounds(self.list@);
        }
        while i < n
            invariant
                i <= n,
                n == self.list@.len(),
                c == running_count(self.list@.take(i as int)),
                c <= i,
            decreases n - i,
        {
            proof {
                lemma_running_count_push(self.list@.take(i as int), self.list@[i as int]);
                assert(self.list@.take(i + 1) =~= self.list@.take(i as int).push(
                    self.list@[i as int],
                ));
            }
            if self.list[i].is_running() {
                c = c + 1;
            }
            i = i + 1;
        }
        proof {
            assert(self.list@.take(n as int) =~= self.list@);
        }
        c
    }

    /// Rebalance the table against the ceiling: start idle entries in table
    /// order while slots remain; abort running entries from the front when
    /// over the ceiling. Returns the identifiers started and aborted, in
    /// order, for the caller to act on. Afterwards the running count equals
    /// `min(parallelism, table size)` — never above the ceiling.
    pub fn run(&mut self) -> (actions: (Vec<Gid>, Vec<Gid>))
        requires
            old(self).wf(),
        ensures
            final(self).wf(),
            final(self).parallelism == old(self).parallelism,
            final(self).config == old(self).config,
            final(self).list@ == rebalanced(old(self).list@, old(self).parallelism as int),
            (actions.0@, actions.1@) == rebalance_actions(
                old(self).list@,
                old(self).parallelism as int,
            ),
            running_count(final(self).list@) == min(
                old(self).parallelism as int,
                old(self).list@.len() as int,
            ),
            running_count(final(self).list@) <= old(self).parallelism,
    {
        let ghost orig = self.list@;
        let ghost cfg0 = self.config;
        let n = self.list.len();
        let p = self.parallelism;
        let running = self.running_count();
        proof {
            lemma_running_count_bounds(orig);
        }
        let mut started: Vec<Gid> = Vec::new();
        let mut aborted: Vec<Gid> = Vec::new();
        if running <= p {
            let ghost k0 = p - running;
            let mut k: usize = p - running;
            let mut i: usize = 0;
            proof {
                assert(orig.skip(0) =~= orig);
                assert(self.list@.take(0) + start_first(orig, k0) =~= start_first(orig, k0));
                assert(started@ + started_gids(orig, k0) =~= started_gids(orig, k0));
            }
            while i < n
                invariant
                    i <= n,
                    n == self.list@.len(),
                    n == orig.len(),
                    0 <= k,
                    self.parallelism == p,
                    self.config == cfg0,
                    self.list@.skip(i as int) == orig.skip(i as int),
                    start_first(orig, k0) == self.list@.take(i as int) + start_first(
                        orig.skip(i as int),
                        k as int,
                    ),
                    started_gids(orig, k0) == started@ + started_gids(
                        orig.skip(i as int),
                        k as int,
                    ),
                    forall|j: int| 0 <= j < i ==> (#[trigger] self.list@[j]).gid == orig[j].gid,
                decreases n - i,
            {
                proof {
                    assert(orig.skip(i as int)[0] == orig[i as int]);
                    assert(orig.skip(i as int).drop_first() =~= orig.skip(i + 1));
                    assert(self.list@[i as int] == orig[i as int]);
                }
                let active = self.list[i].is_running();
                if !active && k > 0 {
                    let g = self.list[i].gid;
                    self.list[i].inner.state = TaskState::Connecting;
                    started.push(g);
                    k = k - 1;
                    proof {
                        assert(self.list@[i as int] =~= entry_started(orig[i as int]));
                        assert(self.list@.take(i + 1) =~= self.list@.take(i as int).push(
                            entry_started(orig[i as int]),
                        ));
                        assert(self.list@.skip(i + 1) =~= orig.skip(i + 1));
                        assert(start_first(orig, k0) == self.list@.take(i + 1) + start_first(
                            orig.skip(i + 1),
                            k as int,
                        ));
                    }
                } else {
                    proof {
                        assert(self.list@.take(i + 1) =~= self.list@.take(i as int).push(
                            orig[i as int],
                        ));
                        assert(start_first(orig, k0) == self.list@.take(i + 1) + start_first(
                            orig.skip(i + 1),
                            k as int,
                        ));
                    }
                }
                i = i + 1;
            }
            proof {
                assert(self.list@.take(n as int) =~= self.list@);
                assert(orig.skip(n as int) =~= Seq::<DownloadEntry>::empty());
                assert(start_first(orig, k0) == self.list@);
                assert(started_gids(orig, k0) == started@);
                lemma_start_first(orig, k0);
                assert forall|i: int| 0 <= i < self.list@.len() implies (
                #[trigger] self.list@[i]).wf() by {
                    assert(self.list@[i] == orig[i] || self.list@[i] == entry_started(orig[i]));
                }
                assert forall|i: int, j: int| 0 <= i < j < self.list@.len() implies self.list@[i].gid
                    != self.list@[j].gid by {
                    assert(self.list@[i] == orig[i] || self.list@[i] == entry_started(orig[i]));
                    assert(self.list@[j] == orig[j] || self.list@[j] == entry_started(orig[j]));
                }
            }
        } else {
            let ghost k0 = running - p;
            let mut k: usize = running - p;
            let mut i: usize = 0;
            proof {
                assert(orig.skip(0) =~= orig);
                assert(self.list@.take(0) + abort_first(orig, k0) =~= abort_first(orig, k0));
                assert(aborted@ + aborted_gids(orig, k0) =~= aborted_gids(orig, k0));
            }
            while i < n
                invariant
                    i <= n,
                    n == self.list@.len(),
                    n == orig.len(),
                    0 <= k,
                    self.parallelism == p,
                    self.config == cfg0,
                    self.list@.skip(i as int) == orig.skip(i as int),
                    abort_first(orig, k0) == self.list@.take(i as int) + abort_first(
                        orig.skip(i as int),
                        k as int,
                    ),
                    aborted_gids(orig, k0) == aborted@ + aborted_gids(
                        orig.skip(i as int),
                        k as int,
                    ),
                decreases n - i,
            {
                proof {
                    assert(orig.skip(i as int)[0] == orig[i as int]);
                    assert(orig.skip(i as int).drop_first() =~= orig.skip(i + 1));
                    assert(self.list@[i as int] == orig[i as int]);
                }
                let active = self.list[i].is_running();
                if active && k > 0 {
                    let g = self.list[i].gid;
                    self.list[i].inner.state = TaskState::Aborted;
                    aborted.push(g);
                    k = k - 1;
                    proof {
                        assert(self.list@[i as int] =~= entry_aborted(orig[i as int]));
                        assert(self.list@.take(i + 1) =~= self.list@.take(i as int).push(
                            entry_aborted(orig[i as int]),
                        ));
                        assert(self.list@.skip(i + 1) =~= orig.skip(i + 1));
                        assert(abort_first(orig, k0) == self.list@.take(i + 1) + abort_first(
                            orig.skip(i + 1),
                            k as int,
                        ));
                    }
                } else {
                    proof {
                        assert(self.list@.take(i + 1) =~= self.list@.take(i as int).push(
                            orig[i as int],
                        ));
                        assert(abort_first(orig, k0) == self.list@.take(i + 1) + abort_first(
                            orig.skip(i + 1),
                            k as int,
                        ));
                    }
                }
                i = i + 1;
            }
            proof {
                assert(self.list@.take(n as int) =~= self.list@);
                assert(orig.skip(n as int) =~= Seq::<DownloadEntry>::empty());
                assert(abort_first(orig, k0) == self.list@);
                assert(aborted_gids(orig, k0) == aborted@);
                lemma_abort_first(orig, k0);
                assert forall|i: int| 0 <= i < self.list@.len() implies (
                #[trigger] self.list@[i]).wf() by {
                    assert(self.list@[i] == orig[i] || self.list@[i] == entry_aborted(orig[i]));
                }
                assert forall|i: int, j: int| 0 <= i < j < self.list@.len() implies self.list@[i].gid
                    != self.list@[j].gid by {
                    assert(self.list@[i] == orig[i] || self.list@[i] == entry_aborted(orig[i]));
                    assert(self.list@[j] == orig[j] || self.list@[j] == entry_aborted(orig[j]));
                }
            }
        }
        proof {
            lemma_rebalanced_ceiling(orig, p as int);
            if running <= p {
                assert(aborted@ =~= Seq::<Gid>::empty());
            } else {
                assert(started@ =~= Seq::<Gid>::empty());
            }
        }
        (started, aborted)
    }

    fn contains_gid(&self, g: Gid) -> (r: bool)
        ensures
            r == has_gid(self.list@, g),
    {
        let n = self.list.len();
        let mut i: usize = 0;
        while i < n
            invariant
                i <= n,
                n == self.list@.len(),
                forall|j: int| 0 <= j < i ==> self.list@[j].gid != g,
            decreases n - i,
        {
            if self.list[i].gid.hi == g.hi && self.list[i].gid.lo == g.lo {
                proof {
                    assert(self.list@[i as int].gid =~= g);
                }
                return true;
            }
            i = i + 1;
        }
        false
    }

    fn position_of(&self, g: Gid) -> (r: Option<usize>)
        ensures
            r matches Some(i) ==> i < self.list@.len() && self.list@[i as int].gid == g,
            r is None ==> !has_gid(self.list@, g),
    {
        let n = self.list.len();
        let mut i: usize = 0;
        while i < n
            invariant
                i <= n,
                n == self.list@.len(),
                forall|j: int| 0 <= j < i ==> self.list@[j].gid != g,
            decreases n - i,
        {
            if self.list[i].gid.hi == g.hi && self.list[i].gid.lo == g.lo {
                proof {
                    assert(self.list@[i as int].gid =~= g);
                }
                return Some(i);
            }
            i = i + 1;
        }
        None
    }

    /// Admit a new task: allocate a fresh identifier, retrying on collision
    /// against the table, append the entry at the tail, then rebalance.
    /// Afterwards all identifiers are still pairwise distinct, and the new
    /// one is not any the table held before. Fails, leaving the table
    /// untouched, only if every random draw collided.
    pub fn add_task(&mut self, options: AddOptions) -> (res: Result<
        (Gid, (Vec<Gid>, Vec<Gid>)),
        AddTaskError,
    >)
        requires
            old(self).wf(),
            is_positive(options.config@),
        ensures
            final(self).wf(),
            final(self).parallelism == old(self).parallelism,
            final(self).config == old(self).config,
            res matches Err(e) ==> {
                &&& e == AddTaskError::GidCollision
                &&& final(self).list@ == old(self).list@
                &&& old(self).list@.len() > 0
            },
            res matches Ok(r) ==> {
                &&& final(self).list@.len() == old(self).list@.len() + 1
                &&& !has_gid(old(self).list@, r.0)
                &&& (forall|i: int|
                    0 <= i < old(self).list@.len() ==> (#[trigger] final(self).list@[i]).gid
                        == old(self).list@[i].gid)
                &&& (forall|i: int|
                    0 <= i < old(self).list@.len() ==> ((#[trigger] final(self).list@[i]) == old(
                        self,
                    ).list@[i] || final(self).list@[i] == entry_started(old(self).list@[i])
                        || final(self).list@[i] == entry_aborted(old(self).list@[i])))
                &&& (forall|i: int|
                    0 <= i < old(self).list@.len() ==> {
                        &&& (#[trigger] final(self).list@[i]).inner.info
                            == old(self).list@[i].inner.info
                        &&& final(self).list@[i].inner.path == old(self).list@[i].inner.path
                        &&& final(self).list@[i].inner.push_progress
                            == old(self).list@[i].inner.push_progress
                        &&& final(self).list@[i].inner.url == old(self).list@[i].inner.url
                        &&& final(self).list@[i].inner.config == old(self).list@[i].inner.config
                        &&& final(self).list@[i].add_options == old(self).list@[i].add_options
                    })
                &&& (r.1.0@, r.1.1@) == rebalance_actions(
                    old(self).list@.push(
                        entry_idled(final(self).list@[old(self).list@.len() as int]),
                    ),
                    old(self).parallelism as int,
                )
                &&& ({
                    let ne = final(self).list@[old(self).list@.len() as int];
                    &&& ne.gid == r.0
                    &&& ne.inner.url@ == options.url@
                    &&& ne.inner.config@ == options.config@
                    &&& ne.inner.info is None
                    &&& ne.inner.path is None
                    &&& ne.inner.push_progress@.len() == 0
                    &&& (ne.inner.state == TaskState::Idle || ne.inner.state
                        == TaskState::Connecting)
                })
                &&& running_count(final(self).list@) == min(
                    old(self).parallelism as int,
                    old(self).list@.len() as int + 1,
                )
                &&& running_count(final(self).list@) <= old(self).parallelism
            },
    {
        let ghost s0 = *self;
        let mut g = fresh_gid();
        let mut attempts: usize = 0;
        while attempts < 64 && self.contains_gid(g)
            invariant
                *self == s0,
                attempts <= 64,
            decreases 64 - attempts,
        {
            g = fresh_gid();
            attempts = attempts + 1;
        }
        if self.contains_gid(g) {
            proof {
                let w = choose|i: int| 0 <= i < self.list@.len() && self.list@[i].gid == g;
                assert(self.list@.len() > 0);
            }
            return Err(AddTaskError::GidCollision);
        }
        let entry = DownloadEntry::new(g, options);
        let ghost pushed = self.list@.push(entry);
        proof {
            assert forall|i: int, j: int| 0 <= i < j < pushed.len() implies pushed[i].gid
                != pushed[j].gid by {
                if j == pushed.len() - 1 {
                    assert(pushed[i] == self.list@[i]);
                }
            }
            lemma_running_count_push(self.list@, entry);
        }
        self.list.push(entry);
        let acts = self.run();
        proof {
            let p = s0.parallelism as int;
            let rc = running_count(pushed);
            lemma_running_count_bounds(pushed);
            if rc <= p {
                lemma_start_first(pushed, p - rc);
            } else {
                lemma_abort_first(pushed, rc - p);
            }
            assert forall|i: int| 0 <= i < s0.list@.len() implies (
            #[trigger] self.list@[i]).gid == s0.list@[i].gid by {
                assert(pushed[i] == s0.list@[i]);
                assert(self.list@[i] == pushed[i] || self.list@[i] == entry_started(pushed[i])
                    || self.list@[i] == entry_aborted(pushed[i]));
            }
            assert forall|i: int| 0 <= i < s0.list@.len() implies ((#[trigger] self.list@[i])
                == s0.list@[i] || self.list@[i] == entry_started(s0.list@[i]) || self.list@[i]
                == entry_aborted(s0.list@[i])) by {
                assert(pushed[i] == s0.list@[i]);
                assert(self.list@[i] == pushed[i] || self.list@[i] == entry_started(pushed[i])
                    || self.list@[i] == entry_aborted(pushed[i]));
            }
            assert forall|i: int| 0 <= i < s0.list@.len() implies {
                &&& (#[trigger] self.list@[i]).inner.info == s0.list@[i].inner.info
                &&& self.list@[i].inner.path == s0.list@[i].inner.path
                &&& self.list@[i].inner.push_progress == s0.list@[i].inner.push_progress
                &&& self.list@[i].inner.url == s0.list@[i].inner.url
                &&& self.list@[i].inner.config == s0.list@[i].inner.config
                &&& self.list@[i].add_options == s0.list@[i].add_options
            } by {
                assert(pushed[i] == s0.list@[i]);
                assert(self.list@[i] == pushed[i] || self.list@[i] == entry_started(pushed[i])
                    || self.list@[i] == entry_aborted(pushed[i]));
            }
            let last = s0.list@.len() as int;
            assert(pushed[last] == entry);
            assert(self.list@[last] == pushed[last] || self.list@[last] == entry_started(
                pushed[last],
            ) || self.list@[last] == entry_aborted(pushed[last]));
            assert(!entry.inner.state.is_active());
            let ne = self.list@[last];
            assert(entry_idled(ne) =~= entry);
            assert(s0.list@.push(entry_idled(ne)) =~= pushed);
        }
        Ok((g, acts))
    }

    /// Remove a task: abort it, drop it from the table, rebalance. Returns
    /// the removed entry if the identifier was present.
    pub fn remove(&mut self, gid: Gid) -> (res: (Option<DownloadEntry>, (Vec<Gid>, Vec<Gid>)))
        requires
            old(self).wf(),
        ensures
            final(self).wf(),
            final(self).parallelism == old(self).parallelism,
            final(self).config == old(self).config,
            !has_gid(old(self).list@, gid) ==> {
                &&& res.0 is None
                &&& final(self).list@ == rebalanced(old(self).list@, old(self).parallelism as int)
                &&& (res.1.0@, res.1.1@) == rebalance_actions(
                    old(self).list@,
                    old(self).parallelism as int,
                )
            },
            has_gid(old(self).list@, gid) ==> ({
                let i = index_of_gid(old(self).list@, gid);
                let e = old(self).list@[i];
                &&& (res.0 matches Some(r) && {
                    &&& r.gid == gid
                    &&& r.inner.url == e.inner.url
                    &&& r.inner.config == e.inner.config
                    &&& r.inner.info == e.inner.info
                    &&& r.inner.path == e.inner.path
                    &&& r.inner.push_progress == e.inner.push_progress
                    &&& r.add_options == e.add_options
                    &&& r.inner.state == (if e.inner.state.is_active() {
                        TaskState::Aborted
                    } else {
                        e.inner.state
                    })
                })
                &&& final(self).list@ == rebalanced(
                    old(self).list@.remove(i),
                    old(self).parallelism as int,
                )
                &&& (res.1.0@, res.1.1@) == rebalance_actions(
                    old(self).list@.remove(i),
                    old(self).parallelism as int,
                )
            }),
            running_count(final(self).list@) <= old(self).parallelism,
    {
        let ghost s0 = self.list@;
        let pos = self.position_of(gid);
        match pos {
            None => {
                let acts = self.run();
                (None, acts)
            },
            Some(i) => {
                proof {
                    let j = index_of_gid(s0, gid);
                    assert(0 <= j < s0.len() && s0[j].gid == gid);
                    assert(j == i as int);
                    assert forall|a: int, b: int|
                        0 <= a < b < s0.remove(i as int).len() implies s0.remove(i as int)[a].gid
                        != s0.remove(i as int)[b].gid by {}
                    assert forall|a: int| 0 <= a < s0.remove(i as int).len() implies (
                    #[trigger] s0.remove(i as int)[a]).wf() by {}
                }
                let mut e = self.list.remove(i);
                e.abort();
                let acts = self.run();
                (Some(e), acts)
            },
        }
    }

    /// Stop a task: abort it and move it to the tail of the table, demoting
    /// its claim to a slot; then rebalance, so a waiting task can take the
    /// freed slot.
    pub fn stop(&mut self, gid: Gid) -> (actions: (Vec<Gid>, Vec<Gid>))
        requires
            old(self).wf(),
        ensures
            final(self).wf(),
            final(self).parallelism == old(self).parallelism,
            final(self).config == old(self).config,
            !has_gid(old(self).list@, gid) ==> {
                &&& final(self).list@ == rebalanced(old(self).list@, old(self).parallelism as int)
                &&& (actions.0@, actions.1@) == rebalance_actions(
                    old(self).list@,
                    old(self).parallelism as int,
                )
            },
            has_gid(old(self).list@, gid) ==> ({
                let i = index_of_gid(old(self).list@, gid);
                let e = old(self).list@[i];
                let moved = if e.inner.state.is_active() {
                    entry_aborted(e)
                } else {
                    e
                };
                &&& final(self).list@ == rebalanced(
                    old(self).list@.remove(i).push(moved),
                    old(self).parallelism as int,
                )
                &&& (actions.0@, actions.1@) == rebalance_actions(
                    old(self).list@.remove(i).push(moved),
                    old(self).parallelism as int,
                )
            }),
            running_count(final(self).list@) <= old(self).parallelism,
    {
        let ghost s0 = self.list@;
        let pos = self.position_of(gid);
        match pos {
            None => self.run(),
            Some(i) => {
                proof {
                    let j = index_of_gid(s0, gid);
                    assert(0 <= j < s0.len() && s0[j].gid == gid);
                    assert(j == i as int);
                }
                let mut e = self.list.remove(i);
                let ghost removed_e = s0[i as int];
                e.abort();
                proof {
                    let moved = if removed_e.inner.state.is_active() {
                        entry_aborted(removed_e)
                    } else {
                        removed_e
                    };
                    assert(e.inner =~= moved.inner);
                    assert(e =~= moved);
                }
                self.list.push(e);
                proof {
                    let demoted = s0.remove(i as int).push(e);
                    assert forall|a: int, b: int| 0 <= a < b < demoted.len() implies demoted[a].gid
                        != demoted[b].gid by {
                        if b == demoted.len() - 1 {
                            assert(demoted[a] == s0.remove(i as int)[a]);
                        }
                    }
                    assert forall|a: int| 0 <= a < demoted.len() implies (
                    #[trigger] demoted[a]).wf() by {
                        if a < demoted.len() - 1 {
                            assert(demoted[a] == s0.remove(i as int)[a]);
                        }
                    }
                }
                self.run()
            },
        }
    }

    /// The state of the task `gid`, if it is in the table.
    pub fn state_of(&self, gid: Gid) -> (r: Option<TaskState>)
        requires
            self.wf(),
        ensures
            !has_gid(self.list@, gid) ==> r is None,
            has_gid(self.list@, gid) ==> r == Some(
                self.list@[index_of_gid(self.list@, gid)].inner.state,
            ),
    {
        let pos = self.position_of(gid);
        match pos {
            None => None,
            Some(i) => {
                proof {
                    lemma_index_of(self.list@, gid, i as int);
                }
                Some(self.list[i].inner.state)
            },
        }
    }

    /// The URL of the task `gid`, if it is in the table.
    pub fn url_of(&self, gid: Gid) -> (r: Option<String>)
        requires
            self.wf(),
        ensures
            !has_gid(self.list@, gid) ==> r is None,
            has_gid(self.list@, gid) ==> (r matches Some(u) && u@ == self.list@[index_of_gid(
                self.list@,
                gid,
            )].inner.url@),
    {
        let pos = self.position_of(gid);
        match pos {
            None => None,
            Some(i) => {
                proof {
                    lemma_index_of(self.list@, gid, i as int);
                }
                Some(self.list[i].inner.url.clone())
            },
        }
    }

    /// The stored destination path of the task `gid`: `None` for an
    /// unknown task, `Some(None)` while no path has been resolved yet.
    pub fn path_of(&self, gid: Gid) -> (r: Option<Option<String>>)
        requires
            self.wf(),
        ensures
            !has_gid(self.list@, gid) ==> r is None,
            has_gid(self.list@, gid) ==> (r matches Some(p) && p.deep_view() == self.list@[
                index_of_gid(self.list@, gid)
            ].inner.path.deep_view()),
    {
        let pos = self.position_of(gid);
        match pos {
            None => None,
            Some(i) => {
                proof {
                    lemma_index_of(self.list@, gid, i as int);
                }
                match &self.list[i].inner.path {
                    Some(p) => Some(Some(p.clone())),
                    None => Some(None),
                }
            },
        }
    }

    /// A copy of the progress set of the task `gid`, if it is in the table.
    pub fn progress_of(&self, gid: Gid) -> (r: Option<Vec<ByteRange>>)
        requires
            self.wf(),
        ensures
            !has_gid(self.list@, gid) ==> r is None,
            has_gid(self.list@, gid) ==> (r matches Some(v) && v@ == self.list@[index_of_gid(
                self.list@,
                gid,
            )].inner.push_progress@),
    {
        let pos = self.position_of(gid);
        match pos {
            None => None,
            Some(i) => {
                proof {
                    lemma_index_of(self.list@, gid, i as int);
                }
                let src = &self.list[i].inner.push_progress;
                let n = src.len();
                let mut out: Vec<ByteRange> = Vec::new();
                let mut j: usize = 0;
                while j < n
                    invariant
                        j <= n,
                        n == src@.len(),
                        out@ == src@.take(j as int),
                    decreases n - j,
                {
                    out.push(src[j]);
                    proof {
                        assert(out@ =~= src@.take(j + 1));
                    }
                    j = j + 1;
                }
                proof {
                    assert(src@.take(n as int) =~= src@);
                }
                Some(out)
            },
        }
    }

    /// Begin a run of the task `gid`: it enters `Connecting`, retaining its
    /// discovered info, path and progress; its effective configuration
    /// comes back for the caller to build the client from. `None` for an
    /// unknown identifier.
    pub fn start_task(&mut self, gid: Gid) -> (r: Option<DownloadConfig>)
        requires
            old(self).wf(),
        ensures
            final(self).wf(),
            final(self).parallelism == old(self).parallelism,
            final(self).config == old(self).config,
            !has_gid(old(self).list@, gid) ==> r is None && final(self).list@ == old(self).list@,
            has_gid(old(self).list@, gid) ==> ({
                let i = index_of_gid(old(self).list@, gid);
                let e = old(self).list@[i];
                &&& final(self).list@ == old(self).list@.update(i, final(self).list@[i])
                &&& final(self).list@[i].gid == gid
                &&& final(self).list@[i].inner.state == TaskState::Connecting
                &&& final(self).list@[i].inner.info == e.inner.info
                &&& final(self).list@[i].inner.path == e.inner.path
                &&& final(self).list@[i].inner.push_progress == e.inner.push_progress
                &&& (r matches Some(cfg) && {
                    &&& cfg@ == view_inherit(
                        view_inherit(e.inner.config@, old(self).config@),
                        default_view(),
                    )
                    &&& is_complete(cfg@)
                    &&& is_positive(cfg@)
                })
            }),
    {
        let pos = self.position_of(gid);
        match pos {
            None => None,
            Some(i) => {
                proof {
                    lemma_index_of(self.list@, gid, i as int);
                }
                let ghost pre = self.list@;
                let global = self.config.duplicate();
                let cfg = self.list[i].run(&global);
                proof {
                    lemma_wf_update(pre, self.list@, i as int);
                    assert(self.list@ =~= pre.update(i as int, self.list@[i as int]));
                }
                Some(cfg)
            },
        }
    }

    /// Hand the task `gid` its prefetch outcome; see
    /// [`DownloadEntryInner::on_prefetch`] for the file-identity guard. The
    /// input is dropped if the task is not connecting (a stale completion).
    pub fn task_prefetched(&mut self, gid: Gid, outcome: Result<UrlInfo, String>) -> (r: Option<
        DownloadEvent,
    >)
        requires
            old(self).wf(),
        ensures
            final(self).wf(),
            final(self).parallelism == old(self).parallelism,
            final(self).config == old(self).config,
            !has_gid(old(self).list@, gid) ==> r is None && final(self).list@ == old(self).list@,
            has_gid(old(self).list@, gid) ==> ({
                let i = index_of_gid(old(self).list@, gid);
                let e = old(self).list@[i];
                if e.inner.state != TaskState::Connecting {
                    r is None && final(self).list@ == old(self).list@
                } else {
                    &&& final(self).list@ == old(self).list@.update(i, final(self).list@[i])
                    &&& final(self).list@[i].gid == gid
                    &&& final(self).list@[i].inner.path == e.inner.path
                    &&& (outcome matches Ok(info) ==> (if crate::entry::drifted(
                        e.inner.info,
                        info@,
                    ) {
                        &&& final(self).list@[i].inner.state == TaskState::Failed
                        &&& final(self).list@[i].inner.info == e.inner.info
                        &&& final(self).list@[i].inner.push_progress == e.inner.push_progress
                        &&& r == Some(DownloadEvent::NoSameFile)
                    } else {
                        &&& final(self).list@[i].inner.state == TaskState::Resolving
                        &&& (final(self).list@[i].inner.info matches Some(ni) && ni@ == info@)
                        &&& final(self).list@[i].inner.push_progress == e.inner.push_progress
                    }))
                    &&& (outcome matches Err(m) ==> final(self).list@[i].inner.state
                        == TaskState::Failed && final(self).list@[i].inner.info == e.inner.info
                        && final(self).list@[i].inner.push_progress == e.inner.push_progress)
                    &&& r is Some
                }
            }),
    {
        let pos = self.position_of(gid);
        match pos {
            None => None,
            Some(i) => {
                proof {
                    lemma_index_of(self.list@, gid, i as int);
                }
                let connecting = match self.list[i].inner.state {
                    TaskState::Connecting => true,
                    _ => false,
                };
                if !connecting {
                    return None;
                }
                let ghost pre = self.list@;
                let ev = self.list[i].inner.on_prefetch(outcome);
                proof {
                    lemma_wf_update(pre, self.list@, i as int);
                    assert(self.list@ =~= pre.update(i as int, self.list@[i as int]));
                }
                Some(ev)
            },
        }
    }

    /// Hand the task `gid` its path outcome; a path resolved on an earlier
    /// run sticks. Dropped unless the task is resolving.
    pub fn task_path(&mut self, gid: Gid, outcome: Result<String, String>) -> (r: Option<
        DownloadEvent,
    >)
        requires
            old(self).wf(),
        ensures
            final(self).wf(),
            final(self).parallelism == old(self).parallelism,
            final(self).config == old(self).config,
            !has_gid(old(self).list@, gid) ==> r is None && final(self).list@ == old(self).list@,
            has_gid(old(self).list@, gid) ==> ({
                let i = index_of_gid(old(self).list@, gid);
                let e = old(self).list@[i];
                if e.inner.state != TaskState::Resolving {
                    r is None && final(self).list@ == old(self).list@
                } else {
                    &&& final(self).list@ == old(self).list@.update(i, final(self).list@[i])
                    &&& final(self).list@[i].gid == gid
                    &&& final(self).list@[i].inner.info == e.inner.info
                    &&& final(self).list@[i].inner.push_progress == e.inner.push_progress
                    &&& (e.inner.path matches Some(p) ==> final(self).list@[i].inner.state
                        == TaskState::Opening && final(self).list@[i].inner.path == e.inner.path)
                    &&& (outcome matches Ok(p) ==> (e.inner.path is None ==> {
                        &&& final(self).list@[i].inner.state == TaskState::Opening
                        &&& (final(self).list@[i].inner.path matches Some(sp) && sp@ == p@)
                    }))
                    &&& (outcome matches Err(m) ==> (e.inner.path is None ==> {
                        &&& final(self).list@[i].inner.state == TaskState::Failed
                        &&& final(self).list@[i].inner.path is None
                    }))
                    &&& r is Some
                }
            }),
    {
        let pos = self.position_of(gid);
        match pos {
            None => None,
            Some(i) => {
                proof {
                    lemma_index_of(self.list@, gid, i as int);
                }
                let resolving = match self.list[i].inner.state {
                    TaskState::Resolving => true,
                    _ => false,
                };
                if !resolving {
                    return None;
                }
                let ghost pre = self.list@;
                let ev = self.list[i].inner.on_path(outcome);
                proof {
                    lemma_wf_update(pre, self.list@, i as int);
                    assert(self.list@ =~= pre.update(i as int, self.list@[i as int]));
                }
                Some(ev)
            },
        }
    }

    /// Report a fatal build error (client, puller, or pusher) for the task
    /// `gid`: it fails, keeping info, path and progress for a re-run.
    pub fn task_build_error(&mut self, gid: Gid, failure: BuildFailure, message: String) -> (r:
        Option<DownloadEvent>)
        requires
            old(self).wf(),
        ensures
            final(self).wf(),
            final(self).parallelism == old(self).parallelism,
            final(self).config == old(self).config,
            !has_gid(old(self).list@, gid) ==> r is None && final(self).list@ == old(self).list@,
            has_gid(old(self).list@, gid) ==> ({
                let i = index_of_gid(old(self).list@, gid);
                let e = old(self).list@[i];
                &&& final(self).list@ == old(self).list@.update(i, final(self).list@[i])
                &&& final(self).list@[i].gid == gid
                &&& final(self).list@[i].inner.state == TaskState::Failed
                &&& final(self).list@[i].inner.info == e.inner.info
                &&& final(self).list@[i].inner.path == e.inner.path
                &&& final(self).list@[i].inner.push_progress == e.inner.push_progress
                &&& (failure == BuildFailure::Client ==> r == Some(
                    DownloadEvent::GetHttpClientError(message),
                ))
                &&& (failure == BuildFailure::Puller ==> r == Some(
                    DownloadEvent::CreatePullerError(message),
                ))
                &&& (failure == BuildFailure::Pusher ==> r == Some(
                    DownloadEvent::CreatePusherError(message),
                ))
            }),
    {
        let pos = self.position_of(gid);
        match pos {
            None => None,
            Some(i) => {
                proof {
                    lemma_index_of(self.list@, gid, i as int);
                }
                let ghost pre = self.list@;
                self.list[i].inner.state = TaskState::Failed;
                let ev = match failure {
                    BuildFailure::Client => DownloadEvent::GetHttpClientError(message),
                    BuildFailure::Puller => DownloadEvent::CreatePullerError(message),
                    BuildFailure::Pusher => DownloadEvent::CreatePusherError(message),
                };
                proof {
                    lemma_wf_update(pre, self.list@, i as int);
                    assert(self.list@ =~= pre.update(i as int, self.list@[i as int]));
                }
                Some(ev)
            },
        }
    }

    /// Everything is open for the task `gid`: move it to `Downloading` and
    /// get the engine plan; see [`DownloadEntryInner::start_engine`] —
    /// the multi-range plan carries exactly the remaining work. Dropped
    /// unless the task is opening with its info discovered.
    pub fn task_open(&mut self, gid: Gid, cfg: &DownloadConfig) -> (r: Option<EnginePlan>)
        requires
            old(self).wf(),
            is_complete(cfg@),
            is_positive(cfg@),
        ensures
            final(self).wf(),
            final(self).parallelism == old(self).parallelism,
            final(self).config == old(self).config,
            !has_gid(old(self).list@, gid) ==> r is None && final(self).list@ == old(self).list@,
            has_gid(old(self).list@, gid) ==> ({
                let i = index_of_gid(old(self).list@, gid);
                let e = old(self).list@[i];
                if !(e.inner.state == TaskState::Opening && e.inner.info is Some) {
                    r is None && final(self).list@ == old(self).list@
                } else {
                    &&& final(self).list@ == old(self).list@.update(i, final(self).list@[i])
                    &&& final(self).list@[i].gid == gid
                    &&& final(self).list@[i].inner.state == TaskState::Downloading
                    &&& final(self).list@[i].inner.info == e.inner.info
                    &&& final(self).list@[i].inner.path == e.inner.path
                    &&& final(self).list@[i].inner.push_progress == e.inner.push_progress
                    &&& (e.inner.info matches Some(info) ==> (if info.fast_download {
                        r matches Some(plan) && plan matches EnginePlan::Multi {
                            download_chunks,
                            concurrent,
                            min_chunk_size,
                            retry_gap_ms,
                            push_queue_cap,
                        } && {
                            &&& is_normalized(download_chunks@)
                            &&& covered(download_chunks@) == interval(info.size).difference(
                                covered(e.inner.push_progress@),
                            )
                            &&& Some(concurrent) == cfg@.threads
                            &&& Some(min_chunk_size) == cfg@.min_chunk_size
                            &&& Some(retry_gap_ms) == cfg@.retry_gap_ms
                            &&& Some(push_queue_cap) == cfg@.write_queue_cap
                        }
                    } else {
                        r matches Some(plan) && plan matches EnginePlan::Single {
                            retry_gap_ms,
                            push_queue_cap,
                        } && {
                            &&& Some(retry_gap_ms) == cfg@.retry_gap_ms
                            &&& Some(push_queue_cap) == cfg@.write_queue_cap
                        }
                    }))
                }
            }),
    {
        let pos = self.position_of(gid);
        match pos {
            None => None,
            Some(i) => {
                proof {
                    lemma_index_of(self.list@, gid, i as int);
                }
                let opening = match self.list[i].inner.state {
                    TaskState::Opening => true,
                    _ => false,
                };
                let has_info = self.list[i].inner.info.is_some();
                if !opening || !has_info {
                    return None;
                }
                let ghost pre = self.list@;
                let plan = self.list[i].inner.start_engine(cfg);
                proof {
                    lemma_wf_update(pre, self.list@, i as int);
                    assert(self.list@ =~= pre.update(i as int, self.list@[i as int]));
                }
                Some(plan)
            },
        }
    }

    /// Hand the task `gid` one engine event; progress reports are merged at
    /// once so the progress set only grows — see
    /// [`DownloadEntryInner::on_engine_event`]. Dropped unless the task is
    /// downloading.
    pub fn task_engine_event(&mut self, gid: Gid, event: EngineEvent) -> (r: Option<DownloadEvent>)
        requires
            old(self).wf(),
        ensures
            final(self).wf(),
            final(self).parallelism == old(self).parallelism,
            final(self).config == old(self).config,
            !has_gid(old(self).list@, gid) ==> r is None && final(self).list@ == old(self).list@,
            has_gid(old(self).list@, gid) ==> ({
                let i = index_of_gid(old(self).list@, gid);
                let e = old(self).list@[i];
                if !(e.inner.state == TaskState::Downloading && e.inner.info is Some) {
                    r is None && final(self).list@ == old(self).list@
                } else {
                    &&& final(self).list@ == old(self).list@.update(i, final(self).list@[i])
                    &&& final(self).list@[i].gid == gid
                    &&& final(self).list@[i].inner.info == e.inner.info
                    &&& final(self).list@[i].inner.path == e.inner.path
                    &&& r == Some(DownloadEvent::Download(event))
                    &&& (event matches EngineEvent::PushProgress(id, rg) ==> (e.inner.info
                        matches Some(info) && {
                        &&& final(self).list@[i].inner.state == TaskState::Downloading
                        &&& covered(final(self).list@[i].inner.push_progress@) == covered(
                            e.inner.push_progress@,
                        ).union(range_set(rg).intersect(interval(info.size)))
                        &&& covered(e.inner.push_progress@).subset_of(
                            covered(final(self).list@[i].inner.push_progress@),
                        )
                    }))
                    &&& (event matches EngineEvent::Finished ==> final(self).list@[i].inner.state
                        == TaskState::Done && final(self).list@[i].inner.push_progress
                        == e.inner.push_progress)
                    &&& (event matches EngineEvent::Failed(m) ==> final(self).list@[i].inner.state
                        == TaskState::Failed && final(self).list@[i].inner.push_progress
                        == e.inner.push_progress)
                    &&& ((event is Connected || event is Retry) ==> {
                        &&& final(self).list@[i].inner.state == TaskState::Downloading
                        &&& final(self).list@[i].inner.push_progress == e.inner.push_progress
                    })
                }
            }),
    {
        let pos = self.position_of(gid);
        match pos {
            None => None,
            Some(i) => {
                proof {
                    lemma_index_of(self.list@, gid, i as int);
                }
                let downloading = match self.list[i].inner.state {
                    TaskState::Downloading => true,
                    _ => false,
                };
                let has_info = self.list[i].inner.info.is_some();
                if !downloading || !has_info {
                    return None;
                }
                let ghost pre = self.list@;
                let ev = self.list[i].inner.on_engine_event(event);
                proof {
                    lemma_wf_update(pre, self.list@, i as int);
                    assert(self.list@ =~= pre.update(i as int, self.list@[i as int]));
                }
                Some(ev)
            },
        }
    }

    /// Raise or lower the parallelism ceiling, then rebalance.
    pub fn set_parallelism(&mut self, parallelism: usize) -> (actions: (Vec<Gid>, Vec<Gid>))
        requires
            old(self).wf(),
        ensures
            final(self).wf(),
            final(self).parallelism == parallelism,
            final(self).config == old(self).config,
            final(self).list@ == rebalanced(old(self).list@, parallelism as int),
            (actions.0@, actions.1@) == rebalance_actions(old(self).list@, parallelism as int),
            running_count(final(self).list@) <= parallelism,
    {
        self.parallelism = parallelism;
        self.run()
    }
}

} // verus!
