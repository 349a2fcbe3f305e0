//! Download configuration: a record of optional fields resolved by
//! inheritance, task-local values first, then the global configuration, then
//! the built-in defaults. Every field independently takes the first value
//! that is set.

use vstd::prelude::*;

verus! {

/// A partial download configuration. `None` means "not set here; ask the
/// parent". Durations are carried in milliseconds, header lines as
/// name/value pairs in order.
#[derive(Clone, Debug)]
pub struct DownloadConfig {
    pub threads: Option<usize>,
    pub proxy: Option<String>,
    pub headers: Option<Vec<(String, String)>>,
    pub accept_invalid_certs: Option<bool>,
    pub accept_invalid_hostnames: Option<bool>,
    pub multiplexing: Option<bool>,
    pub save_dir: Option<String>,
    pub write_queue_cap: Option<usize>,
    pub write_buffer_size: Option<usize>,
    pub retry_gap_ms: Option<u64>,
    pub min_chunk_size: Option<u64>,
}

/// Mathematical shape of a configuration: strings as character sequences.
#[verifier::ext_equal]
pub struct ConfigView {
    pub threads: Option<usize>,
    pub proxy: Option<Seq<char>>,
    pub headers: Option<Seq<(Seq<char>, Seq<char>)>>,
    pub accept_invalid_certs: Option<bool>,
    pub accept_invalid_hostnames: Option<bool>,
    pub multiplexing: Option<bool>,
    pub save_dir: Option<Seq<char>>,
    pub write_queue_cap: Option<usize>,
    pub write_buffer_size: Option<usize>,
    pub retry_gap_ms: Option<u64>,
    pub min_chunk_size: Option<u64>,
}

impl View for DownloadConfig {
    type V = ConfigView;

    open spec fn view(&self) -> ConfigView {
        ConfigView {
            threads: self.threads,
            proxy: self.proxy.deep_view(),
            headers: self.headers.deep_view(),
            accept_invalid_certs: self.accept_invalid_certs,
            accept_invalid_hostnames: self.accept_invalid_hostnames,
            multiplexing: self.multiplexing,
            save_dir: self.save_dir.deep_view(),
            write_queue_cap: self.write_queue_cap,
            write_buffer_size: self.write_buffer_size,
            retry_gap_ms: self.retry_gap_ms,
            min_chunk_size: self.min_chunk_size,
        }
    }
}

/// Per-field inheritance: a set child field wins, an unset one defers to the
/// parent.
pub open spec fn first_of<T>(child: Option<T>, parent: Option<T>) -> Option<T> {
    if child is Some {
        child
    } else {
        parent
    }
}

/// Field-wise inheritance over configuration views.
pub open spec fn view_inherit(c: ConfigView, p: ConfigView) -> ConfigView {
    ConfigView {
        threads: first_of(c.threads, p.threads),
        proxy: first_of(c.proxy, p.proxy),
        headers: first_of(c.headers, p.headers),
        accept_invalid_certs: first_of(c.accept_invalid_certs, p.accept_invalid_certs),
        accept_invalid_hostnames: first_of(c.accept_invalid_hostnames, p.accept_invalid_hostnames),
        multiplexing: first_of(c.multiplexing, p.multiplexing),
        save_dir: first_of(c.save_dir, p.save_dir),
        write_queue_cap: first_of(c.write_queue_cap, p.write_queue_cap),
        write_buffer_size: first_of(c.write_buffer_size, p.write_buffer_size),
        retry_gap_ms: first_of(c.retry_gap_ms, p.retry_gap_ms),
        min_chunk_size: first_of(c.min_chunk_size, p.min_chunk_size),
    }
}

/// The built-in defaults table.
pub open spec fn default_view() -> ConfigView {
    ConfigView {
        threads: Some(32usize),
        proxy: Some(Seq::<char>::empty()),
        headers: Some(Seq::<(Seq<char>, Seq<char>)>::empty()),
        accept_invalid_certs: Some(false),
        accept_invalid_hostnames: Some(false),
        multiplexing: Some(false),
        save_dir: Some(seq!['.']),
        write_queue_cap: Some(1024usize),
        write_buffer_size: Some(0x800000usize),
        retry_gap_ms: Some(500u64),
        min_chunk_size: Some(0x100000u64),
    }
}

/// Every field carries a value.
pub open spec fn is_complete(v: ConfigView) -> bool {
    &&& v.threads is Some
    &&& v.proxy is Some
    &&& v.headers is Some
    &&& v.accept_invalid_certs is Some
    &&& v.accept_invalid_hostnames is Some
    &&& v.multiplexing is Some
    &&& v.save_dir is Some
    &&& v.write_queue_cap is Some
    &&& v.write_buffer_size is Some
    &&& v.retry_gap_ms is Some
    &&& v.min_chunk_size is Some
}

/// The positive-integer fields really are positive wherever they are set.
pub open spec fn is_positive(v: ConfigView) -> bool {
    &&& (v.threads matches Some(t) ==> t >= 1)
    &&& (v.write_queue_cap matches Some(t) ==> t >= 1)
    &&& (v.write_buffer_size matches Some(t) ==> t >= 1)
    &&& (v.min_chunk_size matches Some(t) ==> t >= 1)
}

impl DownloadConfig {
    /// A configuration with nothing set: everything defers to the parent.
    pub fn empty() -> (r: DownloadConfig)
        ensures
            r@ == empty_view(),
    {
        let r = DownloadConfig {
            threads: None,
            proxy: None,
            headers: None,
            accept_invalid_certs: None,
            accept_invalid_hostnames: None,
            multiplexing: None,
            save_dir: None,
            write_queue_cap: None,
            write_buffer_size: None,
            retry_gap_ms: None,
            min_chunk_size: None,
        };
        proof {
            assert(r@ =~~= empty_view());
        }
        r
    }

    /// Per-field inheritance: a set field of `self` wins over `parent`.
    pub fn inherit(self, parent: DownloadConfig) -> (r: DownloadConfig)
        ensures
            r@ == view_inherit(self@, parent@),
    {
        let r = DownloadConfig {
            threads: if self.threads.is_some() {
                self.threads
            } else {
                parent.threads
            },
            proxy: if self.proxy.is_some() {
                self.proxy
            } else {
                parent.proxy
            },
            headers: if self.headers.is_some() {
                self.headers
            } else {
                parent.headers
            },
            accept_invalid_certs: if self.accept_invalid_certs.is_some() {
                self.accept_invalid_certs
            } else {
                parent.accept_invalid_certs
            },
            accept_invalid_hostnames: if self.accept_invalid_hostnames.is_some() {
                self.accept_invalid_hostnames
            } else {
                parent.accept_invalid_hostnames
            },
            multiplexing: if self.multiplexing.is_some() {
                self.multiplexing
            } else {
                parent.multiplexing
            },
            save_dir: if self.save_dir.is_some() {
                self.save_dir
            } else {
                parent.save_dir
            },
            write_queue_cap: if self.write_queue_cap.is_some() {
                self.write_queue_cap
            } else {
                parent.write_queue_cap
            },
            write_buffer_size: if self.write_buffer_size.is_some() {
                self.write_buffer_size
            } else {
                parent.write_buffer_size
            },
            retry_gap_ms: if self.retry_gap_ms.is_some() {
                self.retry_gap_ms
            } else {
                parent.retry_gap_ms
            },
            min_chunk_size: if self.min_chunk_size.is_some() {
                self.min_chunk_size
            } else {
                parent.min_chunk_size
            },
        };
        proof {
            assert(r@ =~~= view_inherit(self@, parent@));
        }
        r
    }

    /// A field-for-field copy whose view is the same.
    pub fn duplicate(&self) -> (r: DownloadConfig)
        ensures
            r@ == self@,
    {
        let r = DownloadConfig {
            threads: self.threads,
            proxy: clone_opt_string(&self.proxy),
            headers: clone_opt_headers(&self.headers),
            accept_invalid_certs: self.accept_invalid_certs,
            accept_invalid_hostnames: self.accept_invalid_hostnames,
            multiplexing: self.multiplexing,
            save_dir: clone_opt_string(&self.save_dir),
            write_queue_cap: self.write_queue_cap,
            write_buffer_size: self.write_buffer_size,
            retry_gap_ms: self.retry_gap_ms,
            min_chunk_size: self.min_chunk_size,
        };
        proof {
            assert(r@ =~~= self@);
        }
        r
    }
}

/// The view of a configuration with nothing set.
pub open spec fn empty_view() -> ConfigView {
    ConfigView {
        threads: None,
        proxy: None,
        headers: None,
        accept_invalid_certs: None,
        accept_invalid_hostnames: None,
        multiplexing: None,
        save_dir: None,
        write_queue_cap: None,
        write_buffer_size: None,
        retry_gap_ms: None,
        min_chunk_size: None,
    }
}

fn clone_opt_string(s: &Option<String>) -> (r: Option<String>)
    ensures
        r.deep_view() == s.deep_view(),
{
    match s {
        Some(x) => Some(x.clone()),
        None => None,
    }
}

fn clone_opt_headers(h: &Option<Vec<(String, String)>>) -> (r: Option<Vec<(String, String)>>)
    ensures
        r.deep_view() == h.deep_view(),
{
    match h {
        Some(v) => {
            let mut out: Vec<(String, String)> = Vec::new();
            let mut i: usize = 0;
            while i < v.len()
                invariant
                    i <= v@.len(),
                    out@.len() == i,
                    out.deep_view() == v.deep_view().take(i as int),
                decreases v@.len() - i,
            {
                let pair = (v[i].0.clone(), v[i].1.clone());
                let ghost pv = pair.deep_view();
                proof {
                    assert(pv == v@[i as int].deep_view());
                }
                out.push(pair);
                proof {
                    assert(out@[i as int].deep_view() == pv);
                    assert(out.deep_view() =~~= v.deep_view().take(i + 1));
                }
                i = i + 1;
            }
            proof {
                assert(v.deep_view().take(v@.len() as int) =~~= v.deep_view());
                assert(Some(out).deep_view() =~~= h.deep_view());
            }
            Some(out)
        },
        None => None,
    }
}

/// The built-in defaults: 32 threads, no proxy, no extra headers, strict
/// TLS, no multiplexing, the current directory, a 1024-entry write queue,
/// an 8 MiB write buffer, a 500 ms retry gap and a 1 MiB minimum chunk.
pub fn default_config() -> (r: DownloadConfig)
    ensures
        r@ == default_view(),
{
    let r = DownloadConfig {
        threads: Some(32),
        proxy: Some(String::new()),
        headers: Some(Vec::new()),
        accept_invalid_certs: Some(false),
        accept_invalid_hostnames: Some(false),
        multiplexing: Some(false),
        save_dir: Some(String::from_str(".")),
        write_queue_cap: Some(1024),
        write_buffer_size: Some(0x800000),
        retry_gap_ms: Some(500),
        min_chunk_size: Some(0x100000),
    };
    proof {
        reveal_strlit(".");
        assert(r@ =~~= default_view());
    }
    r
}

impl Default for DownloadConfig {
    /// The defaults table, as `Default` so callers can start from it.
    fn default() -> (r: DownloadConfig)
        ensures
            r@ == default_view(),
    {
        default_config()
    }
}

/// The fully resolved configuration for one task: task-local values first,
/// then the global configuration, then the defaults.
pub fn effective_config(task: &DownloadConfig, global: &DownloadConfig) -> (r: DownloadConfig)
    ensures
        r@ == view_inherit(view_inherit(task@, global@), default_view()),
        is_complete(r@),
{
    task.duplicate().inherit(global.duplicate()).inherit(default_config())
}

/// Each effective field is the first set value in (task, global, defaults).
pub open spec fn first_set<T>(task: Option<T>, global: Option<T>, defaults: Option<T>) -> Option<
    T,
> {
    if task is Some {
        task
    } else if global is Some {
        global
    } else {
        defaults
    }
}

/// Config inheritance resolves every recognized field to the first set
/// value in (task, global, defaults).
pub proof fn lemma_effective_first_set(t: ConfigView, g: ConfigView, d: ConfigView)
    ensures
        view_inherit(view_inherit(t, g), d).threads == first_set(t.threads, g.threads, d.threads),
        view_inherit(view_inherit(t, g), d).proxy == first_set(t.proxy, g.proxy, d.proxy),
        view_inherit(view_inherit(t, g), d).headers == first_set(t.headers, g.headers, d.headers),
        view_inherit(view_inherit(t, g), d).accept_invalid_certs == first_set(
            t.accept_invalid_certs,
            g.accept_invalid_certs,
            d.accept_invalid_certs,
        ),
        view_inherit(view_inherit(t, g), d).accept_invalid_hostnames == first_set(
            t.accept_invalid_hostnames,
            g.accept_invalid_hostnames,
            d.accept_invalid_hostnames,
        ),
        view_inherit(view_inherit(t, g), d).multiplexing == first_set(
            t.multiplexing,
            g.multiplexing,
            d.multiplexing,
        ),
        view_inherit(view_inherit(t, g), d).save_dir == first_set(
            t.save_dir,
            g.save_dir,
            d.save_dir,
        ),
        view_inherit(view_inherit(t, g), d).write_queue_cap == first_set(
            t.write_queue_cap,
            g.write_queue_cap,
            d.write_queue_cap,
        ),
        view_inherit(view_inherit(t, g), d).write_buffer_size == first_set(
            t.write_buffer_size,
            g.write_buffer_size,
            d.write_buffer_size,
        ),
        view_inherit(view_inherit(t, g), d).retry_gap_ms == first_set(
            t.retry_gap_ms,
            g.retry_gap_ms,
            d.retry_gap_ms,
        ),
        view_inherit(view_inherit(t, g), d).min_chunk_size == first_set(
            t.min_chunk_size,
            g.min_chunk_size,
            d.min_chunk_size,
        ),
{
}

/// Inheritance keeps the positive-integer fields positive.
pub proof fn lemma_inherit_positive(c: ConfigView, p: ConfigView)
    requires
        is_positive(c),
        is_positive(p),
    ensures
        is_positive(view_inherit(c, p)),
{
}

/// Config inheritance is associative: chained inheritance yields the same
/// result regardless of grouping.
pub proof fn lemma_inherit_assoc(a: ConfigView, b: ConfigView, c: ConfigView)
    ensures
        view_inherit(view_inherit(a, b), c) == view_inherit(a, view_inherit(b, c)),
{
    assert(view_inherit(view_inherit(a, b), c) =~~= view_inherit(a, view_inherit(b, c)));
}

} // verus!
