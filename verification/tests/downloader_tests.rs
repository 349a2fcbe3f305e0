use server::Downloader;
use server::config::DownloadConfig;
use server::config::default_config;
use server::config::effective_config;
use server::entry::AddOptions;
use server::entry::DownloadEvent;
use server::entry::EngineEvent;
use server::entry::EnginePlan;
use server::entry::FileId;
use server::entry::TaskState;
use server::entry::UrlInfo;
use server::gid::Gid;
use server::manager::BuildFailure;
use server::progress::ByteRange;

fn opts(url: &str) -> AddOptions {
    AddOptions {
        url: url.to_string(),
        immediate_download: true,
        config: DownloadConfig::empty(),
    }
}

fn info(etag: &str, size: u64, fast_download: bool) -> UrlInfo {
    UrlInfo {
        file_id: FileId { etag: Some(etag.to_string()), last_modified: None },
        name: "file.bin".to_string(),
        size,
        fast_download,
    }
}

fn add(d: &mut Downloader, url: &str) -> Gid {
    d.add_task(opts(url)).unwrap().0
}

#[test]
fn defaults_match_the_table() {
    let c = default_config();
    assert_eq!(c.threads, Some(32));
    assert_eq!(c.proxy.as_deref(), Some(""));
    assert_eq!(c.headers.as_deref(), Some(&[][..]));
    assert_eq!(c.accept_invalid_certs, Some(false));
    assert_eq!(c.accept_invalid_hostnames, Some(false));
    assert_eq!(c.multiplexing, Some(false));
    assert_eq!(c.save_dir.as_deref(), Some("."));
    assert_eq!(c.write_queue_cap, Some(1024));
    assert_eq!(c.write_buffer_size, Some(8 * 1024 * 1024));
    assert_eq!(c.retry_gap_ms, Some(500));
    assert_eq!(c.min_chunk_size, Some(1024 * 1024));
}

#[test]
fn effective_takes_first_set_value() {
    let mut task = DownloadConfig::empty();
    task.threads = Some(4);
    let mut global = DownloadConfig::empty();
    global.threads = Some(8);
    global.proxy = Some("http://proxy".to_string());
    let eff = effective_config(&task, &global);
    assert_eq!(eff.threads, Some(4));
    assert_eq!(eff.proxy.as_deref(), Some("http://proxy"));
    assert_eq!(eff.write_queue_cap, Some(1024));
}

#[test]
fn inheritance_is_associative_on_values() {
    let mut a = DownloadConfig::empty();
    a.threads = Some(1);
    let mut b = DownloadConfig::empty();
    b.threads = Some(2);
    b.proxy = Some("p".to_string());
    let mut c = DownloadConfig::empty();
    c.proxy = Some("q".to_string());
    c.retry_gap_ms = Some(9);
    let left = a.duplicate().inherit(b.duplicate()).inherit(c.duplicate());
    let right = a.inherit(b.inherit(c));
    assert_eq!(left.threads, right.threads);
    assert_eq!(left.proxy, right.proxy);
    assert_eq!(left.retry_gap_ms, right.retry_gap_ms);
    assert_eq!(left.headers, right.headers);
}

#[test]
fn add_on_an_empty_table_always_succeeds() {
    let mut d = Downloader::new(default_config());
    assert!(d.add_task(opts("http://host/first")).is_ok());
}

#[test]
fn gids_stay_distinct_across_add_and_remove() {
    let mut d = Downloader::new(default_config());
    let mut gids: Vec<Gid> = Vec::new();
    for i in 0..8 {
        gids.push(add(&mut d, &format!("http://host/{}", i)));
    }
    let (removed, _) = d.remove(gids[3]);
    assert_eq!(removed.unwrap().gid, gids[3]);
    gids.remove(3);
    for i in 0..3 {
        gids.push(add(&mut d, &format!("http://host/again{}", i)));
    }
    for i in 0..gids.len() {
        for j in 0..gids.len() {
            if i != j {
                assert_ne!(gids[i], gids[j]);
            }
        }
    }
}

#[test]
fn parallelism_ceiling_holds() {
    let mut d = Downloader::new(default_config());
    d.set_parallelism(2);
    let g1 = add(&mut d, "http://host/1");
    let g2 = add(&mut d, "http://host/2");
    let g3 = add(&mut d, "http://host/3");
    assert_eq!(d.running_count(), 2);
    assert_eq!(d.state_of(g1), Some(TaskState::Connecting));
    assert_eq!(d.state_of(g2), Some(TaskState::Connecting));
    assert_eq!(d.state_of(g3), Some(TaskState::Idle));
    let (started, aborted) = d.set_parallelism(1);
    assert!(started.is_empty());
    assert_eq!(aborted, vec![g1]);
    assert_eq!(d.running_count(), 1);
    let (started, aborted) = d.set_parallelism(0);
    assert!(started.is_empty());
    assert_eq!(aborted, vec![g2]);
    assert_eq!(d.running_count(), 0);
}

#[test]
fn stop_demotes_to_tail_and_promotes_the_waiter() {
    let mut d = Downloader::new(default_config());
    d.set_parallelism(2);
    let g1 = add(&mut d, "http://host/1");
    let g2 = add(&mut d, "http://host/2");
    let g3 = add(&mut d, "http://host/3");
    assert_eq!(d.state_of(g3), Some(TaskState::Idle));
    let (started, aborted) = d.stop(g1);
    assert_eq!(started, vec![g3]);
    assert!(aborted.is_empty());
    assert_eq!(d.state_of(g2), Some(TaskState::Connecting));
    assert_eq!(d.state_of(g3), Some(TaskState::Connecting));
    assert_eq!(d.state_of(g1), Some(TaskState::Aborted));
    assert_eq!(d.running_count(), 2);
    assert_eq!(d.list.last().unwrap().gid, g1);
}

#[test]
fn happy_path_multi_range_pipeline() {
    let mut d = Downloader::new(default_config());
    d.set_parallelism(1);
    let g = add(&mut d, "http://host/big");
    let cfg = d.start_task(g).unwrap();
    assert_eq!(cfg.threads, Some(32));
    let ev = d.task_prefetched(g, Ok(info("etag-1", 10485760, true))).unwrap();
    assert!(matches!(ev, DownloadEvent::Prefetch(Ok(_))));
    assert_eq!(d.state_of(g), Some(TaskState::Resolving));
    let ev = d.task_path(g, Ok("./file.bin".to_string())).unwrap();
    assert!(matches!(ev, DownloadEvent::FilePath(Ok(_))));
    assert_eq!(d.state_of(g), Some(TaskState::Opening));
    let plan = d.task_open(g, &cfg).unwrap();
    match plan {
        EnginePlan::Multi { download_chunks, concurrent, min_chunk_size, retry_gap_ms, push_queue_cap } => {
            assert_eq!(download_chunks, vec![ByteRange::new(0, 10485760)]);
            assert_eq!(concurrent, 32);
            assert_eq!(min_chunk_size, 1048576);
            assert_eq!(retry_gap_ms, 500);
            assert_eq!(push_queue_cap, 1024);
        }
        EnginePlan::Single { .. } => panic!("range-capable server must use the multi engine"),
    }
    assert_eq!(d.state_of(g), Some(TaskState::Downloading));
    d.task_engine_event(g, EngineEvent::PushProgress(0, ByteRange::new(0, 2097152))).unwrap();
    d.task_engine_event(g, EngineEvent::PushProgress(1, ByteRange::new(2097152, 3145728))).unwrap();
    assert_eq!(d.progress_of(g).unwrap(), vec![ByteRange::new(0, 3145728)]);
    let ev = d.task_engine_event(g, EngineEvent::Finished).unwrap();
    assert!(matches!(ev, DownloadEvent::Download(EngineEvent::Finished)));
    assert_eq!(d.state_of(g), Some(TaskState::Done));
    assert_eq!(d.running_count(), 0);
}

#[test]
fn sequential_server_uses_the_single_engine() {
    let mut d = Downloader::new(default_config());
    let g = add(&mut d, "http://host/plain");
    let cfg = d.start_task(g).unwrap();
    d.task_prefetched(g, Ok(info("e", 1048576, false))).unwrap();
    d.task_path(g, Ok("./plain".to_string())).unwrap();
    let plan = d.task_open(g, &cfg).unwrap();
    assert!(matches!(plan, EnginePlan::Single { retry_gap_ms: 500, push_queue_cap: 1024 }));
}

#[test]
fn resume_downloads_exactly_the_remaining_work() {
    let mut d = Downloader::new(default_config());
    let g = add(&mut d, "http://host/big");
    let cfg = d.start_task(g).unwrap();
    d.task_prefetched(g, Ok(info("etag-1", 10485760, true))).unwrap();
    d.task_path(g, Ok("./file.bin".to_string())).unwrap();
    d.task_open(g, &cfg).unwrap();
    d.task_engine_event(g, EngineEvent::PushProgress(0, ByteRange::new(0, 3145728))).unwrap();
    d.stop(g);
    assert_eq!(d.state_of(g), Some(TaskState::Aborted));
    assert_eq!(d.progress_of(g).unwrap(), vec![ByteRange::new(0, 3145728)]);
    let cfg = d.start_task(g).unwrap();
    d.task_prefetched(g, Ok(info("etag-1", 10485760, true))).unwrap();
    d.task_path(g, Ok("ignored; the stored path sticks".to_string())).unwrap();
    let plan = d.task_open(g, &cfg).unwrap();
    match plan {
        EnginePlan::Multi { download_chunks, .. } => {
            assert_eq!(download_chunks, vec![ByteRange::new(3145728, 10485760)]);
        }
        EnginePlan::Single { .. } => panic!("range-capable server must use the multi engine"),
    }
}

#[test]
fn url_drift_fails_without_touching_progress() {
    let mut d = Downloader::new(default_config());
    let g = add(&mut d, "http://host/drift");
    let cfg = d.start_task(g).unwrap();
    d.task_prefetched(g, Ok(info("etag-1", 4194304, true))).unwrap();
    d.task_path(g, Ok("./drift.bin".to_string())).unwrap();
    d.task_open(g, &cfg).unwrap();
    d.task_engine_event(g, EngineEvent::PushProgress(0, ByteRange::new(0, 2097152))).unwrap();
    d.stop(g);
    d.start_task(g).unwrap();
    let ev = d.task_prefetched(g, Ok(info("etag-2", 4194304, true))).unwrap();
    assert!(matches!(ev, DownloadEvent::NoSameFile));
    assert_eq!(d.state_of(g), Some(TaskState::Failed));
    assert_eq!(d.progress_of(g).unwrap(), vec![ByteRange::new(0, 2097152)]);
}

#[test]
fn size_drift_also_trips_the_guard() {
    let mut d = Downloader::new(default_config());
    let g = add(&mut d, "http://host/drift");
    d.start_task(g).unwrap();
    d.task_prefetched(g, Ok(info("etag-1", 100, true))).unwrap();
    d.stop(g);
    d.start_task(g).unwrap();
    let ev = d.task_prefetched(g, Ok(info("etag-1", 200, true))).unwrap();
    assert!(matches!(ev, DownloadEvent::NoSameFile));
}

#[test]
fn prefetch_error_fails_the_task() {
    let mut d = Downloader::new(default_config());
    let g = add(&mut d, "http://host/x");
    d.start_task(g).unwrap();
    let ev = d.task_prefetched(g, Err("connection refused".to_string())).unwrap();
    assert!(matches!(ev, DownloadEvent::Prefetch(Err(_))));
    assert_eq!(d.state_of(g), Some(TaskState::Failed));
}

#[test]
fn path_error_fails_the_task() {
    let mut d = Downloader::new(default_config());
    let g = add(&mut d, "http://host/x");
    d.start_task(g).unwrap();
    d.task_prefetched(g, Ok(info("e", 10, true))).unwrap();
    let ev = d.task_path(g, Err("permission denied".to_string())).unwrap();
    assert!(matches!(ev, DownloadEvent::FilePath(Err(_))));
    assert_eq!(d.state_of(g), Some(TaskState::Failed));
}

#[test]
fn build_errors_fail_the_task_with_their_event() {
    let mut d = Downloader::new(default_config());
    let g = add(&mut d, "http://host/x");
    d.start_task(g).unwrap();
    let ev = d.task_build_error(g, BuildFailure::Client, "tls".to_string()).unwrap();
    assert!(matches!(ev, DownloadEvent::GetHttpClientError(_)));
    assert_eq!(d.state_of(g), Some(TaskState::Failed));
    d.start_task(g).unwrap();
    let ev = d.task_build_error(g, BuildFailure::Puller, "bad proxy".to_string()).unwrap();
    assert!(matches!(ev, DownloadEvent::CreatePullerError(_)));
    d.start_task(g).unwrap();
    let ev = d.task_build_error(g, BuildFailure::Pusher, "disk full".to_string()).unwrap();
    assert!(matches!(ev, DownloadEvent::CreatePusherError(_)));
}

#[test]
fn engine_failure_and_worker_events_pass_through() {
    let mut d = Downloader::new(default_config());
    let g = add(&mut d, "http://host/x");
    let cfg = d.start_task(g).unwrap();
    d.task_prefetched(g, Ok(info("e", 100, true))).unwrap();
    d.task_path(g, Ok("./x".to_string())).unwrap();
    d.task_open(g, &cfg).unwrap();
    let ev = d.task_engine_event(g, EngineEvent::Connected).unwrap();
    assert!(matches!(ev, DownloadEvent::Download(EngineEvent::Connected)));
    let ev = d.task_engine_event(g, EngineEvent::Retry("timeout".to_string())).unwrap();
    assert!(matches!(ev, DownloadEvent::Download(EngineEvent::Retry(_))));
    let ev = d.task_engine_event(g, EngineEvent::Failed("permanent".to_string())).unwrap();
    assert!(matches!(ev, DownloadEvent::Download(EngineEvent::Failed(_))));
    assert_eq!(d.state_of(g), Some(TaskState::Failed));
}

#[test]
fn stale_events_for_unknown_or_settled_tasks_are_dropped() {
    let mut d = Downloader::new(default_config());
    let g = add(&mut d, "http://host/x");
    let missing = Gid { hi: 1, lo: 2 };
    if missing != g {
        assert!(d.task_engine_event(missing, EngineEvent::Finished).is_none());
    }
    assert!(d.task_engine_event(g, EngineEvent::Finished).is_none());
    assert!(d.task_path(g, Ok("./x".to_string())).is_none());
}

#[test]
fn entries_compare_by_identifier() {
    let mut d = Downloader::new(default_config());
    add(&mut d, "http://host/1");
    add(&mut d, "http://host/2");
    assert!(d.list[0] == d.list[0]);
    assert!(d.list[0] != d.list[1]);
}

#[test]
fn remove_aborts_and_forgets_the_task() {
    let mut d = Downloader::new(default_config());
    d.set_parallelism(4);
    let g = add(&mut d, "http://host/x");
    assert_eq!(d.state_of(g), Some(TaskState::Connecting));
    let (removed, _) = d.remove(g);
    let e = removed.unwrap();
    assert_eq!(e.gid, g);
    assert_eq!(e.inner.state, TaskState::Aborted);
    assert!(d.state_of(g).is_none());
    assert_eq!(d.running_count(), 0);
    let (none, _) = d.remove(g);
    assert!(none.is_none());
}
