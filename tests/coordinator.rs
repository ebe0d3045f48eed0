use gen_audiobook::commands::{file_exists_answer, file_exists_command, get_batch, put_batch};
use gen_audiobook::config::{WorkerConfig, WorkerDefaults, WorkersConfig};
use gen_audiobook::pool::WorkerPool;
use gen_audiobook::protocol::{
    format_job_id, parse_chapter_from_job_id, parse_chunk_from_job_id, JobStatus, TtsJob,
    TtsJobOptions, TtsResult, WorkerStatus, PROTOCOL_VERSION,
};
use gen_audiobook::reporting::create_jobs;
use gen_audiobook::scheduler::{JobScheduler, ResultAction};
use gen_audiobook::transport::SshConnection;

fn ready_pool(workers: Vec<WorkerConfig>) -> WorkerPool {
    let config = WorkersConfig { defaults: WorkerDefaults::default(), workers };
    let mut pool = WorkerPool::new(&config);
    for w in pool.workers.iter_mut() {
        w.mark_connected();
        w.set_status(WorkerStatus::ready("cuda", 1000));
    }
    pool
}

fn job(chapter: usize, chunk: usize) -> TtsJob {
    TtsJob::new("sess", chapter, chunk, "text", TtsJobOptions::default())
}

#[test]
fn test_worker_config_new() {
    let config = WorkerConfig::new("test", "192.168.1.1", "ubuntu");
    assert_eq!(config.name, "test");
    assert_eq!(config.host, "192.168.1.1");
    assert_eq!(config.user, "ubuntu");
    assert_eq!(config.port, 22);
}

#[test]
fn test_worker_config_builder() {
    let config = WorkerConfig::new("test", "example.com", "user")
        .with_port(2222)
        .with_ssh_key("~/.ssh/id_ed25519")
        .with_priority(2);

    assert_eq!(config.port, 2222);
    assert_eq!(config.ssh_key, Some("~/.ssh/id_ed25519".to_string()));
    assert_eq!(config.priority, 2);
}

#[test]
fn test_expanded_ssh_key() {
    let config = WorkerConfig::new("test", "host", "user").with_ssh_key("~/.ssh/test_key");

    let expanded = config.expanded_ssh_key().unwrap();
    assert!(expanded.contains(".ssh/test_key"));
    assert!(!expanded.starts_with("~"));
}

#[test]
fn test_workers_config_add_remove() {
    let mut config = WorkersConfig::default();

    config.add_worker(WorkerConfig::new("worker1", "host1", "user1"));
    assert_eq!(config.workers.len(), 1);

    config.add_worker(WorkerConfig::new("worker2", "host2", "user2"));
    assert_eq!(config.workers.len(), 2);

    config.add_worker(WorkerConfig::new("worker1", "newhost", "newuser"));
    assert_eq!(config.workers.len(), 2);
    assert_eq!(config.get_worker("worker1").unwrap().host, "newhost");

    assert!(config.remove_worker("worker1"));
    assert_eq!(config.workers.len(), 1);
    assert!(!config.remove_worker("worker1"));
}

#[test]
fn test_pool_creation() {
    let config = WorkersConfig {
        defaults: WorkerDefaults::default(),
        workers: vec![
            WorkerConfig::new("worker1", "host1", "user1"),
            WorkerConfig::new("worker2", "host2", "user2"),
        ],
    };

    let pool = WorkerPool::new(&config);
    assert_eq!(pool.len(), 2);
}

#[test]
fn test_pool_status() {
    let config = WorkersConfig {
        defaults: WorkerDefaults::default(),
        workers: vec![WorkerConfig::new("worker1", "host1", "user1")],
    };

    let pool = WorkerPool::new(&config);
    let status = pool.status_summary();
    assert_eq!(status.total, 1);
    assert_eq!(status.connected, 0);
    assert_eq!(status.ready, 0);
}

#[test]
fn test_parse_job_id() {
    let job_id = "sess123_ch001_ck0042";
    assert_eq!(parse_chapter_from_job_id(job_id), Some(1));
    assert_eq!(parse_chunk_from_job_id(job_id), Some(42));
}

#[test]
fn test_create_jobs() {
    let chunks = vec![
        (0, 0, "Hello".to_string()),
        (0, 1, "World".to_string()),
        (1, 0, "Chapter 2".to_string()),
    ];

    let jobs = create_jobs("test_session", &chunks, TtsJobOptions::default());
    assert_eq!(jobs.len(), 3);
    assert_eq!(jobs[0].chapter_id, 0);
    assert_eq!(jobs[0].chunk_id, 0);
    assert_eq!(jobs[2].chapter_id, 1);
}

#[test]
fn test_ssh_args() {
    let config = WorkerConfig::new("test", "example.com", "user")
        .with_port(2222)
        .with_ssh_key("~/.ssh/test_key");

    let conn = SshConnection::new(config, 30);
    let args = conn.ssh_args();

    assert!(args.contains(&"-p".to_string()));
    assert!(args.contains(&"2222".to_string()));
    assert!(args.contains(&"-i".to_string()));
}

#[test]
fn test_ssh_target() {
    let config = WorkerConfig::new("test", "192.168.1.1", "ubuntu");
    assert_eq!(config.ssh_target(), "ubuntu@192.168.1.1");
}

#[test]
fn ssh_args_default_port_and_timeout() {
    let conn = SshConnection::new(WorkerConfig::new("w", "h", "u"), 45);
    assert_eq!(
        conn.ssh_args(),
        vec![
            "-o",
            "BatchMode=yes",
            "-o",
            "StrictHostKeyChecking=accept-new",
            "-o",
            "ConnectTimeout=45"
        ]
    );
    let exec = conn.exec_args("gena worker status");
    assert_eq!(exec[exec.len() - 2], "u@h");
    assert_eq!(exec[exec.len() - 1], "gena worker status");
}

#[test]
fn test_job_id_format() {
    let job = TtsJob::new("abc123_20240115", 1, 42, "Hello world", TtsJobOptions::default());
    assert_eq!(job.job_id, "abc123_20240115_ch001_ck0042");
}

#[test]
fn test_protocol_version() {
    assert!(PROTOCOL_VERSION >= 1);
}

#[test]
fn test_worker_status() {
    let status = WorkerStatus::ready("cuda", 50000);
    assert!(status.ready);
    assert_eq!(status.device, "cuda");
}

#[test]
fn job_id_round_trip_session_with_underscores() {
    let id = format_job_id("my_ch_book_ck", 7, 12345);
    assert_eq!(id, "my_ch_book_ck_ch007_ck12345");
    assert_eq!(parse_chapter_from_job_id(&id), Some(7));
    assert_eq!(parse_chunk_from_job_id(&id), Some(12345));
}

#[test]
fn job_id_parse_rejects_malformed() {
    assert_eq!(parse_chunk_from_job_id("nounderscore"), None);
    assert_eq!(parse_chapter_from_job_id("sess_ck0001"), None);
    assert_eq!(parse_chunk_from_job_id("sess_ch001_ckx1"), None);
    assert_eq!(parse_chunk_from_job_id("sess_ch001_ck"), None);
}

#[test]
fn options_are_clamped_into_range() {
    let o = TtsJobOptions {
        exaggeration_milli: 10000,
        cfg_milli: 5000,
        temperature_milli: 10,
        voice_ref_hash: None,
    }
    .clamped();
    assert_eq!(o.exaggeration_milli, 2000);
    assert_eq!(o.cfg_milli, 1000);
    assert_eq!(o.temperature_milli, 50);
}

#[test]
fn result_constructors() {
    let r = TtsResult::timeout("j");
    assert_eq!(r.status, JobStatus::Timeout);
    assert_eq!(r.error.as_deref(), Some("Job timed out"));
    let f = TtsResult::failure("j", "boom");
    assert_eq!(f.status, JobStatus::Failed);
    assert_eq!(JobStatus::Completed.as_str(), "completed");
}

#[test]
fn pool_prefers_priority_then_load() {
    let w1 = WorkerConfig::new("w1", "h1", "u").with_priority(1);
    let w2 = WorkerConfig::new("w2", "h2", "u").with_priority(2);
    let pool = ready_pool(vec![w2, w1]);
    let none: Vec<String> = vec![];
    assert_eq!(pool.get_available_worker(&none).unwrap().name(), "w1");
    let busy = vec!["w1".to_string()];
    assert_eq!(pool.get_available_worker(&busy).unwrap().name(), "w2");
    let both = vec!["w1".to_string(), "w2".to_string()];
    assert!(pool.get_available_worker(&both).is_none());
}

#[test]
fn pool_ties_break_by_name_deterministically() {
    let a = ready_pool(vec![WorkerConfig::new("b", "h", "u"), WorkerConfig::new("a", "h", "u")]);
    let b = ready_pool(vec![WorkerConfig::new("b", "h", "u"), WorkerConfig::new("a", "h", "u")]);
    let none: Vec<String> = vec![];
    assert_eq!(a.get_available_worker(&none).unwrap().name(), "a");
    assert_eq!(a.select_worker(&none), b.select_worker(&none));
}

#[test]
fn scheduler_pool_preference_scenario() {
    let w1 = WorkerConfig::new("w1", "h1", "u").with_priority(1);
    let w2 = WorkerConfig::new("w2", "h2", "u").with_priority(2);
    let mut s = JobScheduler::new(ready_pool(vec![w1, w2]), "/tmp/out".to_string());
    s.enqueue(vec![job(0, 0), job(0, 1), job(0, 2)]);

    let d1 = s.dispatch_next().unwrap();
    assert_eq!(d1.worker_name, "w1");
    let d2 = s.dispatch_next().unwrap();
    assert_eq!(d2.worker_name, "w2");
    assert!(s.dispatch_next().is_none());

    let done = TtsResult::success(&d1.job.job_id, 10, 10, "/remote/a.wav");
    match s.handle_result("w1", done) {
        ResultAction::Terminal { download: Some((remote, local)) } => {
            assert_eq!(remote, "/remote/a.wav");
            assert!(local.ends_with("sess_ch000_ck0000.wav"));
        }
        other => panic!("unexpected {:?}", other),
    }
    let d3 = s.dispatch_next().unwrap();
    assert_eq!(d3.worker_name, "w1");
    assert_eq!(d3.job.chunk_id, 2);
}

#[test]
fn scheduler_retry_budget_scenario() {
    let mut s = JobScheduler::new(ready_pool(vec![WorkerConfig::new("w", "h", "u")]), "/tmp".to_string());
    s.enqueue(vec![job(0, 0)]);
    let mut dispatches = 0;
    loop {
        while s.promote_failed() {}
        let d = match s.dispatch_next() {
            Some(d) => d,
            None => break,
        };
        dispatches += 1;
        let msg = format!("failure {}", dispatches);
        let _ = s.handle_result("w", TtsResult::failure(&d.job.job_id, &msg));
        if s.is_finished() {
            break;
        }
    }
    assert_eq!(dispatches, 3);
    assert!(s.is_finished());
    assert_eq!(s.completed.len(), 1);
    assert_eq!(s.completed[0].error.as_deref(), Some("failure 3"));
}

#[test]
fn scheduler_empty_queue_finishes_at_once() {
    let s = JobScheduler::new(ready_pool(vec![WorkerConfig::new("w", "h", "u")]), "/tmp".to_string());
    assert!(s.is_finished());
    assert!(s.completed.is_empty());
}

#[test]
fn scheduler_does_not_dispatch_without_ready_workers() {
    let config = WorkersConfig {
        defaults: WorkerDefaults::default(),
        workers: vec![WorkerConfig::new("w", "h", "u")],
    };
    let mut s = JobScheduler::new(WorkerPool::new(&config), "/tmp".to_string());
    s.enqueue(vec![job(0, 0)]);
    assert!(s.dispatch_next().is_none());
    assert!(!s.is_finished());
    assert_eq!(s.pending.len(), 1);
}

#[test]
fn scheduler_drops_duplicate_results() {
    let mut s = JobScheduler::new(ready_pool(vec![WorkerConfig::new("w", "h", "u")]), "/tmp".to_string());
    s.enqueue(vec![job(0, 0)]);
    let d = s.dispatch_next().unwrap();
    let r = TtsResult::success(&d.job.job_id, 1, 1, "/r.wav");
    assert!(matches!(s.handle_result("w", r), ResultAction::Terminal { .. }));
    let again = TtsResult::success(&d.job.job_id, 1, 1, "/r.wav");
    assert!(matches!(s.handle_result("w", again), ResultAction::Dropped));
    assert_eq!(s.completed.len(), 1);
    let progress = s.progress();
    assert_eq!(progress.completed, 1);
    assert_eq!(progress.workers.len(), 1);
    assert_eq!(progress.workers[0].avg_time_ms, 1);
}

#[test]
fn voice_upload_memoization_scenario() {
    let mut pool = ready_pool(vec![WorkerConfig::new("a", "h", "u"), WorkerConfig::new("b", "h", "u")]);
    let targets = pool.voice_upload_targets("0123456789abcdef");
    assert_eq!(targets, vec!["a".to_string(), "b".to_string()]);
    for t in &targets {
        pool.record_voice_uploaded(t, "0123456789abcdef");
    }
    assert!(pool.voice_upload_targets("0123456789abcdef").is_empty());
}

#[test]
fn workers_selected_by_name_list() {
    let mut config = WorkersConfig::default();
    config.add_worker(WorkerConfig::new("worker1", "h1", "u"));
    config.add_worker(WorkerConfig::new("worker2", "h2", "u"));
    let picked = config.get_workers_by_names(" worker2 , nope,worker1");
    let names: Vec<&str> = picked.iter().map(|w| w.name.as_str()).collect();
    assert_eq!(names, vec!["worker2", "worker1"]);
    assert!(config.get_workers_by_names("").is_empty());
}

#[test]
fn worker_mut_and_job_accounting() {
    let config = WorkersConfig {
        defaults: WorkerDefaults::default(),
        workers: vec![WorkerConfig::new("a", "h", "u")],
    };
    let mut pool = WorkerPool::new(&config);
    assert!(pool.get_worker_mut("zz").is_none());
    let w = pool.get_worker_mut("a").unwrap();
    w.mark_connected();
    w.set_status(WorkerStatus::ready("cpu", 1));
    w.admit_job("j1");
    w.admit_job("j1");
    assert_eq!(w.active_job_count(), 1);
    let defaults = WorkerDefaults::default();
    assert!(!w.can_accept_job(&defaults));
    w.release_job("j1");
    assert!(w.can_accept_job(&defaults));
    assert_eq!(pool.status_summary().ready, 1);
}

#[test]
fn copy_and_control_arguments() {
    let mut conn = SshConnection::new(WorkerConfig::new("w", "h", "u").with_port(2200), 30);
    assert_eq!(conn.sftp_args(), vec!["-b", "-", "-o", "BatchMode=yes", "-P", "2200", "u@h"]);
    assert_eq!(conn.control_socket_name(), "u_h_2200");
    assert!(conn.close_master_args().is_none());
    conn.set_control_socket("/tmp/s".to_string());
    assert_eq!(
        conn.close_master_args().unwrap(),
        vec!["-o", "ControlPath=/tmp/s", "-O", "exit", "u@h"]
    );
    let master = conn.control_master_args("/tmp/s");
    assert_eq!(master[3], "ControlPath=/tmp/s");
    assert_eq!(master[master.len() - 3], "-p");
    assert_eq!(put_batch("a.wav", "/r/a.wav"), "put a.wav /r/a.wav\nquit\n");
    assert_eq!(get_batch("/r/a.wav", "a.wav"), "get /r/a.wav a.wav\nquit\n");
    assert_eq!(file_exists_command("x"), "test -f x && echo yes || echo no");
    assert!(file_exists_answer("yes\n"));
    assert!(!file_exists_answer("no\n"));
}

#[test]
fn pool_with_named_workers_keeps_the_given_order() {
    let mut config = WorkersConfig::default();
    config.add_worker(WorkerConfig::new("worker1", "h1", "u"));
    config.add_worker(WorkerConfig::new("worker2", "h2", "u"));
    let names = vec!["worker2".to_string(), "nope".to_string(), "worker1".to_string()];
    let pool = WorkerPool::with_workers(&config, &names);
    assert_eq!(pool.len(), 2);
    assert_eq!(pool.workers[0].name(), "worker2");
    assert_eq!(pool.workers[1].name(), "worker1");
    assert_eq!(pool.available_workers().len(), 0);
}

#[test]
fn completed_results_update_worker_statistics() {
    let mut s = JobScheduler::new(ready_pool(vec![WorkerConfig::new("w", "h", "u")]), "/tmp".to_string());
    s.enqueue(vec![job(0, 0), job(0, 1)]);
    let d = s.dispatch_next().unwrap();
    let _ = s.handle_result("w", TtsResult::success(&d.job.job_id, 40, 1, "/r.wav"));
    assert_eq!(s.worker_stats.len(), 1);
    assert_eq!((s.worker_stats[0].completed, s.worker_stats[0].total_time_ms), (1, 40));
    let d = s.dispatch_next().unwrap();
    let _ = s.handle_result("w", TtsResult::success(&d.job.job_id, 20, 1, "/r.wav"));
    assert_eq!((s.worker_stats[0].completed, s.worker_stats[0].total_time_ms), (2, 60));
    let _ = s.handle_result("w", TtsResult::success(&d.job.job_id, 20, 1, "/r.wav"));
    assert_eq!((s.worker_stats[0].completed, s.worker_stats[0].total_time_ms), (2, 60));
}

#[test]
fn home_expansion_against_a_given_home() {
    use_home();
}

fn use_home() {
    let r = gen_audiobook::transport::expand_home_in("~/.ssh/key", Some("/home/me"));
    assert_eq!(r, "/home/me/.ssh/key");
    assert_eq!(gen_audiobook::transport::expand_home_in("~/.ssh/key", None), "~/.ssh/key");
    assert_eq!(gen_audiobook::transport::expand_home_in("/k", Some("/home/me")), "/k");
}

#[test]
fn voice_targets_are_distinct_and_lookup_takes_first() {
    let config = WorkersConfig {
        defaults: WorkerDefaults::default(),
        workers: vec![WorkerConfig::new("a", "h1", "u"), WorkerConfig::new("a", "h2", "u")],
    };
    let mut pool = WorkerPool::new(&config);
    for w in pool.workers.iter_mut() {
        w.mark_connected();
        w.set_status(WorkerStatus::ready("cpu", 1));
    }
    assert_eq!(pool.voice_upload_targets("hh"), vec!["a".to_string()]);
    assert_eq!(pool.get_worker("a").unwrap().config.host, "h1");
}
