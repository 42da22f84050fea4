use adb_sync_tool::config::ConfigFile;
use adb_sync_tool::push::{
    keep_directories, needs_upload, push_directories, PushScan, PushStep, PushWriter,
};
use adb_sync_tool::pull::{PullScan, PullStep, PullWriter};
use adb_sync_tool::queue::{Queue, ScanError};

fn config(allow_hidden: bool) -> ConfigFile {
    ConfigFile {
        local_dir: "Music".to_string(),
        remote_dir: "/sdcard/Music".to_string(),
        allow_hidden,
    }
}

const DIRS: &str = "/home/u/Music\n/home/u/Music/rock\n/home/u/Music/.cache\n";

#[test]
fn push_skips_hidden_directories() {
    let dirs = push_directories(DIRS, false).unwrap();
    assert_eq!(dirs, vec!["/home/u/Music", "/home/u/Music/rock"]);
    let all = push_directories(DIRS, true).unwrap();
    assert_eq!(all.len(), 3);
}

#[test]
fn push_refuses_a_directory_without_name() {
    assert_eq!(
        push_directories("/home/u/Music\n/home/u/..\n", false),
        Err(ScanError::NoFileName("/home/u/..".to_string()))
    );
    assert!(push_directories("/home/u/Music\n/home/u/..\n", true).is_ok());
}

#[test]
fn push_scan_queues_new_and_changed_files() {
    let mut scan = PushScan::new(&config(false), "/home/u/Music", false, DIRS).unwrap();
    assert_eq!(
        scan.remote_path("/home/u/Music/rock/a.flac").unwrap(),
        "/sdcard/Music/rock/a.flac"
    );
    assert_eq!(
        scan.remote_path("/elsewhere/a.flac"),
        Err(ScanError::OutsideRoot("/elsewhere/a.flac".to_string()))
    );
    // Missing on the device: added.
    assert_eq!(scan.observe("/home/u/Music/rock/a.flac", 0, 50, 4096), Ok(PushStep::Added));
    // Hidden: skipped.
    assert_eq!(scan.observe("/home/u/Music/.b.flac", 0, 50, 10), Ok(PushStep::Skipped));
    // The device copy is older than the local file: changed.
    assert_eq!(scan.observe("/home/u/Music/c.flac", 100, 200, 2048), Ok(PushStep::Changed));
    // The device copy is as new as the local file, or newer: skipped.
    assert_eq!(scan.observe("/home/u/Music/d.flac", 100, 100, 1), Ok(PushStep::Skipped));
    assert_eq!(scan.observe("/home/u/Music/e.flac", 300, 100, 1), Ok(PushStep::Skipped));
    let q = scan.finish();
    assert_eq!(q.file_queue, vec!["/home/u/Music/rock/a.flac", "/home/u/Music/c.flac"]);
    assert_eq!(q.dir_queue, vec!["/home/u/Music", "/home/u/Music/rock"]);
    assert_eq!((q.add, q.change, q.del), (1, 1, 0));
    assert_eq!(q.total_size, 6);
    assert_eq!(q.add + q.change, q.file_queue.len() as u64);
}

#[test]
fn push_scan_with_ignored_changes_takes_only_missing_files() {
    let mut scan = PushScan::new(&config(true), "/home/u/Music", true, DIRS).unwrap();
    assert_eq!(scan.observe("/home/u/Music/.b.flac", 0, 5, 10), Ok(PushStep::Added));
    assert_eq!(scan.observe("/home/u/Music/c.flac", 100, 200, 2048), Ok(PushStep::Skipped));
    let q = scan.finish();
    assert_eq!((q.add, q.change), (1, 0));
    assert_eq!(q.total_size, 0);
}

#[test]
fn push_scan_reports_overflow_and_missing_names() {
    let mut scan = PushScan::new(&config(false), "/home/u/Music", false, "").unwrap();
    assert_eq!(scan.observe("/home/u/Music/a", 0, 1, u64::MAX), Ok(PushStep::Added));
    assert_eq!(scan.observe("/home/u/Music/b", 0, 1, 1), Err(ScanError::Overflow));
    assert_eq!(
        scan.observe("/home/u/Music/..", 0, 1, 1),
        Err(ScanError::NoFileName("/home/u/Music/..".to_string()))
    );
    let q = scan.finish();
    assert_eq!(q.file_queue.len(), 1);
}

#[test]
fn push_round_trip_uploads_what_was_queued() {
    let cfg = config(false);
    let mut scan = PushScan::new(&cfg, "/home/u/Music", false, "").unwrap();
    let files = [("/home/u/Music/a", 0u64, 10u64), ("/home/u/Music/b", 5, 9), ("/home/u/Music/c", 9, 9)];
    for (f, remote, local) in files {
        scan.observe(f, remote, local, 1).unwrap();
    }
    let q = scan.finish();
    let mut writer = PushWriter::new(&cfg, "/home/u/Music", &q);
    for (f, remote, local) in files {
        let queued = q.file_queue.iter().any(|x| x == f);
        let t = writer.target(f).unwrap();
        let sent = needs_upload(remote, local)
            && writer.announce(f, &t.relative, remote).unwrap().is_some();
        assert_eq!(queued, sent, "{}", f);
    }
}

#[test]
fn push_writer_announces_uploads() {
    let queue = Queue {
        dir_queue: vec![],
        file_queue: vec![],
        add: 1,
        change: 2,
        del: 0,
        total_size: 0,
    };
    let mut w = PushWriter::new(&config(false), "/home/u/Music", &queue);
    assert_eq!(
        w.dir_command("/home/u/Music/rock").unwrap(),
        "mkdir -p \"/sdcard/Music/rock\""
    );
    assert_eq!(
        w.dir_command("/tmp/x"),
        Err(ScanError::OutsideRoot("/tmp/x".to_string()))
    );
    let t = w.target("/home/u/Music/rock/a.flac").unwrap();
    assert_eq!(t.remote_path, "/sdcard/Music/rock/a.flac");
    assert_eq!(t.relative, "rock/a.flac");
    assert!(needs_upload(0, 5));
    assert!(!needs_upload(5, 5));
    let p = w.announce("/home/u/Music/rock/a.flac", &t.relative, 0).unwrap().unwrap();
    assert_eq!(p.tag, "[1/3]");
    assert_eq!(p.message, "Adding rock/a.flac");
    assert!(w.announce("/home/u/Music/.h", ".h", 3).unwrap().is_none());
    assert_eq!(
        w.announce("/home/u/Music/..", "..", 3),
        Err(ScanError::NoFileName("/home/u/Music/..".to_string()))
    );
    let p = w.announce("/home/u/Music/b", "b", 3).unwrap().unwrap();
    assert_eq!(p.tag, "[2/3]");
    assert_eq!(p.message, "Updating b");
}

#[test]
fn pull_scan_queues_and_groups_directories() {
    let mut scan = PullScan::new(&config(false), "/home/u/Music", false);
    let local = scan.local_path("/sdcard/Music/rock/a.flac").unwrap();
    assert_eq!(local, "/home/u/Music/rock/a.flac");
    assert_eq!(
        scan.local_path("/sdcard/Other/a"),
        Err(ScanError::OutsideRoot("/sdcard/Other/a".to_string()))
    );
    // Missing locally: new.
    assert_eq!(scan.observe("/sdcard/Music/rock/a.flac", 0, 0, 50), Ok(PullStep::NeedSize));
    assert_eq!(scan.record_size(3000), Ok(()));
    // Same directory again: not repeated.
    assert_eq!(
        scan.observe("/sdcard/Music/rock/b.flac", 10, 1000, 50),
        Ok(PullStep::NeedSize)
    );
    assert_eq!(scan.record_size(1024), Ok(()));
    // Hidden path: skipped.
    assert_eq!(
        scan.observe("/sdcard/Music/.thumbs/x", 0, 0, 50),
        Ok(PullStep::Skipped)
    );
    // Local copy newer: skipped.
    assert_eq!(
        scan.observe("/sdcard/Music/c", 60, 5, 50),
        Ok(PullStep::Skipped)
    );
    let q = scan.finish();
    assert_eq!(q.dir_queue, vec!["/home/u/Music/rock"]);
    assert_eq!(q.file_queue, vec!["/sdcard/Music/rock/a.flac", "/sdcard/Music/rock/b.flac"]);
    assert_eq!((q.add, q.change, q.del), (1, 1, 0));
    // 3000 + (1024 - 1000) = 3024 bytes, 2 KiB.
    assert_eq!(q.total_size, 2);
}

#[test]
fn pull_scan_size_can_shrink() {
    let mut scan = PullScan::new(&config(true), "/home/u/Music", false);
    assert_eq!(scan.observe("/sdcard/Music/.a", 10, 5000, 50), Ok(PullStep::NeedSize));
    assert_eq!(scan.record_size(100), Ok(()));
    let q = scan.finish();
    assert_eq!(q.total_size, -4);
    assert_eq!(q.change, 1);
}

#[test]
fn pull_scan_with_ignored_changes_takes_only_missing_files() {
    let mut scan = PullScan::new(&config(false), "/home/u/Music", true);
    assert_eq!(scan.observe("/sdcard/Music/a", 10, 1, 50), Ok(PullStep::Skipped));
    assert_eq!(scan.observe("/sdcard/Music/b", 0, 0, 50), Ok(PullStep::NeedSize));
    assert_eq!(scan.record_size(1), Ok(()));
    let q = scan.finish();
    assert_eq!((q.add, q.change), (1, 0));
}

#[test]
fn pull_scan_reports_overflow_and_missing_parent() {
    let mut scan = PullScan::new(&config(false), "/", false);
    assert_eq!(scan.observe("/sdcard/Music", 0, 0, 50), Err(ScanError::NoParent("/".to_string())));
    assert_eq!(
        scan.observe("/sdcard/Other/a", 0, 0, 50),
        Err(ScanError::OutsideRoot("/sdcard/Other/a".to_string()))
    );
    assert_eq!(scan.observe("/sdcard/Music/a", 5, i64::MIN, 50), Ok(PullStep::NeedSize));
    assert_eq!(scan.record_size(1), Err(ScanError::Overflow));
}

#[test]
fn push_writer_with_hidden_allowed_skips_the_name_check() {
    let queue = Queue {
        dir_queue: vec![],
        file_queue: vec![],
        add: 1,
        change: 0,
        del: 0,
        total_size: 0,
    };
    let mut w = PushWriter::new(&config(true), "/home/u/Music", &queue);
    let p = w.announce("/home/u/Music/..", "..", 0).unwrap().unwrap();
    assert_eq!(p.tag, "[1/1]");
    let mut w = PushWriter::new(&config(true), "/home/u/Music", &queue);
    assert!(w.announce("/home/u/Music/.h", ".h", 0).unwrap().is_some());
}

#[test]
fn pull_round_trip_downloads_what_was_queued() {
    let cfg = config(false);
    let mut scan = PullScan::new(&cfg, "/home/u/Music", false);
    let files = [("/sdcard/Music/a", 0u64, 10u64), ("/sdcard/Music/b", 5, 9), ("/sdcard/Music/c", 9, 9)];
    for (f, local, remote) in files {
        if scan.observe(f, local, 0, remote).unwrap() == PullStep::NeedSize {
            scan.record_size(1).unwrap();
        }
    }
    let q = scan.finish();
    let mut writer = PullWriter::new(&cfg, "/home/u/Music", &q);
    for (f, local, remote) in files {
        let queued = q.file_queue.iter().any(|x| x == f);
        let t = writer.target(f).unwrap();
        let sent = writer.announce(&t.relative, local, remote as u32).unwrap().is_some();
        assert_eq!(queued, sent, "{}", f);
    }
}

#[test]
fn pull_writer_announces_downloads() {
    let queue = Queue {
        dir_queue: vec![],
        file_queue: vec![],
        add: 2,
        change: 0,
        del: 0,
        total_size: 0,
    };
    let mut w = PullWriter::new(&config(false), "/home/u/Music", &queue);
    let t = w.target("/sdcard/Music/rock/a.flac").unwrap();
    assert_eq!(t.local_path, "/home/u/Music/rock/a.flac");
    assert_eq!(t.relative, "rock/a.flac");
    assert!(w.target("/other").is_err());
    let p = w.announce(&t.relative, 0, 7).unwrap().unwrap();
    assert_eq!(p.tag, "[1/2]");
    assert_eq!(p.message, "Adding rock/a.flac");
    assert!(w.announce("b", 9, 7).unwrap().is_none());
    // Local times compare by their low 32 bits.
    let p = w.announce("c", (1u64 << 32) + 3, 7).unwrap().unwrap();
    assert_eq!(p.tag, "[2/2]");
    assert_eq!(p.message, "Updating c");
    let p = w.announce("d", 1u64 << 32, 7).unwrap().unwrap();
    assert_eq!(p.message, "Adding d");
}

#[test]
fn directory_errors_name_the_first_nameless_entry() {
    assert_eq!(
        push_directories("/a\n/a/..\n/b/..\n", false),
        Err(ScanError::NoFileName("/a/..".to_string()))
    );
    let dirs = vec!["/a".to_string(), "/x".to_string(), "/y".to_string()];
    let names = vec![Some("a".to_string()), None, None];
    assert_eq!(
        keep_directories(&dirs, &names, false),
        Err(ScanError::NoFileName("/x".to_string()))
    );
    assert_eq!(keep_directories(&dirs, &names, true).unwrap(), dirs);
    let names = vec![Some("a".to_string()), Some(".x".to_string()), Some("y".to_string())];
    assert_eq!(keep_directories(&dirs, &names, false).unwrap(), vec!["/a", "/y"]);
}

#[test]
fn push_scan_takes_given_path_results() {
    let mut scan = PushScan::new(&config(false), "/home/u/Music", false, "").unwrap();
    let rel = Some("x".to_string());
    assert_eq!(
        scan.observe_named("/p/x", None, Some("x".to_string()), 0, 1, 1),
        Err(ScanError::OutsideRoot("/p/x".to_string()))
    );
    assert_eq!(
        scan.observe_named("/p/x", rel.clone(), None, 0, 1, 1),
        Err(ScanError::NoFileName("/p/x".to_string()))
    );
    assert_eq!(
        scan.observe_named("/p/.b", rel.clone(), Some(".b".to_string()), 0, 1, 1),
        Ok(PushStep::Skipped)
    );
    assert_eq!(
        scan.observe_named("/p/x", rel, Some("x".to_string()), 3, 9, 1),
        Ok(PushStep::Changed)
    );
    assert_eq!(scan.observe("/outside/y", 0, 1, 1), Err(ScanError::OutsideRoot("/outside/y".to_string())));
    let q = scan.finish();
    assert_eq!(q.file_queue, vec!["/p/x"]);
}

#[test]
fn push_writer_takes_a_given_name() {
    let queue = Queue {
        dir_queue: vec![],
        file_queue: vec![],
        add: 2,
        change: 0,
        del: 0,
        total_size: 0,
    };
    let mut w = PushWriter::new(&config(false), "/home/u/Music", &queue);
    assert!(w.announce_named("/q", Some(".q".to_string()), "q", 0).unwrap().is_none());
    assert_eq!(
        w.announce_named("/q", None, "q", 0),
        Err(ScanError::NoFileName("/q".to_string()))
    );
    assert_eq!(
        w.announce_named("/q", Some("q".to_string()), "q", 0).unwrap().unwrap().tag,
        "[1/2]"
    );
}

#[test]
fn pull_scan_takes_given_path_results() {
    let mut scan = PullScan::new(&config(false), "/home/u/Music", false);
    assert_eq!(
        scan.observe_named("/sdcard/Music/a", None, None, 0, 0, 5),
        Err(ScanError::OutsideRoot("/sdcard/Music/a".to_string()))
    );
    assert_eq!(
        scan.observe_named("/sdcard/Music/a", Some("a".to_string()), None, 0, 0, 5),
        Err(ScanError::NoParent("/home/u/Music/a".to_string()))
    );
    assert_eq!(
        scan.observe_named("/sdcard/Music/.a", Some(".a".to_string()), None, 0, 0, 5),
        Ok(PullStep::Skipped)
    );
    assert_eq!(
        scan.observe_named("/sdcard/Music/a", Some("a".to_string()), Some("/home/u/Music".to_string()), 0, 0, 5),
        Ok(PullStep::NeedSize)
    );
    assert_eq!(scan.record_size(7), Ok(()));
    let q = scan.finish();
    assert_eq!(q.dir_queue, vec!["/home/u/Music"]);
    assert_eq!(q.file_queue, vec!["/sdcard/Music/a"]);
}

#[test]
fn joined_paths_follow_pathbuf_push() {
    let scan = PullScan::new(&config(false), "/home/u/Music/", false);
    assert_eq!(scan.local_path("/sdcard/Music/a").unwrap(), "/home/u/Music/a");
    let scan = PullScan::new(&config(false), "", false);
    assert_eq!(scan.local_path("/sdcard/Music/a").unwrap(), "a");
    let scan = PullScan::new(&config(false), "/home/u/Music", false);
    assert_eq!(scan.local_path("/sdcard/Music").unwrap(), "/home/u/Music/");
}
