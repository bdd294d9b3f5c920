use ml2::keepalive::{probe_interval, Keepalive, KeepaliveConfig, PushAction, PushEvent, PushState};
use ml2::mods::{current_file, logo_file_path, main_file_path, Mod, ModFile, User};
use ml2::net::{content_type, expected_bytes, DownloadProgress, DownloadTracker};
use ml2::processor::{
    conclude_install, get_command, remove_command, resolve_change, ChangeEvent, CommandError,
    CommandSlot, Debouncer, Promotion, StageOutcome,
};
use ml2::sync::{Cache, LocalEntry, LocalState, RemoteEntry, RemoteState, SyncStatus};

fn local(id: &str, path: &str, fp: u64) -> LocalEntry {
    LocalEntry { id: id.to_string(), state: LocalState { path: path.to_string(), fingerprint: fp } }
}

fn remote(id: &str, code: &str, file_id: &str) -> RemoteEntry {
    RemoteEntry {
        id: id.to_string(),
        state: RemoteState {
            code: code.to_string(),
            file_id: file_id.to_string(),
            download_url: format!("https://example.test/{}", file_id),
            logo_url: None,
        },
    }
}

fn ids(cache: &Cache) -> Vec<String> {
    let mut v: Vec<String> = cache.list().into_iter().map(|r| r.id).collect();
    v.sort();
    v
}

#[test]
fn local_scan_adds_updates_and_removes() {
    let mut c = Cache::new();
    let changed = c.apply_local_scan(&vec![local("a", "/m/a", 1), local("b", "/m/b", 2)]);
    assert_eq!(changed, vec!["a".to_string(), "b".to_string()]);
    let changed = c.apply_local_scan(&vec![local("a", "/m/a", 9)]);
    assert_eq!(changed, vec!["a".to_string(), "b".to_string()]);
    assert_eq!(ids(&c), vec!["a".to_string()]);
    assert_eq!(c.get(&"a".to_string()).unwrap().local.unwrap().fingerprint, 9);
    let changed = c.apply_local_scan(&vec![local("a", "/m/a", 9)]);
    assert!(changed.is_empty());
}

#[test]
fn duplicate_scan_entries_keep_the_first() {
    let mut c = Cache::new();
    let changed = c.apply_local_scan(&vec![local("a", "/m/a", 1), local("a", "/m/a2", 2)]);
    assert_eq!(changed, vec!["a".to_string()]);
    assert_eq!(c.list().len(), 1);
    assert_eq!(c.get(&"a".to_string()).unwrap().local.unwrap().path, "/m/a");
}

#[test]
fn statuses_follow_both_sides() {
    let mut c = Cache::new();
    c.apply_local_scan(&vec![local("a", "/m/a", 1), local("b", "/m/b", 1)]);
    c.apply_remote_scan(&vec![remote("b", "code-b", "f2"), remote("r", "code-r", "f3")]);
    assert_eq!(c.get(&"a".to_string()).unwrap().sync_status(), SyncStatus::LocalOnly);
    assert_eq!(c.get(&"r".to_string()).unwrap().sync_status(), SyncStatus::RemoteOnly);
    assert_eq!(c.get(&"b".to_string()).unwrap().sync_status(), SyncStatus::UpdateAvailable);
    c.record_install(
        &"b".to_string(),
        &LocalState { path: "/m/b".to_string(), fingerprint: 2 },
        &Some(remote("b", "code-b", "f2").state),
    );
    assert_eq!(c.get(&"b".to_string()).unwrap().sync_status(), SyncStatus::InSync);
    c.apply_remote_scan(&vec![remote("b", "code-b", "f4")]);
    assert_eq!(c.get(&"b".to_string()).unwrap().sync_status(), SyncStatus::UpdateAvailable);
    assert!(c.get(&"r".to_string()).is_none());
}

#[test]
fn readiness_listing_never_shrinks() {
    let mut c = Cache::new();
    assert!(!c.ready());
    let before = ids(&c);
    c.apply_local_scan(&vec![local("a", "/m/a", 1)]);
    assert!(!c.ready());
    let middle = ids(&c);
    c.apply_remote_scan(&vec![remote("b", "code-b", "f1")]);
    assert!(c.ready());
    let after = ids(&c);
    assert!(before.iter().all(|i| middle.contains(i)));
    assert!(middle.iter().all(|i| after.contains(i)));
    assert_eq!(after, vec!["a".to_string(), "b".to_string()]);
}

#[test]
fn remove_local_only_record() {
    let mut c = Cache::new();
    c.apply_local_scan(&vec![local("x", "/m/x", 1), local("y", "/m/y", 1)]);
    assert_eq!(c.remove_target(&"x".to_string()), Some(Some("/m/x".to_string())));
    assert_eq!(c.remove_target(&"nope".to_string()), None);
    c.apply_local_scan(&vec![local("y", "/m/y", 1)]);
    assert_eq!(ids(&c), vec!["y".to_string()]);
}

#[test]
fn removed_installed_record_leaves_after_scan() {
    let mut c = Cache::new();
    c.apply_remote_scan(&vec![remote("x", "code-x", "f1")]);
    c.record_install(
        &"x".to_string(),
        &LocalState { path: "/m/x".to_string(), fingerprint: 1 },
        &Some(remote("x", "code-x", "f1").state),
    );
    c.apply_remote_scan(&vec![]);
    let rec = c.get(&"x".to_string()).unwrap();
    assert!(rec.remote.is_none() && rec.installed_file_id.is_some());
    assert_eq!(c.remove_target(&"x".to_string()), Some(Some("/m/x".to_string())));
    c.apply_local_scan(&vec![]);
    assert!(c.list().is_empty());
}

#[test]
fn local_install_without_catalog_is_local_only() {
    let mut c = Cache::new();
    let (_, r) = conclude_install(
        &mut c,
        &"l".to_string(),
        StageOutcome::Staged { local: LocalState { path: "/m/l".to_string(), fingerprint: 3 }, remote: None },
    );
    let rec = r.unwrap();
    assert_eq!(rec.sync_status(), SyncStatus::LocalOnly);
    assert_eq!(rec.installed_file_id, None);
}

#[test]
fn mod_deleted_from_disk_drops_install_mark() {
    let mut c = Cache::new();
    c.apply_remote_scan(&vec![remote("y", "code-y", "f1")]);
    c.record_install(
        &"y".to_string(),
        &LocalState { path: "/m/y".to_string(), fingerprint: 1 },
        &Some(remote("y", "code-y", "f1").state),
    );
    c.apply_local_scan(&vec![]);
    let rec = c.get(&"y".to_string()).unwrap();
    assert_eq!(rec.installed_file_id, None);
    assert_eq!(rec.sync_status(), SyncStatus::RemoteOnly);
}

#[test]
fn remove_remote_only_record_has_nothing_to_delete() {
    let mut c = Cache::new();
    c.apply_remote_scan(&vec![remote("r", "code-r", "f1")]);
    assert_eq!(c.remove_target(&"r".to_string()), Some(None));
}

#[test]
fn commands_answered_in_order() {
    let mut slot = CommandSlot::new();
    let a = slot.accept().unwrap();
    assert_eq!(slot.accept(), None);
    assert_eq!(slot.respond(), a);
    let b = slot.accept().unwrap();
    assert_eq!(slot.respond(), b);
    let c = slot.accept().unwrap();
    assert_eq!(slot.respond(), c);
    assert!(a < b && b < c);
    assert_eq!((a, b, c), (0, 1, 2));
}

#[test]
fn debounce_five_events_resolve_once() {
    let mut d = Debouncer::new(100);
    let id = "m".to_string();
    for t in [1000u64, 1010, 1020, 1050, 1099] {
        d.on_event(&id, t);
    }
    assert!(d.flush(1099).is_empty());
    assert_eq!(d.flush(1100), vec!["m".to_string()]);
    assert!(d.flush(5000).is_empty());
}

#[test]
fn debounce_keeps_identifiers_apart() {
    let mut d = Debouncer::new(10);
    d.on_event(&"a".to_string(), 0);
    d.on_event(&"b".to_string(), 5);
    d.on_event(&"a".to_string(), 6);
    assert_eq!(d.flush(10), vec!["a".to_string()]);
    assert_eq!(d.flush(15), vec!["b".to_string()]);
}

#[test]
fn debounce_window_saturates() {
    let mut d = Debouncer::new(10);
    d.on_event(&"a".to_string(), u64::MAX - 1);
    assert_eq!(d.flush(u64::MAX), vec!["a".to_string()]);
}

#[test]
fn failed_update_changes_nothing() {
    let mut c = Cache::new();
    c.apply_local_scan(&vec![local("a", "/m/a", 1)]);
    c.record_install(
        &"a".to_string(),
        &LocalState { path: "/m/a".to_string(), fingerprint: 1 },
        &Some(remote("a", "abc", "f1").state),
    );
    let (p, r) = conclude_install(&mut c, &"a".to_string(), StageOutcome::Failed("write failed".to_string()));
    assert_eq!(p, Promotion::Discard);
    assert_eq!(r.err(), Some(CommandError::Staging("write failed".to_string())));
    assert_eq!(c.get(&"a".to_string()).unwrap().installed_file_id, Some("f1".to_string()));
}

#[test]
fn repeated_update_is_idempotent() {
    let mut c = Cache::new();
    c.apply_remote_scan(&vec![remote("a", "abc", "f1")]);
    let staged = || StageOutcome::Staged {
        local: LocalState { path: "/mods/a".to_string(), fingerprint: 5 },
        remote: Some(remote("a", "abc", "f1").state),
    };
    let (p1, r1) = conclude_install(&mut c, &"a".to_string(), staged());
    let first = r1.unwrap();
    let (p2, r2) = conclude_install(&mut c, &"a".to_string(), staged());
    let second = r2.unwrap();
    assert_eq!((p1, p2), (Promotion::Promote, Promotion::Promote));
    assert_eq!(first.installed_file_id, second.installed_file_id);
    assert_eq!(second.installed_file_id, Some("f1".to_string()));
    assert_eq!(first.local, second.local);
    assert_eq!(second.sync_status(), SyncStatus::InSync);
    assert_eq!(c.list().len(), 1);
}

fn config() -> KeepaliveConfig {
    KeepaliveConfig { probe_min: 1000, probe_max: 2000, ack_timeout: 500, backoff: 3000 }
}

#[test]
fn probe_interval_in_range() {
    assert_eq!(probe_interval(config(), 0), 1000);
    assert_eq!(probe_interval(config(), 999), 1999);
    assert_eq!(probe_interval(config(), 1000), 1000);
    assert_eq!(probe_interval(config(), 1234), 1234);
    let empty = KeepaliveConfig { probe_min: 7, probe_max: 7, ack_timeout: 1, backoff: 1 };
    assert_eq!(probe_interval(empty, 42), 7);
}

#[test]
fn stale_probe_reconnects_once() {
    let mut k = Keepalive::new(config());
    assert!(matches!(k.step(PushEvent::Opened { now: 0, draw: 0 }), PushAction::Nothing));
    assert_eq!(k.state, PushState::Connected);
    assert!(matches!(k.step(PushEvent::Tick { now: 999, draw: 0 }), PushAction::Nothing));
    assert!(matches!(k.step(PushEvent::Tick { now: 1000, draw: 0 }), PushAction::SendProbe));
    assert_eq!(k.awaiting_ack_until, Some(1500));
    assert!(matches!(k.step(PushEvent::Tick { now: 1499, draw: 0 }), PushAction::Nothing));
    let mut reconnects = 0;
    for now in [1500u64, 1600, 1700, 2500, 9000] {
        if let PushAction::Reconnect { backoff } = k.step(PushEvent::Tick { now, draw: 0 }) {
            assert_eq!(backoff, 3000);
            reconnects += 1;
        }
    }
    assert_eq!(reconnects, 1);
    assert_eq!(k.state, PushState::Reconnecting);
    assert!(matches!(k.step(PushEvent::BackoffElapsed), PushAction::Connect));
    assert_eq!(k.state, PushState::Connecting);
}

#[test]
fn acknowledged_probe_keeps_connection() {
    let mut k = Keepalive::new(config());
    k.step(PushEvent::Opened { now: 0, draw: 500 });
    assert_eq!(k.next_probe_at, 1500);
    assert!(matches!(k.step(PushEvent::Tick { now: 1500, draw: 0 }), PushAction::SendProbe));
    k.step(PushEvent::Ack);
    assert!(matches!(k.step(PushEvent::Tick { now: 2400, draw: 0 }), PushAction::Nothing));
    assert!(matches!(k.step(PushEvent::Tick { now: 2500, draw: 0 }), PushAction::SendProbe));
    assert_eq!(k.state, PushState::Connected);
}

#[test]
fn pushed_change_requests_refresh_and_shutdown_closes() {
    let mut k = Keepalive::new(config());
    k.step(PushEvent::Opened { now: 0, draw: 0 });
    match k.step(PushEvent::ModChanged("abc".to_string())) {
        PushAction::Refresh(id) => assert_eq!(id, "abc"),
        _ => panic!("expected a refresh"),
    }
    assert!(matches!(k.step(PushEvent::Shutdown), PushAction::Close));
    assert!(matches!(k.step(PushEvent::Lost), PushAction::Nothing));
    assert_eq!(k.state, PushState::Closed);
}

#[test]
fn lost_connection_backs_off() {
    let mut k = Keepalive::new(config());
    assert!(matches!(k.step(PushEvent::Lost), PushAction::Reconnect { backoff: 3000 }));
    assert_eq!(k.state, PushState::Reconnecting);
}

#[test]
fn remote_install_end_to_end() {
    let manifest = Mod {
        name: "Remote".to_string(),
        slug: "remote".to_string(),
        self_url: "https://example.test/mods/remote".to_string(),
        submitter: User { username: "u".to_string() },
        collaborators: vec![],
        description: String::new(),
        mod_type: 0,
        game: 0,
        logo: Some("https://cdn.example.test/logos/logo.png".to_string()),
        details: String::new(),
        comments_allowed: false,
        is_listed: true,
        adult_content: false,
        mod_files: vec![ModFile {
            id: "file-1".to_string(),
            created_at: 0,
            filename: "mod.zip".to_string(),
            downloads: 0,
            download_url: "https://example.test/files/mod.zip".to_string(),
        }],
    };
    let file = current_file(&manifest).unwrap();
    let main_path = main_file_path("/tmp/stage", &file);
    assert!(main_path.contains("mod.zip"));
    let logo_path = logo_file_path("/tmp/stage", &manifest.logo).unwrap().unwrap();
    assert_eq!(logo_path, "/tmp/stage/logo.png");

    let mut main = DownloadTracker::new();
    let mut logo = DownloadTracker::new();
    let mut main_seen = vec![main.current.clone(), main.start()];
    let mut logo_seen = vec![logo.current.clone(), logo.start()];
    main.set_expected(expected_bytes(None).unwrap());
    logo.set_expected(expected_bytes(Some("4")).unwrap());
    let logo_type = content_type(Some("image/png")).unwrap();
    main_seen.push(main.receive(3).unwrap());
    main_seen.push(main.receive(4).unwrap());
    logo_seen.push(logo.receive(4).unwrap());
    main_seen.push(main.finish());
    logo_seen.push(logo.finish());
    assert_eq!(logo_type, "image/png");
    assert_eq!(
        main_seen,
        vec![
            DownloadProgress::Waiting(),
            DownloadProgress::Started(),
            DownloadProgress::Receiving { expected_bytes: None, received_bytes: 3 },
            DownloadProgress::Receiving { expected_bytes: None, received_bytes: 7 },
            DownloadProgress::Finished(),
        ]
    );
    assert_eq!(logo_seen.first(), Some(&DownloadProgress::Waiting()));
    assert_eq!(logo_seen.last(), Some(&DownloadProgress::Finished()));

    let mut c = Cache::new();
    c.apply_remote_scan(&vec![remote("remote", "abc123", "file-1")]);
    let fetched = remote("remote", "abc123", &file.id).state;
    let (p, r) = conclude_install(
        &mut c,
        &"remote".to_string(),
        StageOutcome::Staged {
            local: LocalState { path: "/mods/remote/mod.zip".to_string(), fingerprint: 7 },
            remote: Some(fetched),
        },
    );
    assert_eq!(p, Promotion::Promote);
    let rec = r.unwrap();
    assert_eq!(rec.sync_status(), SyncStatus::InSync);
    assert!(rec.local.clone().unwrap().path.contains("mod.zip"));
    assert_eq!(rec.remote.clone().unwrap().file_id, "file-1");
    c.apply_local_scan(&vec![local("remote", "/mods/remote/mod.zip", 7)]);
    let rec = c.get(&"remote".to_string()).unwrap();
    assert_eq!(rec.sync_status(), SyncStatus::InSync);
}

#[test]
fn resolved_changes() {
    let mut c = Cache::new();
    c.apply_local_scan(&vec![local("a", "/m/a", 1)]);
    let a = "a".to_string();
    let z = "z".to_string();
    assert_eq!(resolve_change(&c, &a, false), Some(ChangeEvent::Added("a".to_string())));
    assert_eq!(resolve_change(&c, &a, true), Some(ChangeEvent::Updated("a".to_string())));
    assert_eq!(resolve_change(&c, &z, true), Some(ChangeEvent::Removed("z".to_string())));
    assert_eq!(resolve_change(&c, &z, false), None);
}

#[test]
fn get_and_remove_commands() {
    let mut c = Cache::new();
    c.apply_local_scan(&vec![local("a", "/m/a", 1)]);
    assert_eq!(get_command(&c, &"a".to_string()).unwrap().id, "a");
    assert_eq!(get_command(&c, &"b".to_string()).err(), Some(CommandError::NotFound));
    assert_eq!(remove_command(&c, &"a".to_string()), Ok(Some("/m/a".to_string())));
    assert_eq!(remove_command(&c, &"b".to_string()), Err(CommandError::NotFound));
}
