use remnem::disposal::{
    core_count, delete_all, dispose_one, leftovers_dropped, libc_exdev, parallel_rename,
    probe_same_volume, reap, reaper_spawned, remove_all_parallel, removed_one, shard_done, staged,
    staging_created, staging_dropped, still_there, volume_probed, Attempt, DeleteResult, Disposal,
    Mode, Probe, Removal, Renaming, Shard,
};
use remnem::path::DirPath;

fn path(text: &str) -> DirPath {
    let names = text.split('/').filter(|n| !n.is_empty()).map(|n| n.as_bytes().to_vec()).collect();
    DirPath { anchor: b"/".to_vec(), names }
}

fn dirs(n: usize) -> Vec<DirPath> {
    (0..n).map(|i| path(&format!("/r/p{i}/node_modules"))).collect()
}

fn show(path: &DirPath) -> String {
    path.display(b'/')
}

fn plan(n: usize, cores: usize) -> Vec<Shard> {
    parallel_rename(dirs(n), &path("/tmp/remnem-7"), cores)
}

#[test]
fn removing_begins_with_a_staging_directory() {
    match delete_all(dirs(2), Mode::Remove, &path("/tmp"), 4321) {
        Disposal::CreateStaging { staging, dirs } => {
            assert_eq!(show(&staging), "/tmp/remnem-4321");
            assert_eq!(dirs.len(), 2);
            assert_eq!(show(&dirs[1]), "/r/p1/node_modules");
        }
        other => panic!("{other:?}"),
    }
}

#[test]
fn removing_synchronously_uses_no_staging_directory() {
    match delete_all(dirs(2), Mode::RemoveSync, &path("/tmp"), 1) {
        Disposal::RemoveInPlace { dirs } => assert_eq!(dirs.len(), 2),
        other => panic!("{other:?}"),
    }
}

#[test]
fn without_a_staging_directory_everything_is_removed_in_place() {
    match staging_created(path("/tmp/s"), dirs(1), false) {
        Disposal::RemoveInPlace { dirs } => assert_eq!(dirs.len(), 1),
        other => panic!("{other:?}"),
    }
    match staging_created(path("/tmp/s"), dirs(1), true) {
        Disposal::ProbeVolume { staging, probe, dirs } => {
            assert_eq!(show(&staging), "/tmp/s");
            assert_eq!(show(&probe), "/tmp/s/probe");
            assert_eq!(dirs.len(), 1);
        }
        other => panic!("{other:?}"),
    }
}

#[test]
fn only_a_rename_across_filesystems_says_another_volume() {
    assert_eq!(libc_exdev(), 18);
    assert!(!probe_same_volume(Probe::Failed(Some(18))));
    assert!(probe_same_volume(Probe::Failed(Some(13))));
    assert!(probe_same_volume(Probe::Failed(None)));
    assert!(probe_same_volume(Probe::Moved));
    assert!(probe_same_volume(Probe::NothingToMove));
}

#[test]
fn another_volume_means_removal_in_place() {
    match volume_probed(path("/tmp/s"), dirs(3), Probe::Failed(Some(18)), 4) {
        Disposal::DropStaging { staging, dirs } => {
            assert_eq!(show(&staging), "/tmp/s");
            match staging_dropped(dirs) {
                Disposal::RemoveInPlace { dirs } => assert_eq!(dirs.len(), 3),
                other => panic!("{other:?}"),
            }
        }
        other => panic!("{other:?}"),
    }
    match volume_probed(path("/tmp/s"), dirs(3), Probe::Moved, 4) {
        Disposal::Stage { staging, shards } => {
            assert_eq!(show(&staging), "/tmp/s");
            assert_eq!(shards.len(), 3);
        }
        other => panic!("{other:?}"),
    }
}

#[test]
fn the_system_may_not_know_its_cores() {
    assert_eq!(core_count(None), 4);
    assert_eq!(core_count(Some(12)), 12);
}

#[test]
fn directories_are_dealt_out_in_runs() {
    // Two cores give ten threads; 25 directories give runs of three.
    let shards = plan(25, 2);
    let sizes: Vec<usize> = shards.iter().map(|s| s.moves.len()).collect();
    assert_eq!(sizes, [3, 3, 3, 3, 3, 3, 3, 3, 1]);
    assert_eq!(show(&shards[4].dir), "/tmp/remnem-7/4");
    assert_eq!(show(&shards[4].moves[1].from), "/r/p13/node_modules");
    assert_eq!(show(&shards[4].moves[1].to), "/tmp/remnem-7/4/1");
}

#[test]
fn threads_are_between_one_and_sixty_four() {
    assert_eq!(plan(0, 8).len(), 0);
    assert_eq!(plan(1, 8).len(), 1);
    assert_eq!(plan(3, 0).len(), 1);
    assert_eq!(plan(1000, 1).len(), 5);
    assert_eq!(plan(1000, 12).len(), 59);
    assert_eq!(plan(640, 13).len(), 64);
    assert_eq!(plan(640, 128).len(), 64);
    assert_eq!(plan(64, usize::MAX).len(), 64);
}

#[test]
fn no_two_directories_are_moved_to_one_place() {
    for (n, cores) in [(1, 1), (7, 1), (100, 3), (777, 64)] {
        let shards = plan(n, cores);
        let mut from = Vec::new();
        let mut to = Vec::new();
        for shard in &shards {
            assert_ne!(show(&shard.dir), "/tmp/remnem-7/probe");
            for m in &shard.moves {
                from.push(show(&m.from));
                to.push(show(&m.to));
                assert!(m.to.within(&path("/tmp/remnem-7")));
                assert!(!m.to.within(&path("/r")));
            }
        }
        let expected: Vec<String> = dirs(n).iter().map(show).collect();
        assert_eq!(from, expected);
        to.sort();
        to.dedup();
        assert_eq!(to.len(), n);
    }
}

fn error_of(result: &DeleteResult) -> Option<&str> {
    result.error.as_deref()
}

#[test]
fn only_a_directory_that_was_moved_or_gone_is_gone() {
    assert!(!still_there(Renaming::Renamed));
    assert!(!still_there(Renaming::NotFound { still_there: false }));
    assert!(still_there(Renaming::NotFound { still_there: true }));
    assert!(still_there(Renaming::Failed));
}

#[test]
fn what_was_done_decides_the_outcome() {
    let result = dispose_one(path("/r/node_modules"), &Attempt::Gone);
    assert_eq!(show(&result.path), "/r/node_modules");
    assert_eq!(error_of(&result), None);
    let attempt = Attempt::RemovedInPlace(Removal::Failed("denied".to_string()));
    assert_eq!(error_of(&dispose_one(path("/a"), &attempt)), Some("denied"));
    let attempt = Attempt::RemovedInPlace(Removal::NotFound);
    assert_eq!(error_of(&dispose_one(path("/a"), &attempt)), None);
}

#[test]
fn only_a_real_failure_is_reported() {
    assert_eq!(error_of(&removed_one(path("/a"), &Removal::Removed)), None);
    assert_eq!(error_of(&removed_one(path("/a"), &Removal::NotFound)), None);
    assert_eq!(
        error_of(&removed_one(path("/a"), &Removal::Failed("denied".to_string()))),
        Some("denied")
    );
}

#[test]
fn one_failure_does_not_stop_the_others() {
    let next = remove_all_parallel(
        vec![path("/a"), path("/b"), path("/c")],
        &vec![Removal::Removed, Removal::Failed("busy".to_string()), Removal::NotFound],
    );
    match next {
        Disposal::Finished { results } => {
            let shown: Vec<(String, Option<&str>)> =
                results.iter().map(|r| (show(&r.path), error_of(r))).collect();
            assert_eq!(
                shown,
                [
                    ("/a".to_string(), None),
                    ("/b".to_string(), Some("busy")),
                    ("/c".to_string(), None),
                ]
            );
        }
        other => panic!("{other:?}"),
    }
}

#[test]
fn a_thread_answers_for_its_directories() {
    let shard = plan(3, 0).remove(0);
    let failed = Attempt::RemovedInPlace(Removal::Failed("busy".to_string()));
    let results = shard_done(shard, &vec![Attempt::Gone, failed, Attempt::Gone]);
    let shown: Vec<(String, Option<&str>)> =
        results.iter().map(|r| (show(&r.path), error_of(r))).collect();
    assert_eq!(
        shown,
        [
            ("/r/p0/node_modules".to_string(), None),
            ("/r/p1/node_modules".to_string(), Some("busy")),
            ("/r/p2/node_modules".to_string(), None),
        ]
    );
}

#[test]
fn outcomes_come_in_the_order_of_the_directories() {
    let shards = plan(25, 2);
    let attempts = shards
        .iter()
        .map(|s| s.moves.iter().map(|_| Attempt::Gone).collect())
        .collect();
    match staged(path("/tmp/remnem-7"), shards, &attempts) {
        Disposal::SpawnReaper { staging, results } => {
            assert_eq!(show(&staging), "/tmp/remnem-7");
            let shown: Vec<String> = results.iter().map(|r| show(&r.path)).collect();
            let expected: Vec<String> = dirs(25).iter().map(show).collect();
            assert_eq!(shown, expected);
            assert!(results.iter().all(|r| r.error.is_none()));
        }
        other => panic!("{other:?}"),
    }
}

#[test]
fn without_a_background_process_the_leftovers_are_removed() {
    let results = || vec![DeleteResult { path: path("/a"), error: None }];
    match reaper_spawned(path("/tmp/s"), results(), true) {
        Disposal::Finished { results } => assert_eq!(results.len(), 1),
        other => panic!("{other:?}"),
    }
    match reaper_spawned(path("/tmp/s"), results(), false) {
        Disposal::DropLeftovers { staging, results } => {
            assert_eq!(show(&staging), "/tmp/s");
            match leftovers_dropped(results) {
                Disposal::Finished { results } => assert_eq!(results.len(), 1),
                other => panic!("{other:?}"),
            }
        }
        other => panic!("{other:?}"),
    }
}

#[test]
fn the_background_process_removes_the_contents_and_then_the_directory() {
    let plan = reap(path("/tmp/s"), Some(vec![b"0".to_vec(), b"1".to_vec()])).unwrap();
    let children: Vec<String> = plan.children.iter().map(show).collect();
    assert_eq!(children, ["/tmp/s/0", "/tmp/s/1"]);
    assert_eq!(show(&plan.root), "/tmp/s");
    assert!(reap(path("/tmp/s"), None).is_none());
}
