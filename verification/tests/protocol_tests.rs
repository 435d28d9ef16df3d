use arewefastyet::cargo::Bytes;
use arewefastyet::cargo::CompilerMode;
use arewefastyet::cargo::Milliseconds;
use arewefastyet::cargo::ProfileMode;
use arewefastyet::profile::CompileTimeKey;
use arewefastyet::profile::ModeKey;
use arewefastyet::profile::Profile;
use arewefastyet::protocol::Action;
use arewefastyet::protocol::Event;
use arewefastyet::protocol::Session;
use arewefastyet::rustup::Version;

/// Answers every action with success: builds take 42 ms, the debug artifact
/// is larger than the release one.
fn run_all_success(session: &mut Session) -> (u32, u32) {
    let mut patches: u32 = 0;
    let mut reverts: u32 = 0;
    while let Some(action) = session.next_action() {
        let ev = match action {
            Action::RunCompile(_) => Event::Compiled(Some(Milliseconds(42))),
            Action::RemoveTargetDir => Event::Completed(true),
            Action::TouchSrc => Event::Completed(true),
            Action::ApplyPatch => {
                patches += 1;
                Event::Completed(true)
            },
            Action::Revert => {
                reverts += 1;
                Event::Completed(true)
            },
            Action::StatArtifact(m) => {
                if m == CompilerMode::Debug {
                    Event::Stated(Some(Bytes(500)))
                } else {
                    Event::Stated(Some(Bytes(300)))
                }
            },
        };
        session.step(ev);
    }
    (patches, reverts)
}

#[test]
fn full_session_fills_every_bucket() {
    let times: usize = 2;
    let mut session = Session::new(Version::V1_45, times as u32);
    let (patches, reverts) = run_all_success(&mut session);
    // Every patch was matched by a revert before the session went on.
    assert_eq!(patches, reverts);
    assert!(!session.vcs_failed());
    let (grid, sizes) = session.into_results();
    assert_eq!(grid.len(), 9);
    for (_, bucket) in grid.iter() {
        assert_eq!(bucket.len(), times);
        assert!(bucket[0] > Milliseconds(0));
    }
    let (debug_size, release_size) = sizes.expect("both artifacts measured");
    assert!(release_size > Bytes(0));
    assert!(debug_size >= release_size);

    // Recording the session's grid completes the version.
    let mut profile = Profile::new();
    let grid: Vec<(ModeKey, Vec<Milliseconds>)> = grid;
    profile.add_compile_times(Version::V1_45, grid);
    profile.add_output_sizes(Version::V1_45, debug_size, release_size);
    assert!(profile.version_profiled(&Version::V1_45));
    let plan = profile.versions_to_profile(Version::V1_45);
    assert_eq!(plan.first(), Some(&Version::V1_46));
    let clean = profile
        .get_compile_times(CompileTimeKey {
            version: Version::V1_45,
            compiler_mode: CompilerMode::Release,
            profile_mode: ProfileMode::PatchIncremental,
        })
        .unwrap();
    assert_eq!(clean.len(), times);
}

#[test]
fn failed_patch_build_still_reverts() {
    let mut session = Session::new(Version::V1_45, 1);
    let mut reverted_after_failure = false;
    while let Some(action) = session.next_action() {
        let ev = match action {
            Action::RunCompile(m) => {
                if m == CompilerMode::Debug {
                    // Fail every debug build, including the patched one.
                    Event::Compiled(None)
                } else {
                    Event::Compiled(Some(Milliseconds(7)))
                }
            },
            Action::RemoveTargetDir => Event::Completed(true),
            Action::TouchSrc => Event::Completed(true),
            Action::ApplyPatch => Event::Completed(true),
            Action::Revert => {
                reverted_after_failure = true;
                Event::Completed(true)
            },
            Action::StatArtifact(_) => Event::Stated(Some(Bytes(1))),
        };
        session.step(ev);
    }
    // The patch of the failing Debug mode was still reverted.
    assert!(reverted_after_failure);
    assert!(!session.vcs_failed());
    let (grid, sizes) = session.into_results();
    // Check and Release committed their buckets; Debug was abandoned, and
    // the failed debug build also forfeits the size pair.
    assert_eq!(grid.len(), 6);
    for (k, _) in grid.iter() {
        assert!(k.compiler_mode != CompilerMode::Debug);
    }
    assert!(sizes.is_none());
}

#[test]
fn failed_warmup_skips_to_size_measurement() {
    let mut session = Session::new(Version::V1_45, 3);
    let mut compile_count: u32 = 0;
    while let Some(action) = session.next_action() {
        let ev = match action {
            Action::RunCompile(_) => {
                compile_count += 1;
                if compile_count == 1 {
                    Event::Compiled(None)
                } else {
                    Event::Compiled(Some(Milliseconds(9)))
                }
            },
            Action::RemoveTargetDir => Event::Completed(true),
            Action::TouchSrc => Event::Completed(true),
            Action::ApplyPatch => Event::Completed(true),
            Action::Revert => Event::Completed(true),
            Action::StatArtifact(_) => Event::Stated(Some(Bytes(11))),
        };
        session.step(ev);
    }
    let (grid, sizes) = session.into_results();
    assert_eq!(grid.len(), 0);
    assert_eq!(sizes, Some((Bytes(11), Bytes(11))));
}

#[test]
fn failed_revert_aborts_the_session() {
    let mut session = Session::new(Version::V1_45, 2);
    let mut steps: u32 = 0;
    while let Some(action) = session.next_action() {
        let ev = match action {
            Action::RunCompile(_) => Event::Compiled(Some(Milliseconds(5))),
            Action::RemoveTargetDir => Event::Completed(true),
            Action::TouchSrc => Event::Completed(true),
            Action::ApplyPatch => Event::Completed(true),
            Action::Revert => Event::Completed(false),
            Action::StatArtifact(_) => Event::Stated(Some(Bytes(1))),
        };
        session.step(ev);
        steps += 1;
        assert!(steps < 100);
    }
    assert!(session.vcs_failed());
    let (grid, sizes) = session.into_results();
    assert_eq!(grid.len(), 0);
    assert!(sizes.is_none());
}

#[test]
fn zero_repetitions_record_empty_buckets() {
    let mut session = Session::new(Version::V1_45, 0);
    run_all_success(&mut session);
    let (grid, sizes) = session.into_results();
    // Every bucket exists, holding no samples.
    assert_eq!(grid.len(), 9);
    for (_, bucket) in grid.iter() {
        assert_eq!(bucket.len(), 0);
    }
    assert_eq!(sizes, Some((Bytes(500), Bytes(300))));

    // With the sizes recorded, the version counts as fully profiled and is
    // not re-measured on the next run.
    let mut profile = Profile::new();
    profile.add_compile_times(Version::V1_45, grid);
    let (debug_size, release_size) = sizes.unwrap();
    profile.add_output_sizes(Version::V1_45, debug_size, release_size);
    assert!(profile.version_profiled(&Version::V1_45));
}
