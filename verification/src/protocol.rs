//! The benchmark protocol for one (repo, version) pair, as an explicit state
//! machine. The caller performs each demanded action against the outside
//! world — build tool, filesystem, version control — and reports what
//! happened; the machine sequences the stages, collects the timing buckets
//! and artifact sizes, and guarantees that every patch mutation is followed
//! by a revert before the session goes on.
//!
//! The protocol: one warm-up build to fetch dependencies; then, for each
//! compiler mode in order and for the configured number of repetitions, the
//! stage cycle Clean (remove the build-output directory, build), Incremental
//! (bump the touch file's timestamp, build), PatchIncremental (patch the
//! touch file, build, revert). A failure aborts the remainder of the current
//! mode's repetitions and discards its partial buckets; a completed mode
//! commits its three buckets. After the modes, debug and release artifacts
//! are rebuilt and measured. A failed revert aborts the whole session. A
//! zero-repetition run has no timed stages but still records every bucket,
//! empty, so the version counts as profiled once its sizes are measured.

use vstd::prelude::*;

use crate::cargo::{Bytes, CompilerMode, Milliseconds};
use crate::cargo::ProfileMode;
use crate::profile::ModeKey;
use crate::rustup::Version;

verus! {

/// What the caller must do next.
#[derive(Debug, Clone, Copy, PartialEq, Eq, Structural)]
pub enum Action {
    /// Run the build tool in the given mode and report the parsed duration.
    RunCompile(CompilerMode),
    /// Delete the repo's build-output directory (absent is success).
    RemoveTargetDir,
    /// Bump the touch file's modification time.
    TouchSrc,
    /// Apply the patch mutation to the touch file.
    ApplyPatch,
    /// Discard all local changes in the working tree.
    Revert,
    /// Report the artifact's size for the given mode.
    StatArtifact(CompilerMode),
}

/// What the outside world reported back.
#[derive(Debug, Clone, Copy, PartialEq, Eq, Structural)]
pub enum Event {
    /// A preparation or revert action finished; `true` means success.
    Completed(bool),
    /// A build finished with a parsed duration, or failed.
    Compiled(Option<Milliseconds>),
    /// An artifact was measured, or could not be.
    Stated(Option<Bytes>),
}

/// The session's coarse position.
#[derive(Debug, Clone, Copy, PartialEq, Eq, Structural)]
pub enum Phase {
    Warmup,
    Compile,
    SizeDebugBuild,
    SizeDebugStat,
    SizeReleaseBuild,
    SizeReleaseStat,
    Done,
}

/// The position inside one repetition of the stage cycle.
#[derive(Debug, Clone, Copy, PartialEq, Eq, Structural)]
pub enum Stage {
    PrepClean,
    RunClean,
    PrepTouch,
    RunIncremental,
    PrepPatch,
    RunPatch,
    Revert,
    RevertAbort,
}

/// The session's mathematical state.
#[verifier::ext_equal]
pub struct SessionModel {
    pub version: Version,
    pub times: int,
    pub phase: Phase,
    pub stage: Stage,
    pub mode_idx: int,
    pub rep: int,
    pub cur_clean: Seq<Milliseconds>,
    pub cur_incr: Seq<Milliseconds>,
    pub cur_patch: Seq<Milliseconds>,
    pub grid: Seq<(ModeKey, Seq<Milliseconds>)>,
    pub debug_size: Option<Bytes>,
    pub sizes: Option<(Bytes, Bytes)>,
    /// Whether the touch file differs from its pristine checked-out state,
    /// assuming every successful revert restores it.
    pub patched: bool,
    /// A revert failed, so nothing more is promised about the tree.
    pub vcs_failed: bool,
}

/// One benchmark session over a repo's working copy for one version.
pub struct Session {
    version: Version,
    times: u32,
    phase: Phase,
    stage: Stage,
    mode_idx: usize,
    rep: u32,
    cur_clean: Vec<Milliseconds>,
    cur_incr: Vec<Milliseconds>,
    cur_patch: Vec<Milliseconds>,
    grid: Vec<(ModeKey, Vec<Milliseconds>)>,
    debug_size: Option<Bytes>,
    sizes: Option<(Bytes, Bytes)>,
    patched: bool,
    vcs_failed: bool,
}

/// The view of the committed grid.
pub open spec fn spec_grid_view(g: Seq<(ModeKey, Vec<Milliseconds>)>) -> Seq<
    (ModeKey, Seq<Milliseconds>),
> {
    g.map_values(|p: (ModeKey, Vec<Milliseconds>)| (p.0, p.1@))
}

impl View for Session {
    type V = SessionModel;

    closed spec fn view(&self) -> SessionModel {
        SessionModel {
            version: self.version,
            times: self.times as int,
            phase: self.phase,
            stage: self.stage,
            mode_idx: self.mode_idx as int,
            rep: self.rep as int,
            cur_clean: self.cur_clean@,
            cur_incr: self.cur_incr@,
            cur_patch: self.cur_patch@,
            grid: spec_grid_view(self.grid@),
            debug_size: self.debug_size,
            sizes: self.sizes,
            patched: self.patched,
            vcs_failed: self.vcs_failed,
        }
    }
}

/// The compiler mode at a position of the mode order.
pub open spec fn spec_mode_of(i: int) -> CompilerMode {
    if i == 0 {
        CompilerMode::Check
    } else if i == 1 {
        CompilerMode::Debug
    } else {
        CompilerMode::Release
    }
}

/// The action a state demands, if the session is not done.
pub open spec fn spec_next_action(s: SessionModel) -> Option<Action> {
    match s.phase {
        Phase::Warmup => Some(Action::RunCompile(CompilerMode::Check)),
        Phase::Compile => match s.stage {
            Stage::PrepClean => Some(Action::RemoveTargetDir),
            Stage::RunClean => Some(Action::RunCompile(spec_mode_of(s.mode_idx))),
            Stage::PrepTouch => Some(Action::TouchSrc),
            Stage::RunIncremental => Some(Action::RunCompile(spec_mode_of(s.mode_idx))),
            Stage::PrepPatch => Some(Action::ApplyPatch),
            Stage::RunPatch => Some(Action::RunCompile(spec_mode_of(s.mode_idx))),
            Stage::Revert => Some(Action::Revert),
            Stage::RevertAbort => Some(Action::Revert),
        },
        Phase::SizeDebugBuild => Some(Action::RunCompile(CompilerMode::Debug)),
        Phase::SizeDebugStat => Some(Action::StatArtifact(CompilerMode::Debug)),
        Phase::SizeReleaseBuild => Some(Action::RunCompile(CompilerMode::Release)),
        Phase::SizeReleaseStat => Some(Action::StatArtifact(CompilerMode::Release)),
        Phase::Done => None,
    }
}

/// Whether an event answers an action of the right kind.
pub open spec fn spec_event_matches(a: Action, ev: Event) -> bool {
    match a {
        Action::RunCompile(_) => ev is Compiled,
        Action::StatArtifact(_) => ev is Stated,
        Action::RemoveTargetDir => ev is Completed,
        Action::TouchSrc => ev is Completed,
        Action::ApplyPatch => ev is Completed,
        Action::Revert => ev is Completed,
    }
}

/// The state after the current mode is given up: its partial buckets are
/// discarded and the session moves to the next mode, or to the size phase.
pub open spec fn spec_abandon_mode(s: SessionModel) -> SessionModel {
    SessionModel {
        phase: if s.mode_idx + 1 == 3 {
            Phase::SizeDebugBuild
        } else {
            Phase::Compile
        },
        stage: Stage::PrepClean,
        mode_idx: s.mode_idx + 1,
        rep: 0,
        cur_clean: Seq::empty(),
        cur_incr: Seq::empty(),
        cur_patch: Seq::empty(),
        ..s
    }
}

/// The state after the current mode's three buckets are committed.
pub open spec fn spec_commit_mode(s: SessionModel) -> SessionModel {
    let m = spec_mode_of(s.mode_idx);
    SessionModel {
        grid: s.grid.push(
            ((ModeKey { compiler_mode: m, profile_mode: ProfileMode::Clean }), s.cur_clean),
        ).push(
            ((ModeKey { compiler_mode: m, profile_mode: ProfileMode::Incremental }), s.cur_incr),
        ).push(
            (
                (ModeKey { compiler_mode: m, profile_mode: ProfileMode::PatchIncremental }),
                s.cur_patch,
            ),
        ),
        ..spec_abandon_mode(s)
    }
}

/// The nine buckets a zero-repetition run still records: every mode pair
/// present, with no samples.
pub open spec fn spec_empty_grid() -> Seq<(ModeKey, Seq<Milliseconds>)> {
    seq![
        (
            (ModeKey { compiler_mode: CompilerMode::Check, profile_mode: ProfileMode::Clean }),
            Seq::empty(),
        ),
        (
            (ModeKey {
                compiler_mode: CompilerMode::Check,
                profile_mode: ProfileMode::Incremental,
            }),
            Seq::empty(),
        ),
        (
            (ModeKey {
                compiler_mode: CompilerMode::Check,
                profile_mode: ProfileMode::PatchIncremental,
            }),
            Seq::empty(),
        ),
        (
            (ModeKey { compiler_mode: CompilerMode::Debug, profile_mode: ProfileMode::Clean }),
            Seq::empty(),
        ),
        (
            (ModeKey {
                compiler_mode: CompilerMode::Debug,
                profile_mode: ProfileMode::Incremental,
            }),
            Seq::empty(),
        ),
        (
            (ModeKey {
                compiler_mode: CompilerMode::Debug,
                profile_mode: ProfileMode::PatchIncremental,
            }),
            Seq::empty(),
        ),
        (
            (ModeKey { compiler_mode: CompilerMode::Release, profile_mode: ProfileMode::Clean }),
            Seq::empty(),
        ),
        (
            (ModeKey {
                compiler_mode: CompilerMode::Release,
                profile_mode: ProfileMode::Incremental,
            }),
            Seq::empty(),
        ),
        (
            (ModeKey {
                compiler_mode: CompilerMode::Release,
                profile_mode: ProfileMode::PatchIncremental,
            }),
            Seq::empty(),
        ),
    ]
}

/// The state entering the mode loop. A zero-repetition run has no timed
/// stages, but it still records every bucket — empty — before moving to the
/// size phase, so the version can become fully profiled.
pub open spec fn spec_enter_modes(s: SessionModel) -> SessionModel {
    if s.times == 0 {
        SessionModel {
            phase: Phase::SizeDebugBuild,
            stage: Stage::PrepClean,
            mode_idx: 0,
            rep: 0,
            grid: s.grid + spec_empty_grid(),
            ..s
        }
    } else {
        SessionModel { phase: Phase::Compile, stage: Stage::PrepClean, mode_idx: 0, rep: 0, ..s }
    }
}

/// The transition relation: the state after an event answers the demanded
/// action. A state demanding nothing, or an event of the wrong kind, changes
/// nothing.
pub open spec fn spec_step(s: SessionModel, ev: Event) -> SessionModel {
    match spec_next_action(s) {
        None => s,
        Some(a) => {
            if !spec_event_matches(a, ev) {
                s
            } else {
                match s.phase {
                    Phase::Warmup => match ev {
                        Event::Compiled(Some(_)) => spec_enter_modes(s),
                        _ => SessionModel { phase: Phase::SizeDebugBuild, ..s },
                    },
                    Phase::Compile => spec_step_compile(s, ev),
                    Phase::SizeDebugBuild => match ev {
                        Event::Compiled(Some(_)) => SessionModel {
                            phase: Phase::SizeDebugStat,
                            ..s
                        },
                        _ => SessionModel { phase: Phase::Done, ..s },
                    },
                    Phase::SizeDebugStat => match ev {
                        Event::Stated(Some(b)) => SessionModel {
                            phase: Phase::SizeReleaseBuild,
                            debug_size: Some(b),
                            ..s
                        },
                        _ => SessionModel { phase: Phase::Done, ..s },
                    },
                    Phase::SizeReleaseBuild => match ev {
                        Event::Compiled(Some(_)) => SessionModel {
                            phase: Phase::SizeReleaseStat,
                            ..s
                        },
                        _ => SessionModel { phase: Phase::Done, ..s },
                    },
                    Phase::SizeReleaseStat => match ev {
                        Event::Stated(Some(b)) => SessionModel {
                            phase: Phase::Done,
                            sizes: match s.debug_size {
                                Some(d) => Some((d, b)),
                                None => None,
                            },
                            ..s
                        },
                        _ => SessionModel { phase: Phase::Done, ..s },
                    },
                    Phase::Done => s,
                }
            }
        },
    }
}

/// The compile-phase transitions: the stage cycle with its failure paths.
pub open spec fn spec_step_compile(s: SessionModel, ev: Event) -> SessionModel {
    match s.stage {
        Stage::PrepClean => match ev {
            Event::Completed(true) => SessionModel { stage: Stage::RunClean, ..s },
            _ => spec_abandon_mode(s),
        },
        Stage::RunClean => match ev {
            Event::Compiled(Some(ms)) => SessionModel {
                stage: Stage::PrepTouch,
                cur_clean: s.cur_clean.push(ms),
                ..s
            },
            _ => spec_abandon_mode(s),
        },
        Stage::PrepTouch => match ev {
            Event::Completed(true) => SessionModel { stage: Stage::RunIncremental, ..s },
            _ => spec_abandon_mode(s),
        },
        Stage::RunIncremental => match ev {
            Event::Compiled(Some(ms)) => SessionModel {
                stage: Stage::PrepPatch,
                cur_incr: s.cur_incr.push(ms),
                ..s
            },
            _ => spec_abandon_mode(s),
        },
        Stage::PrepPatch => match ev {
            Event::Completed(true) => SessionModel { stage: Stage::RunPatch, patched: true, ..s },
            // A failed patch may still have written: revert before moving on.
            _ => SessionModel { stage: Stage::RevertAbort, patched: true, ..s },
        },
        Stage::RunPatch => match ev {
            Event::Compiled(Some(ms)) => SessionModel {
                stage: Stage::Revert,
                cur_patch: s.cur_patch.push(ms),
                ..s
            },
            _ => SessionModel { stage: Stage::RevertAbort, ..s },
        },
        Stage::Revert => match ev {
            Event::Completed(true) => {
                let s2 = SessionModel { patched: false, ..s };
                if s.rep + 1 == s.times {
                    spec_commit_mode(s2)
                } else {
                    SessionModel { stage: Stage::PrepClean, rep: s.rep + 1, ..s2 }
                }
            },
            _ => spec_vcs_failure(s),
        },
        Stage::RevertAbort => match ev {
            Event::Completed(true) => spec_abandon_mode(SessionModel { patched: false, ..s }),
            _ => spec_vcs_failure(s),
        },
    }
}

/// The state after a revert command failed: the session ends, the partial
/// buckets are discarded, and the tree's state is no longer promised.
pub open spec fn spec_vcs_failure(s: SessionModel) -> SessionModel {
    SessionModel {
        phase: Phase::Done,
        vcs_failed: true,
        cur_clean: Seq::empty(),
        cur_incr: Seq::empty(),
        cur_patch: Seq::empty(),
        ..s
    }
}

/// Structural soundness of a session state.
pub open spec fn spec_wf(s: SessionModel) -> bool {
    &&& s.times >= 0
    &&& s.times <= 0xffff_ffff
    &&& 0 <= s.mode_idx <= 3
    &&& (s.phase == Phase::Compile ==> {
        &&& s.mode_idx < 3
        &&& 0 <= s.rep < s.times
        &&& s.cur_clean.len() == s.rep + (match s.stage {
            Stage::PrepClean => 0int,
            Stage::RunClean => 0int,
            _ => 1int,
        })
        &&& s.cur_incr.len() == s.rep + (match s.stage {
            Stage::PrepPatch => 1int,
            Stage::RunPatch => 1int,
            Stage::Revert => 1int,
            Stage::RevertAbort => 1int,
            _ => 0int,
        })
        &&& s.cur_patch.len() == s.rep + (match s.stage {
            Stage::Revert => 1int,
            _ => 0int,
        })
    })
    &&& (s.phase != Phase::Compile ==> s.cur_clean.len() == 0 && s.cur_incr.len() == 0
        && s.cur_patch.len() == 0)
    &&& (forall|i: int| 0 <= i < s.grid.len() ==> (#[trigger] s.grid[i]).1.len() == s.times)
    &&& ((s.phase == Phase::SizeReleaseBuild || s.phase == Phase::SizeReleaseStat)
        ==> s.debug_size is Some)
    &&& (s.vcs_failed ==> s.phase == Phase::Done)
}

/// The scoped-mutation invariant behind the stage-sequence guarantee: unless
/// a revert itself failed, the touch file is patched exactly while a patch
/// build or its revert is outstanding.
pub open spec fn spec_tree_inv(s: SessionModel) -> bool {
    !s.vcs_failed ==> (s.patched <==> (s.phase == Phase::Compile && (s.stage == Stage::RunPatch
        || s.stage == Stage::Revert || s.stage == Stage::RevertAbort)))
}

/// Stage-sequence invariant: every step of the protocol keeps the
/// scoped-mutation invariant, so after any number of repetitions — completed
/// or aborted mid-way — the touch file is back to its pristine state
/// whenever no revert command itself failed.
pub proof fn lemma_stage_sequence_invariant(s: SessionModel, ev: Event)
    requires
        spec_wf(s),
        spec_tree_inv(s),
    ensures
        spec_tree_inv(spec_step(s, ev)),
{
}

/// A session that ended without a version-control failure leaves the touch
/// file pristine.
pub proof fn lemma_session_ends_clean(s: SessionModel)
    requires
        spec_tree_inv(s),
        s.phase == Phase::Done,
        !s.vcs_failed,
    ensures
        !s.patched,
{
}

/// Each protocol step preserves structural soundness.
pub proof fn lemma_step_wf(s: SessionModel, ev: Event)
    requires
        spec_wf(s),
    ensures
        spec_wf(spec_step(s, ev)),
{
    if s.phase == Phase::Compile {
        match spec_next_action(s) {
            Some(a) => {
                if spec_event_matches(a, ev) {
                    lemma_step_compile_wf(s, ev);
                }
            },
            None => {},
        }
    }
    if s.phase == Phase::Warmup && s.times == 0 {
        match ev {
            Event::Compiled(Some(_)) => {
                let s2 = spec_enter_modes(s);
                assert forall|i: int| 0 <= i < s2.grid.len() implies (#[trigger] s2.grid[i]).1.len()
                    == s2.times by {
                    if i < s.grid.len() {
                        assert(s2.grid[i] == s.grid[i]);
                    } else {
                        assert(s2.grid[i] == spec_empty_grid()[i - s.grid.len()]);
                    }
                }
            },
            _ => {},
        }
    }
}

/// Compile-phase steps preserve structural soundness.
proof fn lemma_step_compile_wf(s: SessionModel, ev: Event)
    requires
        spec_wf(s),
        s.phase == Phase::Compile,
    ensures
        spec_wf(spec_step_compile(s, ev)),
{
    let s2 = spec_step_compile(s, ev);
    if s.stage == Stage::Revert {
        match ev {
            Event::Completed(true) => {
                if s.rep + 1 == s.times {
                    let sc = spec_commit_mode(SessionModel { patched: false, ..s });
                    assert forall|i: int| 0 <= i < sc.grid.len() implies (#[trigger] sc.grid[i]).1.len()
                        == sc.times by {
                        if i < s.grid.len() {
                            assert(sc.grid[i] == s.grid[i]);
                        }
                    }
                }
            },
            _ => {},
        }
    }
}

impl Session {
    pub open spec fn wf(self) -> bool {
        spec_wf(self@)
    }

    /// A fresh session for one version with the configured repetition count.
    pub fn new(version: Version, times: u32) -> (s: Session)
        ensures
            s.wf(),
            spec_tree_inv(s@),
            s@ == (SessionModel {
                version: version,
                times: times as int,
                phase: Phase::Warmup,
                stage: Stage::PrepClean,
                mode_idx: 0,
                rep: 0,
                cur_clean: Seq::empty(),
                cur_incr: Seq::empty(),
                cur_patch: Seq::empty(),
                grid: Seq::empty(),
                debug_size: None,
                sizes: None,
                patched: false,
                vcs_failed: false,
            }),
    {
        let s = Session {
            version,
            times,
            phase: Phase::Warmup,
            stage: Stage::PrepClean,
            mode_idx: 0,
            rep: 0,
            cur_clean: Vec::new(),
            cur_incr: Vec::new(),
            cur_patch: Vec::new(),
            grid: Vec::new(),
            debug_size: None,
            sizes: None,
            patched: false,
            vcs_failed: false,
        };
        proof {
            assert(spec_grid_view(s.grid@) =~= Seq::<(ModeKey, Seq<Milliseconds>)>::empty());
            assert(s@ =~~= (SessionModel {
                version: version,
                times: times as int,
                phase: Phase::Warmup,
                stage: Stage::PrepClean,
                mode_idx: 0,
                rep: 0,
                cur_clean: Seq::empty(),
                cur_incr: Seq::empty(),
                cur_patch: Seq::empty(),
                grid: Seq::empty(),
                debug_size: None,
                sizes: None,
                patched: false,
                vcs_failed: false,
            }));
        }
        s
    }

    /// What the caller must do next; `None` when the session is over.
    pub fn next_action(&self) -> (r: Option<Action>)
        ensures
            r == spec_next_action(self@),
    {
        match self.phase {
            Phase::Warmup => Some(Action::RunCompile(CompilerMode::Check)),
            Phase::Compile => match self.stage {
                Stage::PrepClean => Some(Action::RemoveTargetDir),
                Stage::RunClean => Some(Action::RunCompile(self.mode())),
                Stage::PrepTouch => Some(Action::TouchSrc),
                Stage::RunIncremental => Some(Action::RunCompile(self.mode())),
                Stage::PrepPatch => Some(Action::ApplyPatch),
                Stage::RunPatch => Some(Action::RunCompile(self.mode())),
                Stage::Revert => Some(Action::Revert),
                Stage::RevertAbort => Some(Action::Revert),
            },
            Phase::SizeDebugBuild => Some(Action::RunCompile(CompilerMode::Debug)),
            Phase::SizeDebugStat => Some(Action::StatArtifact(CompilerMode::Debug)),
            Phase::SizeReleaseBuild => Some(Action::RunCompile(CompilerMode::Release)),
            Phase::SizeReleaseStat => Some(Action::StatArtifact(CompilerMode::Release)),
            Phase::Done => None,
        }
    }

    /// The compiler mode the current mode index names.
    fn mode(&self) -> (m: CompilerMode)
        ensures
            m == spec_mode_of(self@.mode_idx),
    {
        if self.mode_idx == 0 {
            CompilerMode::Check
        } else if self.mode_idx == 1 {
            CompilerMode::Debug
        } else {
            CompilerMode::Release
        }
    }

    /// Feeds back what happened to the demanded action, advancing the
    /// machine by exactly one transition.
    pub fn step(&mut self, ev: Event)
        requires
            old(self).wf(),
            match spec_next_action(old(self)@) {
                Some(a) => spec_event_matches(a, ev),
                None => false,
            },
        ensures
            final(self).wf(),
            final(self)@ == spec_step(old(self)@, ev),
    {
        proof {
            lemma_step_wf(old(self)@, ev);
        }
        match self.phase {
            Phase::Warmup => {
                let ok = match ev {
                    Event::Compiled(Some(_)) => true,
                    _ => false,
                };
                if ok {
                    self.stage = Stage::PrepClean;
                    self.mode_idx = 0;
                    self.rep = 0;
                    if self.times == 0 {
                        self.phase = Phase::SizeDebugBuild;
                        let ghost g0 = spec_grid_view(self.grid@);
                        self.push_empty_buckets();
                        proof {
                            assert(spec_grid_view(self.grid@) =~= g0 + spec_empty_grid());
                        }
                    } else {
                        self.phase = Phase::Compile;
                    }
                } else {
                    self.phase = Phase::SizeDebugBuild;
                }
            },
            Phase::Compile => {
                self.step_compile(ev);
            },
            Phase::SizeDebugBuild => {
                match ev {
                    Event::Compiled(Some(_)) => {
                        self.phase = Phase::SizeDebugStat;
                    },
                    _ => {
                        self.phase = Phase::Done;
                    },
                }
            },
            Phase::SizeDebugStat => {
                match ev {
                    Event::Stated(Some(b)) => {
                        self.phase = Phase::SizeReleaseBuild;
                        self.debug_size = Some(b);
                    },
                    _ => {
                        self.phase = Phase::Done;
                    },
                }
            },
            Phase::SizeReleaseBuild => {
                match ev {
                    Event::Compiled(Some(_)) => {
                        self.phase = Phase::SizeReleaseStat;
                    },
                    _ => {
                        self.phase = Phase::Done;
                    },
                }
            },
            Phase::SizeReleaseStat => {
                match ev {
                    Event::Stated(Some(b)) => {
                        self.phase = Phase::Done;
                        self.sizes = match self.debug_size {
                            Some(d) => Some((d, b)),
                            None => None,
                        };
                    },
                    _ => {
                        self.phase = Phase::Done;
                    },
                }
            },
            Phase::Done => {
                proof {
                    assert(false);
                }
            },
        }
        proof {
            assert(self@ =~~= spec_step(old(self)@, ev));
        }
    }

    /// One compile-phase transition.
    fn step_compile(&mut self, ev: Event)
        requires
            old(self).wf(),
            old(self)@.phase == Phase::Compile,
            match spec_next_action(old(self)@) {
                Some(a) => spec_event_matches(a, ev),
                None => false,
            },
        ensures
            final(self)@ == spec_step_compile(old(self)@, ev),
    {
        match self.stage {
            Stage::PrepClean => {
                match ev {
                    Event::Completed(true) => {
                        self.stage = Stage::RunClean;
                    },
                    _ => {
                        self.abandon_mode();
                    },
                }
            },
            Stage::RunClean => {
                match ev {
                    Event::Compiled(Some(ms)) => {
                        self.stage = Stage::PrepTouch;
                        self.cur_clean.push(ms);
                    },
                    _ => {
                        self.abandon_mode();
                    },
                }
            },
            Stage::PrepTouch => {
                match ev {
                    Event::Completed(true) => {
                        self.stage = Stage::RunIncremental;
                    },
                    _ => {
                        self.abandon_mode();
                    },
                }
            },
            Stage::RunIncremental => {
                match ev {
                    Event::Compiled(Some(ms)) => {
                        self.stage = Stage::PrepPatch;
                        self.cur_incr.push(ms);
                    },
                    _ => {
                        self.abandon_mode();
                    },
                }
            },
            Stage::PrepPatch => {
                match ev {
                    Event::Completed(true) => {
                        self.stage = Stage::RunPatch;
                        self.patched = true;
                    },
                    _ => {
                        self.stage = Stage::RevertAbort;
                        self.patched = true;
                    },
                }
            },
            Stage::RunPatch => {
                match ev {
                    Event::Compiled(Some(ms)) => {
                        self.stage = Stage::Revert;
                        self.cur_patch.push(ms);
                    },
                    _ => {
                        self.stage = Stage::RevertAbort;
                    },
                }
            },
            Stage::Revert => {
                match ev {
                    Event::Completed(true) => {
                        self.patched = false;
                        if self.rep + 1 == self.times {
                            self.commit_mode();
                        } else {
                            self.stage = Stage::PrepClean;
                            self.rep = self.rep + 1;
                        }
                    },
                    _ => {
                        self.phase = Phase::Done;
                        self.vcs_failed = true;
                        self.cur_clean = Vec::new();
                        self.cur_incr = Vec::new();
                        self.cur_patch = Vec::new();
                    },
                }
            },
            Stage::RevertAbort => {
                match ev {
                    Event::Completed(true) => {
                        self.patched = false;
                        self.abandon_mode();
                    },
                    _ => {
                        self.phase = Phase::Done;
                        self.vcs_failed = true;
                        self.cur_clean = Vec::new();
                        self.cur_incr = Vec::new();
                        self.cur_patch = Vec::new();
                    },
                }
            },
        }
        proof {
            assert(self@ =~~= spec_step_compile(old(self)@, ev));
        }
    }

    /// Records the nine buckets of a zero-repetition run, all empty.
    fn push_empty_buckets(&mut self)
        ensures
            final(self)@ == (SessionModel {
                grid: old(self)@.grid + spec_empty_grid(),
                ..old(self)@
            }),
    {
        self.grid.push(
            (
                ModeKey { compiler_mode: CompilerMode::Check, profile_mode: ProfileMode::Clean },
                Vec::new(),
            ),
        );
        self.grid.push(
            (
                ModeKey {
                    compiler_mode: CompilerMode::Check,
                    profile_mode: ProfileMode::Incremental,
                },
                Vec::new(),
            ),
        );
        self.grid.push(
            (
                ModeKey {
                    compiler_mode: CompilerMode::Check,
                    profile_mode: ProfileMode::PatchIncremental,
                },
                Vec::new(),
            ),
        );
        self.grid.push(
            (
                ModeKey { compiler_mode: CompilerMode::Debug, profile_mode: ProfileMode::Clean },
                Vec::new(),
            ),
        );
        self.grid.push(
            (
                ModeKey {
                    compiler_mode: CompilerMode::Debug,
                    profile_mode: ProfileMode::Incremental,
                },
                Vec::new(),
            ),
        );
        self.grid.push(
            (
                ModeKey {
                    compiler_mode: CompilerMode::Debug,
                    profile_mode: ProfileMode::PatchIncremental,
                },
                Vec::new(),
            ),
        );
        self.grid.push(
            (
                ModeKey {
                    compiler_mode: CompilerMode::Release,
                    profile_mode: ProfileMode::Clean,
                },
                Vec::new(),
            ),
        );
        self.grid.push(
            (
                ModeKey {
                    compiler_mode: CompilerMode::Release,
                    profile_mode: ProfileMode::Incremental,
                },
                Vec::new(),
            ),
        );
        self.grid.push(
            (
                ModeKey {
                    compiler_mode: CompilerMode::Release,
                    profile_mode: ProfileMode::PatchIncremental,
                },
                Vec::new(),
            ),
        );
        proof {
            assert(spec_grid_view(self.grid@) =~= spec_grid_view(old(self).grid@)
                + spec_empty_grid());
            assert(self@ =~~= (SessionModel { grid: old(self)@.grid + spec_empty_grid(), ..old(
                self,
            )@ }));
        }
    }

    /// Discards the current mode's partial buckets and moves on.
    fn abandon_mode(&mut self)
        requires
            old(self)@.phase == Phase::Compile,
            old(self)@.mode_idx < 3,
        ensures
            final(self)@ == spec_abandon_mode(old(self)@),
    {
        self.mode_idx = self.mode_idx + 1;
        self.rep = 0;
        self.stage = Stage::PrepClean;
        self.cur_clean = Vec::new();
        self.cur_incr = Vec::new();
        self.cur_patch = Vec::new();
        if self.mode_idx == 3 {
            self.phase = Phase::SizeDebugBuild;
        } else {
            self.phase = Phase::Compile;
        }
        proof {
            assert(self@ =~~= spec_abandon_mode(old(self)@));
        }
    }

    /// Commits the current mode's three buckets and moves on.
    fn commit_mode(&mut self)
        requires
            old(self)@.phase == Phase::Compile,
            old(self)@.mode_idx < 3,
        ensures
            final(self)@ == spec_commit_mode(old(self)@),
    {
        let m = self.mode();
        let mut clean: Vec<Milliseconds> = Vec::new();
        let mut incr: Vec<Milliseconds> = Vec::new();
        let mut patch: Vec<Milliseconds> = Vec::new();
        core::mem::swap(&mut clean, &mut self.cur_clean);
        core::mem::swap(&mut incr, &mut self.cur_incr);
        core::mem::swap(&mut patch, &mut self.cur_patch);
        let ghost g0 = self@.grid;
        self.grid.push((ModeKey { compiler_mode: m, profile_mode: ProfileMode::Clean }, clean));
        self.grid.push(
            (ModeKey { compiler_mode: m, profile_mode: ProfileMode::Incremental }, incr),
        );
        self.grid.push(
            (ModeKey { compiler_mode: m, profile_mode: ProfileMode::PatchIncremental }, patch),
        );
        self.mode_idx = self.mode_idx + 1;
        self.rep = 0;
        self.stage = Stage::PrepClean;
        if self.mode_idx == 3 {
            self.phase = Phase::SizeDebugBuild;
        } else {
            self.phase = Phase::Compile;
        }
        proof {
            assert(self@.grid =~= spec_commit_mode(old(self)@).grid);
            assert(self@ =~~= spec_commit_mode(old(self)@));
        }
    }

    /// Whether the session is over.
    pub fn finished(&self) -> (b: bool)
        ensures
            b == (self@.phase == Phase::Done),
    {
        match self.phase {
            Phase::Done => true,
            _ => false,
        }
    }

    /// The committed grid and the measured sizes of a finished session.
    pub fn into_results(self) -> (r: (Vec<(ModeKey, Vec<Milliseconds>)>, Option<(Bytes, Bytes)>))
        requires
            self@.phase == Phase::Done,
        ensures
            spec_grid_view(r.0@) == self@.grid,
            r.1 == self@.sizes,
    {
        let Session { grid, sizes, .. } = self;
        (grid, sizes)
    }

    /// Whether a revert command failed during the session.
    pub fn vcs_failed(&self) -> (b: bool)
        ensures
            b == self@.vcs_failed,
    {
        self.vcs_failed
    }

    /// The version this session measures.
    pub fn version(&self) -> (v: Version)
        ensures
            v == self@.version,
    {
        self.version
    }
}

} // verus!
