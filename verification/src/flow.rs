//! The course of a verification: what is announced, and what is asked of
//! the caller next.
//!
//! A `VerificationFlow` is told what the caller's last piece of work gave
//! and answers with the events to announce, the lists to show and the work
//! to do next. The caller runs the archive tool and looks at the file
//! system; the flow decides.

use vstd::prelude::*;

verus! {

/// Whether missing files are added to the archive again.
#[derive(Debug, Clone, Copy, PartialEq, Eq)]
pub enum VerificationMode {
    /// Missing files are reported only.
    VerifyOnly,
    /// Missing files are added to the archive, which is then verified again.
    VerifyWithRetry,
}

/// What happens in the course of a verification.
#[derive(Debug, Clone, Copy, PartialEq, Eq)]
pub enum VerificationEvent {
    /// The verification begins.
    Starting,
    /// The archive was listed.
    ArchiveListingComplete { entries_found: usize },
    /// The expected files were compared with the archive.
    ComparisonComplete { missing: usize, found: usize, total_expected: usize },
    /// The missing files are shown.
    DisplayingMissingFiles { count: usize },
    /// The times of the files are about to be compared.
    FreshnessCheckStarting,
    /// The times of the files were compared.
    FreshnessCheckComplete {
        outdated: usize,
        up_to_date: usize,
        unverifiable: usize,
        total_checked: usize,
    },
    /// The outdated files are shown.
    DisplayingOutdatedFiles { count: usize },
    /// The outdated files are about to be added again.
    UpdatingOutdatedFiles { files_to_update: usize },
    /// The outdated files were added again.
    UpdateOutdatedComplete { files_updated: usize },
    /// The missing files are about to be added.
    RetryStarting { files_to_retry: usize },
    /// The missing files were added.
    RetryComplete { files_added: usize },
    /// The archive was verified again.
    RetryVerificationComplete { final_missing: usize, final_found: usize, final_total: usize },
    /// No expected file is missing.
    Complete { mode: VerificationMode },
}

/// Receives the events of a verification.
pub trait VerificationCallback {
    /// Is called for each event, in order.
    fn on_event(&self, event: VerificationEvent);
}

/// A receiver that writes the events to the console.
#[derive(Debug, Clone, Copy)]
pub struct ConsoleCallback {
    pub show_progress: bool,
}

impl ConsoleCallback {
    pub fn new(show_progress: bool) -> (c: Self)
        ensures
            c.show_progress == show_progress,
    {
        ConsoleCallback { show_progress }
    }

    /// Whether `event` is written: progress is shown, and the event is none
    /// of those that another part presents or that are not presented at all.
    pub open spec fn writes(self, event: VerificationEvent) -> bool {
        self.show_progress && !(event is ArchiveListingComplete || event is DisplayingMissingFiles
            || event is DisplayingOutdatedFiles)
    }

    /// Whether `event` is written to the console.
    pub fn is_written(&self, event: &VerificationEvent) -> (b: bool)
        ensures
            b == self.writes(*event),
    {
        if !self.show_progress {
            return false;
        }
        match event {
            VerificationEvent::ArchiveListingComplete { .. } => false,
            VerificationEvent::DisplayingMissingFiles { .. } => false,
            VerificationEvent::DisplayingOutdatedFiles { .. } => false,
            _ => true,
        }
    }

    /// Whether the hint at the retry option follows `event`: after a
    /// verification without retry that found every file.
    pub fn hints_at_retry(&self, event: &VerificationEvent) -> (b: bool)
        ensures
            b == (self.show_progress && *event == (VerificationEvent::Complete {
                mode: VerificationMode::VerifyOnly,
            })),
    {
        if !self.show_progress {
            return false;
        }
        match event {
            VerificationEvent::Complete { mode } => match mode {
                VerificationMode::VerifyOnly => true,
                VerificationMode::VerifyWithRetry => false,
            },
            _ => false,
        }
    }
}

/// What the caller's last piece of work gave.
#[derive(Debug, Clone, Copy, PartialEq, Eq)]
pub enum Outcome {
    /// Nothing yet: the verification is to begin.
    Begin,
    /// The archive was compared with the expected files.
    Verified { missing: usize, found: usize, total_expected: usize },
    /// The missing files were looked up; so many of them exist.
    Validated { valid_missing: usize },
    /// The files were added to the archive.
    Added,
    /// The times of the files were compared.
    FreshnessChecked {
        outdated: usize,
        up_to_date: usize,
        unverifiable: usize,
        total_checked: usize,
    },
}

/// What the caller is to do next.
#[derive(Debug, Clone, Copy, PartialEq, Eq)]
pub enum Call {
    /// Compare the archive with the expected files.
    VerifyArchive,
    /// Look up which of the missing files exist.
    ValidateMissing,
    /// Add the missing files that exist to the archive.
    AddMissing,
    /// Compare the times of the files with those of their copies.
    CheckFreshness,
    /// Add the outdated files to the archive.
    AddOutdated,
    /// End with the result of the first comparison.
    ReturnFirst,
    /// End with the result of the comparison after the retry.
    ReturnRetry,
}

/// What the caller is to present.
#[derive(Debug, Clone, Copy, PartialEq, Eq)]
pub enum Effect {
    /// Announce the event.
    Emit(VerificationEvent),
    /// Show the consolidated report of the missing files.
    ShowMissingFiles,
    /// Say that none of the missing files exists.
    WarnNothingToRetry,
    /// Show the outdated files.
    ShowOutdatedFiles,
    /// Say that the outdated files were added again.
    AnnounceUpdate,
    /// Show the files whose times could not be compared.
    ShowUnverifiableFiles,
}

/// Which piece of work the flow waits for.
#[derive(Debug, Clone, Copy, PartialEq, Eq)]
pub enum Stage {
    /// The beginning.
    Start,
    /// The first comparison.
    Verifying,
    /// The lookup of the missing files.
    Validating,
    /// The adding of the missing files; `valid` of them exist.
    Adding { valid: usize },
    /// The comparison after the retry.
    Reverifying,
    /// The comparison of the times.
    CheckingFreshness,
    /// The adding of the `outdated` outdated files; `unverifiable` files
    /// could not be compared.
    Updating { outdated: usize, unverifiable: usize },
    /// Nothing: the verification is over.
    Done,
}

/// What a flow answers: what to present, in order, and what to do next.
pub struct Reaction {
    pub effects: Vec<Effect>,
    pub call: Call,
}

/// The state of a verification.
#[derive(Debug, Clone, Copy, PartialEq, Eq)]
pub struct VerificationFlow {
    pub mode: VerificationMode,
    pub check_freshness: bool,
    pub update_outdated: bool,
    pub stage: Stage,
}

/// What is presented at the end of the comparison of the times.
pub open spec fn closing_effects(unverifiable: usize) -> Seq<Effect> {
    if unverifiable > 0 {
        seq![Effect::ShowUnverifiableFiles]
    } else {
        Seq::empty()
    }
}

/// The stage, the effects and the call that follow when a flow in `flow`
/// is told `outcome`; nothing where the flow does not wait for it.
///
/// * A verification begins with the first comparison.
/// * Missing files are shown. With retry, the missing files are looked up;
///   those that exist are added and the archive is compared again, which
///   ends the verification. Without retry, or where none exists, the
///   verification ends with the first result.
/// * Where no file is missing, the verification is complete; the times are
///   then compared if that was asked for. Outdated files are shown, and
///   added again if that was asked for.
pub open spec fn transition(flow: VerificationFlow, outcome: Outcome) -> Option<
    (Stage, Seq<Effect>, Call),
> {
    match (flow.stage, outcome) {
        (Stage::Start, Outcome::Begin) => Some(
            (
                Stage::Verifying,
                seq![Effect::Emit(VerificationEvent::Starting)],
                Call::VerifyArchive,
            ),
        ),
        (Stage::Verifying, Outcome::Verified { missing, found, total_expected }) => {
            let compared = Effect::Emit(
                VerificationEvent::ComparisonComplete { missing, found, total_expected },
            );
            if missing > 0 {
                let shown = seq![
                    compared,
                    Effect::Emit(VerificationEvent::DisplayingMissingFiles { count: missing }),
                    Effect::ShowMissingFiles,
                ];
                if flow.mode == VerificationMode::VerifyWithRetry {
                    Some((Stage::Validating, shown, Call::ValidateMissing))
                } else {
                    Some((Stage::Done, shown, Call::ReturnFirst))
                }
            } else {
                let complete = Effect::Emit(VerificationEvent::Complete { mode: flow.mode });
                if flow.check_freshness {
                    Some(
                        (
                            Stage::CheckingFreshness,
                            seq![
                                compared,
                                complete,
                                Effect::Emit(VerificationEvent::FreshnessCheckStarting),
                            ],
                            Call::CheckFreshness,
                        ),
                    )
                } else {
                    Some((Stage::Done, seq![compared, complete], Call::ReturnFirst))
                }
            }
        },
        (Stage::Validating, Outcome::Validated { valid_missing }) => {
            if valid_missing > 0 {
                Some(
                    (
                        Stage::Adding { valid: valid_missing },
                        seq![
                            Effect::Emit(
                                VerificationEvent::RetryStarting { files_to_retry: valid_missing },
                            ),
                        ],
                        Call::AddMissing,
                    ),
                )
            } else {
                Some((Stage::Done, seq![Effect::WarnNothingToRetry], Call::ReturnFirst))
            }
        },
        (Stage::Adding { valid }, Outcome::Added) => Some(
            (
                Stage::Reverifying,
                seq![Effect::Emit(VerificationEvent::RetryComplete { files_added: valid })],
                Call::VerifyArchive,
            ),
        ),
        (Stage::Reverifying, Outcome::Verified { missing, found, total_expected }) => {
            let verified = Effect::Emit(
                VerificationEvent::RetryVerificationComplete {
                    final_missing: missing,
                    final_found: found,
                    final_total: total_expected,
                },
            );
            if missing == 0 {
                Some(
                    (
                        Stage::Done,
                        seq![
                            verified,
                            Effect::Emit(
                                VerificationEvent::Complete {
                                    mode: VerificationMode::VerifyWithRetry,
                                },
                            ),
                        ],
                        Call::ReturnRetry,
                    ),
                )
            } else {
                Some((Stage::Done, seq![verified], Call::ReturnRetry))
            }
        },
        (
            Stage::CheckingFreshness,
            Outcome::FreshnessChecked { outdated, up_to_date, unverifiable, total_checked },
        ) => {
            let checked = Effect::Emit(
                VerificationEvent::FreshnessCheckComplete {
                    outdated,
                    up_to_date,
                    unverifiable,
                    total_checked,
                },
            );
            if outdated > 0 {
                let shown = seq![
                    checked,
                    Effect::Emit(VerificationEvent::DisplayingOutdatedFiles { count: outdated }),
                    Effect::ShowOutdatedFiles,
                ];
                if flow.update_outdated {
                    Some(
                        (
                            Stage::Updating { outdated, unverifiable },
                            shown.push(
                                Effect::Emit(
                                    VerificationEvent::UpdatingOutdatedFiles {
                                        files_to_update: outdated,
                                    },
                                ),
                            ),
                            Call::AddOutdated,
                        ),
                    )
                } else {
                    Some((Stage::Done, shown + closing_effects(unverifiable), Call::ReturnFirst))
                }
            } else {
                Some(
                    (Stage::Done, seq![checked] + closing_effects(unverifiable), Call::ReturnFirst),
                )
            }
        },
        (Stage::Updating { outdated, unverifiable }, Outcome::Added) => Some(
            (
                Stage::Done,
                seq![
                    Effect::Emit(
                        VerificationEvent::UpdateOutdatedComplete { files_updated: outdated },
                    ),
                    Effect::AnnounceUpdate,
                ] + closing_effects(unverifiable),
                Call::ReturnFirst,
            ),
        ),
        _ => None,
    }
}

impl VerificationFlow {
    /// A verification that has not begun.
    pub fn new(mode: VerificationMode, check_freshness: bool, update_outdated: bool) -> (f: Self)
        ensures
            f == (VerificationFlow { mode, check_freshness, update_outdated, stage: Stage::Start }),
    {
        VerificationFlow { mode, check_freshness, update_outdated, stage: Stage::Start }
    }

    /// Whether the verification is over.
    pub fn is_done(&self) -> (b: bool)
        ensures
            b == (self.stage == Stage::Done),
    {
        match self.stage {
            Stage::Done => true,
            _ => false,
        }
    }

    /// Is told what the caller's last piece of work gave. Returns what to
    /// present and what to do next; returns nothing, and changes nothing,
    /// where the flow does not wait for this outcome.
    pub fn step(&mut self, outcome: Outcome) -> (r: Option<Reaction>)
        ensures
            match transition(*old(self), outcome) {
                Some((stage, effects, call)) => {
                    &&& r matches Some(reaction)
                    &&& reaction.effects@ == effects
                    &&& reaction.call == call
                    &&& *final(self) == (VerificationFlow { stage, ..*old(self) })
                },
                None => r is None && *final(self) == *old(self),
            },
    {
        let mut effects: Vec<Effect> = Vec::new();
        let call: Call;
        let stage: Stage;
        match (self.stage, outcome) {
            (Stage::Start, Outcome::Begin) => {
                effects.push(Effect::Emit(VerificationEvent::Starting));
                stage = Stage::Verifying;
                call = Call::VerifyArchive;
            },
            (Stage::Verifying, Outcome::Verified { missing, found, total_expected }) => {
                effects.push(
                    Effect::Emit(
                        VerificationEvent::ComparisonComplete { missing, found, total_expected },
                    ),
                );
                if missing > 0 {
                    effects.push(
                        Effect::Emit(VerificationEvent::DisplayingMissingFiles { count: missing }),
                    );
                    effects.push(Effect::ShowMissingFiles);
                    match self.mode {
                        VerificationMode::VerifyWithRetry => {
                            stage = Stage::Validating;
                            call = Call::ValidateMissing;
                        },
                        VerificationMode::VerifyOnly => {
                            stage = Stage::Done;
                            call = Call::ReturnFirst;
                        },
                    }
                } else {
                    effects.push(Effect::Emit(VerificationEvent::Complete { mode: self.mode }));
                    if self.check_freshness {
                        effects.push(Effect::Emit(VerificationEvent::FreshnessCheckStarting));
                        stage = Stage::CheckingFreshness;
                        call = Call::CheckFreshness;
                    } else {
                        stage = Stage::Done;
                        call = Call::ReturnFirst;
                    }
                }
            },
            (Stage::Validating, Outcome::Validated { valid_missing }) => {
                if valid_missing > 0 {
                    effects.push(
                        Effect::Emit(
                            VerificationEvent::RetryStarting { files_to_retry: valid_missing },
                        ),
                    );
                    stage = Stage::Adding { valid: valid_missing };
                    call = Call::AddMissing;
                } else {
                    effects.push(Effect::WarnNothingToRetry);
                    stage = Stage::Done;
                    call = Call::ReturnFirst;
                }
            },
            (Stage::Adding { valid }, Outcome::Added) => {
                effects.push(Effect::Emit(VerificationEvent::RetryComplete { files_added: valid }));
                stage = Stage::Reverifying;
                call = Call::VerifyArchive;
            },
            (Stage::Reverifying, Outcome::Verified { missing, found, total_expected }) => {
                effects.push(
                    Effect::Emit(
                        VerificationEvent::RetryVerificationComplete {
                            final_missing: missing,
                            final_found: found,
                            final_total: total_expected,
                        },
                    ),
                );
                if missing == 0 {
                    effects.push(
                        Effect::Emit(
                            VerificationEvent::Complete { mode: VerificationMode::VerifyWithRetry },
                        ),
                    );
                }
                stage = Stage::Done;
                call = Call::ReturnRetry;
            },
            (
                Stage::CheckingFreshness,
                Outcome::FreshnessChecked { outdated, up_to_date, unverifiable, total_checked },
            ) => {
                effects.push(
                    Effect::Emit(
                        VerificationEvent::FreshnessCheckComplete {
                            outdated,
                            up_to_date,
                            unverifiable,
                            total_checked,
                        },
                    ),
                );
                if outdated > 0 {
                    effects.push(
                        Effect::Emit(
                            VerificationEvent::DisplayingOutdatedFiles { count: outdated },
                        ),
                    );
                    effects.push(Effect::ShowOutdatedFiles);
                }
                if outdated > 0 && self.update_outdated {
                    effects.push(
                        Effect::Emit(
                            VerificationEvent::UpdatingOutdatedFiles { files_to_update: outdated },
                        ),
                    );
                    stage = Stage::Updating { outdated, unverifiable };
                    call = Call::AddOutdated;
                } else {
                    if unverifiable > 0 {
                        effects.push(Effect::ShowUnverifiableFiles);
                    }
                    stage = Stage::Done;
                    call = Call::ReturnFirst;
                }
            },
            (Stage::Updating { outdated, unverifiable }, Outcome::Added) => {
                effects.push(
                    Effect::Emit(
                        VerificationEvent::UpdateOutdatedComplete { files_updated: outdated },
                    ),
                );
                effects.push(Effect::AnnounceUpdate);
                if unverifiable > 0 {
                    effects.push(Effect::ShowUnverifiableFiles);
                }
                stage = Stage::Done;
                call = Call::ReturnFirst;
            },
            _ => {
                return None;
            },
        }
        proof {
            let expected = transition(*old(self), outcome);
            assert(expected is Some);
            let (_, expected_effects, _) = expected->0;
            assert(effects@ =~= expected_effects);
        }
        self.stage = stage;
        Some(Reaction { effects, call })
    }
}

/// Runs verifications: with a retry of missing files, and with a comparison
/// of times, where they are asked for.
#[derive(Debug, Clone, Copy)]
pub struct VerificationAndRetryService;

impl VerificationAndRetryService {
    /// The flow of a verification without a comparison of times.
    pub fn verify(mode: VerificationMode) -> (f: VerificationFlow)
        ensures
            f == (VerificationFlow {
                mode,
                check_freshness: false,
                update_outdated: false,
                stage: Stage::Start,
            }),
    {
        VerificationFlow::new(mode, false, false)
    }

    /// The flow of a verification that compares the times of the files
    /// where `check_freshness` is set and no file is missing, and adds
    /// outdated files again where `update_outdated` is set.
    pub fn verify_with_freshness(
        mode: VerificationMode,
        check_freshness: bool,
        update_outdated: bool,
    ) -> (f: VerificationFlow)
        ensures
            f == (VerificationFlow { mode, check_freshness, update_outdated, stage: Stage::Start }),
    {
        VerificationFlow::new(mode, check_freshness, update_outdated)
    }
}

} // verus!
