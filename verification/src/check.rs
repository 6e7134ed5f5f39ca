//! One scan of a tree: which store operation and which hashing comes next.
//!
//! The orchestrator holds the files of a finished walk and the lifecycle of
//! the run that records them. It performs nothing itself: it names the next
//! action, and is told how the action went.

use crate::store::append_entry_ops;
use crate::store::are_integers;
use crate::store::create_run_ops;
use crate::store::created_run_id;
use crate::store::finalize_run_ops;
use crate::store::greatest;
use crate::store::integers_of;
use crate::store::ops_of;
use crate::store::Datum;
use crate::store::rows_of;
use crate::store::Op;
use crate::store::StoreError;
use crate::store::StoreOp;
use crate::store::Value;
use crate::walk::paths_of;
use vstd::prelude::*;
use vstd::slice::slice_to_vec;
use vstd::string::StringSliceAdditionalSpecFns;
use vstd::utf8::encode_utf8;

verus! {

/// The lifecycle of the run that one scan records.
#[derive(Clone, Copy, Debug, PartialEq, Eq, Structural)]
pub enum RunPhase {
    /// No run has been created.
    NotStarted,
    /// The run exists in the store and takes entries.
    InProgress { run_id: i64 },
    /// The run has its end time.
    Finalized,
}

/// What the orchestrator wants done next.
#[derive(Clone, Debug, PartialEq, Eq)]
pub enum CheckAction {
    /// Create a run in the store and report its identifier.
    CreateRun,
    /// Compute the digest of this file and report it.
    HashFile { path: Vec<u8> },
    /// Append this entry to the run.
    AppendEntry { run_id: i64, path: Vec<u8>, digest: String },
    /// Set the end time of the run.
    FinalizeRun { run_id: i64 },
    /// Nothing is left to do.
    Done,
}

/// What a `CheckAction` stands for.
#[verifier::ext_equal]
pub ghost enum Step {
    CreateRun,
    HashFile { path: Seq<u8> },
    AppendEntry { run_id: i64, path: Seq<u8>, digest: Seq<char> },
    FinalizeRun { run_id: i64 },
    Done,
}

impl View for CheckAction {
    type V = Step;

    open spec fn view(&self) -> Step {
        match self {
            CheckAction::CreateRun => Step::CreateRun,
            CheckAction::HashFile { path } => Step::HashFile { path: path@ },
            CheckAction::AppendEntry { run_id, path, digest } => Step::AppendEntry {
                run_id: *run_id,
                path: path@,
                digest: digest@,
            },
            CheckAction::FinalizeRun { run_id } => Step::FinalizeRun { run_id: *run_id },
            CheckAction::Done => Step::Done,
        }
    }
}

/// A scan in progress, as proofs see it.
#[verifier::ext_equal]
pub ghost struct CheckState {
    /// The files of the walk, in the order of discovery.
    pub files: Seq<Seq<u8>>,
    /// How many of them have their entry in the store.
    pub cursor: int,
    /// The lifecycle of the run.
    pub phase: RunPhase,
    /// The digest of the file at the cursor, once it is known.
    pub digest: Option<Seq<char>>,
}

impl CheckState {
    /// The state of a scan before anything was done.
    pub open spec fn start(files: Seq<Seq<u8>>) -> CheckState {
        CheckState { files, cursor: 0, phase: RunPhase::NotStarted, digest: None }
    }

    /// What is to be done in this state.
    ///
    /// Without files there is nothing to do, and no run is ever created.
    /// Else the run is created first; then each file in turn is hashed and
    /// its entry appended; the run is finalized when no file is left.
    pub open spec fn next_step(self) -> Step {
        match self.phase {
            RunPhase::NotStarted => if self.files.len() == 0 {
                Step::Done
            } else {
                Step::CreateRun
            },
            RunPhase::InProgress { run_id } => if 0 <= self.cursor < self.files.len() {
                match self.digest {
                    None => Step::HashFile { path: self.files[self.cursor] },
                    Some(digest) => Step::AppendEntry {
                        run_id,
                        path: self.files[self.cursor],
                        digest,
                    },
                }
            } else {
                Step::FinalizeRun { run_id }
            },
            RunPhase::Finalized => Step::Done,
        }
    }

    /// The state after the store created the run `run_id`. Where no run was
    /// asked for, nothing changes.
    pub open spec fn run_created(self, run_id: i64) -> CheckState {
        if self.next_step() is CreateRun {
            CheckState { phase: RunPhase::InProgress { run_id }, ..self }
        } else {
            self
        }
    }

    /// The state after the digest of the file at the cursor came in. Where
    /// no digest was asked for, nothing changes.
    pub open spec fn digest_ready(self, digest: Seq<char>) -> CheckState {
        if self.next_step() is HashFile {
            CheckState { digest: Some(digest), ..self }
        } else {
            self
        }
    }

    /// The state after the store took the entry of the file at the cursor.
    /// Where no entry was to be appended, nothing changes.
    pub open spec fn entry_appended(self) -> CheckState {
        if self.next_step() is AppendEntry {
            CheckState { cursor: self.cursor + 1, digest: None, ..self }
        } else {
            self
        }
    }

    /// The state after the store set the end time of the run. Where the run
    /// was not to be finalized, nothing changes.
    pub open spec fn run_finalized(self) -> CheckState {
        if self.next_step() is FinalizeRun {
            CheckState { phase: RunPhase::Finalized, ..self }
        } else {
            self
        }
    }
}

/// The store operations that perform a step. Hashing is none of the
/// store's business, and `Done` asks for nothing.
pub open spec fn ops_for(step: Step) -> Seq<Op> {
    match step {
        Step::CreateRun => seq![Op::InsertRun, Op::LatestRun],
        Step::AppendEntry { run_id, path, digest } => seq![
            Op::InsertEntry { run_id, path, digest: encode_utf8(digest) },
        ],
        Step::FinalizeRun { run_id } => seq![Op::FinalizeRun { run_id }],
        _ => Seq::empty(),
    }
}

/// The state after the store answered the operations of the next step with
/// `rows`, and the error where the answer cannot be used. Only the answer
/// to the creation of the run is read: it has to show the run's identifier.
pub open spec fn after_reply(state: CheckState, rows: Seq<Seq<Datum>>) -> Result<
    CheckState,
    StoreError,
> {
    match state.next_step() {
        Step::CreateRun => if !are_integers(rows) {
            Err(StoreError::MalformedReply)
        } else {
            match greatest(integers_of(rows)) {
                Some(run_id) => Ok(state.run_created(run_id)),
                None => Err(StoreError::MissingRun),
            }
        },
        Step::AppendEntry { .. } => Ok(state.entry_appended()),
        Step::FinalizeRun { .. } => Ok(state.run_finalized()),
        _ => Ok(state),
    }
}

/// The store operations that perform an action.
pub fn store_ops(action: &CheckAction) -> (ops: Vec<StoreOp>)
    ensures
        ops_of(ops@) == ops_for(action@),
{
    match action {
        CheckAction::CreateRun => create_run_ops(),
        CheckAction::AppendEntry { run_id, path, digest } => append_entry_ops(
            *run_id,
            path.as_slice(),
            digest.as_str(),
        ),
        CheckAction::FinalizeRun { run_id } => finalize_run_ops(*run_id),
        _ => {
            let ops: Vec<StoreOp> = Vec::new();
            assert(ops_of(ops@) =~= Seq::<Op>::empty());
            ops
        },
    }
}

/// The text of an optional string.
pub open spec fn text_of(digest: Option<String>) -> Option<Seq<char>> {
    match digest {
        Some(text) => Some(text@),
        None => None,
    }
}

/// The scan of the files of one walk.
pub struct Orchestrator {
    files: Vec<Vec<u8>>,
    cursor: usize,
    phase: RunPhase,
    digest: Option<String>,
}

impl View for Orchestrator {
    type V = CheckState;

    closed spec fn view(&self) -> CheckState {
        CheckState {
            files: paths_of(self.files@),
            cursor: self.cursor as int,
            phase: self.phase,
            digest: text_of(self.digest),
        }
    }
}

impl Orchestrator {
    /// A scan that is to record these files, in this order.
    pub fn new(files: Vec<Vec<u8>>) -> (scan: Orchestrator)
        ensures
            scan@ == CheckState::start(paths_of(files@)),
    {
        Orchestrator { files, cursor: 0, phase: RunPhase::NotStarted, digest: None }
    }

    /// The lifecycle of the run.
    pub fn phase(&self) -> (phase: RunPhase)
        ensures
            phase == self@.phase,
    {
        self.phase
    }

    /// What is to be done next.
    pub fn next_action(&self) -> (action: CheckAction)
        ensures
            action@ == self@.next_step(),
    {
        match self.phase {
            RunPhase::NotStarted => {
                if self.files.len() == 0 {
                    CheckAction::Done
                } else {
                    CheckAction::CreateRun
                }
            },
            RunPhase::InProgress { run_id } => {
                if self.cursor < self.files.len() {
                    let path = slice_to_vec(self.files[self.cursor].as_slice());
                    match &self.digest {
                        None => CheckAction::HashFile { path },
                        Some(digest) => CheckAction::AppendEntry {
                            run_id,
                            path,
                            digest: digest.clone(),
                        },
                    }
                } else {
                    CheckAction::FinalizeRun { run_id }
                }
            },
            RunPhase::Finalized => CheckAction::Done,
        }
    }

    /// Reports that the store created a run and gave it this identifier.
    pub fn run_created(&mut self, run_id: i64)
        ensures
            final(self)@ == old(self)@.run_created(run_id),
    {
        match self.phase {
            RunPhase::NotStarted => {
                if self.files.len() != 0 {
                    self.phase = RunPhase::InProgress { run_id };
                }
            },
            _ => {},
        }
    }

    /// Reports the digest of the file that was to be hashed.
    pub fn digest_ready(&mut self, digest: String)
        ensures
            final(self)@ == old(self)@.digest_ready(digest@),
    {
        match self.phase {
            RunPhase::InProgress { .. } => {
                if self.cursor < self.files.len() && self.digest.is_none() {
                    self.digest = Some(digest);
                }
            },
            _ => {},
        }
    }

    /// Reports that the store took the entry that was to be appended.
    pub fn entry_appended(&mut self)
        ensures
            final(self)@ == old(self)@.entry_appended(),
    {
        match self.phase {
            RunPhase::InProgress { .. } => {
                if self.cursor < self.files.len() && self.digest.is_some() {
                    self.digest = None;
                    self.cursor = self.cursor + 1;
                }
            },
            _ => {},
        }
    }

    /// Reports what the store answered to the operations of the next
    /// action. On an answer that cannot be used the scan stays as it is.
    pub fn store_replied(&mut self, reply: &Vec<Vec<Value>>) -> (result: Result<(), StoreError>)
        ensures
            match after_reply(old(self)@, rows_of(reply@)) {
                Ok(state) => result is Ok && final(self)@ == state,
                Err(e) => result == Err::<(), StoreError>(e) && final(self)@ == old(self)@,
            },
    {
        match self.next_action() {
            CheckAction::CreateRun => {
                match created_run_id(reply) {
                    Ok(run_id) => {
                        self.run_created(run_id);
                        Ok(())
                    },
                    Err(e) => Err(e),
                }
            },
            CheckAction::AppendEntry { .. } => {
                self.entry_appended();
                Ok(())
            },
            CheckAction::FinalizeRun { .. } => {
                self.run_finalized();
                Ok(())
            },
            _ => Ok(()),
        }
    }

    /// Reports that the store set the end time of the run.
    pub fn run_finalized(&mut self)
        ensures
            final(self)@ == old(self)@.run_finalized(),
    {
        match self.phase {
            RunPhase::InProgress { .. } => {
                if self.cursor >= self.files.len() {
                    self.phase = RunPhase::Finalized;
                }
            },
            _ => {},
        }
    }
}

impl CheckState {
    /// The state after the next step was performed and reported back: the
    /// store names the run `run_id`, and hashing the file at position `i`
    /// gives `digests[i]`.
    pub open spec fn answered(self, run_id: i64, digests: Seq<Seq<char>>) -> CheckState {
        match self.next_step() {
            Step::CreateRun => self.run_created(run_id),
            Step::HashFile { .. } => self.digest_ready(digests[self.cursor]),
            Step::AppendEntry { .. } => self.entry_appended(),
            Step::FinalizeRun { .. } => self.run_finalized(),
            Step::Done => self,
        }
    }

    /// A bound on the steps that are still to come.
    pub open spec fn work_left(self) -> nat {
        match self.phase {
            RunPhase::NotStarted => if self.files.len() == 0 {
                0
            } else {
                2 * self.files.len() + 2
            },
            RunPhase::InProgress { .. } => if 0 <= self.cursor < self.files.len() {
                let open = if self.digest is None {
                    1nat
                } else {
                    0nat
                };
                (2 * (self.files.len() - self.cursor) + open) as nat
            } else {
                1
            },
            RunPhase::Finalized => 0,
        }
    }

    /// All the steps that are asked for from this state on, up to `Done`,
    /// where each one is performed and reported back.
    pub open spec fn steps_to_come(self, run_id: i64, digests: Seq<Seq<char>>) -> Seq<Step>
        decreases self.work_left(),
    {
        if self.next_step() is Done {
            Seq::empty()
        } else {
            seq![self.next_step()] + self.answered(run_id, digests).steps_to_come(run_id, digests)
        }
    }

    /// The state in which a scan comes to rest.
    pub open spec fn at_rest(self, run_id: i64, digests: Seq<Seq<char>>) -> CheckState
        decreases self.work_left(),
    {
        if self.next_step() is Done {
            self
        } else {
            self.answered(run_id, digests).at_rest(run_id, digests)
        }
    }
}

/// Hashing and appending for each file from position `from` on, in order.
pub open spec fn entry_steps(
    files: Seq<Seq<u8>>,
    run_id: i64,
    digests: Seq<Seq<char>>,
    from: int,
) -> Seq<Step>
    decreases files.len() - from,
{
    if 0 <= from < files.len() {
        seq![
            Step::HashFile { path: files[from] },
            Step::AppendEntry { run_id, path: files[from], digest: digests[from] },
        ] + entry_steps(files, run_id, digests, from + 1)
    } else {
        Seq::empty()
    }
}

/// What a whole scan does: nothing where the walk found no file; else it
/// creates the run, then hashes and appends each file in the order of
/// discovery, then finalizes the run.
pub open spec fn scan_steps(files: Seq<Seq<u8>>, run_id: i64, digests: Seq<Seq<char>>) -> Seq<Step> {
    if files.len() == 0 {
        Seq::empty()
    } else {
        seq![Step::CreateRun] + entry_steps(files, run_id, digests, 0) + seq![
            Step::FinalizeRun { run_id },
        ]
    }
}

/// From a run in progress that has no digest at hand, the steps to come are
/// those of the files from the cursor on and the finalizing, and the scan
/// comes to rest with all files recorded and the run finalized.
proof fn lemma_in_progress(state: CheckState, run_id: i64, digests: Seq<Seq<char>>)
    requires
        state.phase == (RunPhase::InProgress { run_id }),
        0 <= state.cursor <= state.files.len(),
        state.digest is None,
    ensures
        state.steps_to_come(run_id, digests) == entry_steps(
            state.files,
            run_id,
            digests,
            state.cursor,
        ) + seq![Step::FinalizeRun { run_id }],
        state.at_rest(run_id, digests) == (CheckState {
            cursor: state.files.len() as int,
            phase: RunPhase::Finalized,
            ..state
        }),
    decreases state.files.len() - state.cursor,
{
    if state.cursor < state.files.len() {
        let hashed = state.answered(run_id, digests);
        let appended = hashed.answered(run_id, digests);
        assert(hashed.next_step() is AppendEntry);
        assert(appended.cursor == state.cursor + 1);
        lemma_in_progress(appended, run_id, digests);
        assert(hashed.steps_to_come(run_id, digests) == seq![hashed.next_step()]
            + appended.steps_to_come(run_id, digests));
        assert(state.steps_to_come(run_id, digests) =~= entry_steps(
            state.files,
            run_id,
            digests,
            state.cursor,
        ) + seq![Step::FinalizeRun { run_id }]);
        assert(hashed.at_rest(run_id, digests) == appended.at_rest(run_id, digests));
    } else {
        let closed = state.answered(run_id, digests);
        assert(closed.next_step() is Done);
        assert(closed.steps_to_come(run_id, digests) == Seq::<Step>::empty());
        assert(state.steps_to_come(run_id, digests) =~= entry_steps(
            state.files,
            run_id,
            digests,
            state.cursor,
        ) + seq![Step::FinalizeRun { run_id }]);
        assert(closed.at_rest(run_id, digests) == closed);
    }
}

/// A scan that meets no failure asks for exactly the steps of `scan_steps`:
/// no run for no files, and else one run, created before the first file is
/// hashed, with one entry per file in the order of discovery, finalized
/// after the last entry. It comes to rest finalized, or not started where
/// there was no file.
pub proof fn lemma_scan_steps(files: Seq<Seq<u8>>, run_id: i64, digests: Seq<Seq<char>>)
    ensures
        CheckState::start(files).steps_to_come(run_id, digests) == scan_steps(
            files,
            run_id,
            digests,
        ),
        files.len() == 0 ==> CheckState::start(files).at_rest(run_id, digests) == CheckState::start(
            files,
        ),
        files.len() > 0 ==> CheckState::start(files).at_rest(run_id, digests) == (CheckState {
            files,
            cursor: files.len() as int,
            phase: RunPhase::Finalized,
            digest: None,
        }),
{
    let start = CheckState::start(files);
    if files.len() > 0 {
        let created = start.answered(run_id, digests);
        lemma_in_progress(created, run_id, digests);
        assert(start.steps_to_come(run_id, digests) =~= scan_steps(files, run_id, digests));
    }
}

/// Where the steps of the files stand: two for each file from `from` on,
/// first its hashing, then the appending of its entry.
pub proof fn lemma_entry_steps(files: Seq<Seq<u8>>, run_id: i64, digests: Seq<Seq<char>>, from: int)
    requires
        0 <= from <= files.len(),
    ensures
        entry_steps(files, run_id, digests, from).len() == 2 * (files.len() - from),
        forall|k: int|
            0 <= k < files.len() - from ==> {
                &&& #[trigger] entry_steps(files, run_id, digests, from)[2 * k] == (Step::HashFile {
                    path: files[from + k],
                })
                &&& entry_steps(files, run_id, digests, from)[2 * k + 1] == (Step::AppendEntry {
                    run_id,
                    path: files[from + k],
                    digest: digests[from + k],
                })
            },
    decreases files.len() - from,
{
    if from < files.len() {
        lemma_entry_steps(files, run_id, digests, from + 1);
        let rest = entry_steps(files, run_id, digests, from + 1);
        let all = entry_steps(files, run_id, digests, from);
        assert forall|k: int| 0 <= k < files.len() - from implies {
            &&& #[trigger] all[2 * k] == (Step::HashFile { path: files[from + k] })
            &&& all[2 * k + 1] == (Step::AppendEntry {
                run_id,
                path: files[from + k],
                digest: digests[from + k],
            })
        } by {
            if k > 0 {
                assert(all[2 * k] == rest[2 * (k - 1)]);
                assert(all[2 * k + 1] == rest[2 * (k - 1) + 1]);
            }
        }
    }
}

/// A scan of some files begins by creating the run and ends by finalizing
/// it, and between the two it appends one entry per file, in the order of
/// discovery, each right after the hashing of its file.
pub proof fn lemma_scan_steps_in_order(files: Seq<Seq<u8>>, run_id: i64, digests: Seq<Seq<char>>)
    requires
        files.len() > 0,
    ensures
        scan_steps(files, run_id, digests).len() == 2 * files.len() + 2,
        scan_steps(files, run_id, digests).first() == Step::CreateRun,
        scan_steps(files, run_id, digests).last() == (Step::FinalizeRun { run_id }),
        forall|k: int|
            0 <= k < files.len() ==> {
                &&& #[trigger] scan_steps(files, run_id, digests)[2 * k + 1] == (Step::HashFile {
                    path: files[k],
                })
                &&& scan_steps(files, run_id, digests)[2 * k + 2] == (Step::AppendEntry {
                    run_id,
                    path: files[k],
                    digest: digests[k],
                })
            },
{
    lemma_entry_steps(files, run_id, digests, 0);
    let middle = entry_steps(files, run_id, digests, 0);
    let all = scan_steps(files, run_id, digests);
    assert forall|k: int| 0 <= k < files.len() implies {
        &&& #[trigger] all[2 * k + 1] == (Step::HashFile { path: files[k] })
        &&& all[2 * k + 2] == (Step::AppendEntry { run_id, path: files[k], digest: digests[k] })
    } by {
        assert(all[2 * k + 1] == middle[2 * k]);
        assert(all[2 * k + 2] == middle[2 * k + 1]);
    }
}

/// The bytes of the paths that a scan skips unless told otherwise: the
/// store's own directory and those of version control and of build output.
pub open spec fn default_ignored() -> Seq<Seq<u8>> {
    seq![encode_utf8("./.git"@), encode_utf8("./target"@), encode_utf8("./.frzr"@)]
}

/// The directory that a scan starts from: the current one.
pub fn scan_root() -> (root: Vec<u8>)
    ensures
        root@ == encode_utf8("."@),
{
    slice_to_vec(".".as_bytes())
}

/// The directories that a scan skips unless told otherwise.
pub fn default_ignores() -> (ignore: Vec<Vec<u8>>)
    ensures
        paths_of(ignore@) == default_ignored(),
{
    let mut ignore: Vec<Vec<u8>> = Vec::new();
    ignore.push(slice_to_vec("./.git".as_bytes()));
    ignore.push(slice_to_vec("./target".as_bytes()));
    ignore.push(slice_to_vec("./.frzr".as_bytes()));
    assert(paths_of(ignore@) =~= default_ignored());
    ignore
}

} // verus!
