//! What a worker does with each proof it computes for a block template.
use vstd::prelude::*;

verus! {

/// A message to a worker; `T` is the block template, `R` answers an exit request.
pub enum WorkerMsg<T, R> {
    /// Start work on a new template with the given share difficulty target.
    Notify(T, u64),
    /// Stop the current work and acknowledge through `R`.
    Exit(R),
}

/// What a worker does with a message; each first stops the job in progress.
pub enum WorkerAction<T, R> {
    /// Start mining the template with the given share difficulty target.
    Mine(T, u64),
    /// Acknowledge through `R`, and take no more messages.
    StopThenAck(R),
}

/// The action for a message to a worker.
pub fn worker_step<T, R>(msg: WorkerMsg<T, R>) -> (a: WorkerAction<T, R>)
    ensures
        match msg {
            WorkerMsg::Notify(template, difficulty) => a == WorkerAction::<T, R>::Mine(template, difficulty),
            WorkerMsg::Exit(responder) => a == WorkerAction::<T, R>::StopThenAck(responder),
        },
{
    match msg {
        WorkerMsg::Notify(template, difficulty) => WorkerAction::Mine(template, difficulty),
        WorkerMsg::Exit(responder) => WorkerAction::StopThenAck(responder),
    }
}

/// How one worker is started: on the CPU (`gpu_index == -1`) or on a GPU, with a
/// number of threads.
#[derive(Clone, Copy, PartialEq, Eq, Debug)]
pub struct WorkerSpec {
    pub gpu_index: i16,
    pub threads: u8,
}

/// The result of one attempt to compute a proof for the current template.
pub enum MineOutcome {
    /// A proof was computed; its difficulty, where it could be computed.
    Found(Option<u64>),
    /// The attempt was interrupted: the template is abandoned.
    Terminated,
}

/// What the worker does after an attempt.
#[derive(Clone, Copy, PartialEq, Eq, Debug)]
pub enum MineStep {
    /// The proof misses the share target: report it as invalid with this weight, go on.
    Miss(u32),
    /// The proof meets the share target: submit it, report it as valid with this weight, go on.
    Submit(u32),
    /// Stop working on this template.
    Stop,
}

/// The weight credited for a proof at share difficulty `d`: `u64::MAX / d`, truncated to
/// 32 bits.
pub open spec fn share_weight_spec(d: u64) -> u32
    recommends
        d > 0,
{
    ((u64::MAX / d) % 0x1_0000_0000) as u32
}

/// Whether a proof of difficulty `proof_difficulty` (none: the maximum) meets the target.
pub open spec fn meets_target(proof_difficulty: Option<u64>, share_difficulty: u64) -> bool {
    match proof_difficulty {
        Some(p) => p <= share_difficulty,
        None => u64::MAX <= share_difficulty,
    }
}

/// The step after `outcome`.
pub open spec fn mine_step_spec(share_difficulty: u64, outcome: MineOutcome) -> MineStep {
    match outcome {
        MineOutcome::Found(p) => if meets_target(p, share_difficulty) {
            MineStep::Submit(share_weight_spec(share_difficulty))
        } else {
            MineStep::Miss(share_weight_spec(share_difficulty))
        },
        MineOutcome::Terminated => MineStep::Stop,
    }
}

/// The weight credited for a proof at share difficulty `share_difficulty`.
pub fn share_weight(share_difficulty: u64) -> (w: u32)
    requires
        share_difficulty > 0,
    ensures
        w == share_weight_spec(share_difficulty),
{
    let q: u64 = u64::MAX / share_difficulty;
    assert((q as u32) == (q % 0x1_0000_0000) as u32) by (bit_vector);
    #[verifier::truncate]
    (q as u32)
}

/// Decides what to do with the outcome of an attempt at share difficulty `share_difficulty`.
pub fn mine_step(share_difficulty: u64, outcome: MineOutcome) -> (step: MineStep)
    requires
        share_difficulty > 0,
    ensures
        step == mine_step_spec(share_difficulty, outcome),
{
    match outcome {
        MineOutcome::Found(p) => {
            let proof_difficulty = match p {
                Some(d) => d,
                None => u64::MAX,
            };
            if proof_difficulty > share_difficulty {
                MineStep::Miss(share_weight(share_difficulty))
            } else {
                MineStep::Submit(share_weight(share_difficulty))
            }
        },
        MineOutcome::Terminated => MineStep::Stop,
    }
}

/// `count` CPU workers with `threads` threads each.
pub fn cpu_workers(count: u8, threads: u8) -> (v: Vec<WorkerSpec>)
    ensures
        v@.len() == count,
        forall|i: int| 0 <= i < count ==> v@[i] == (WorkerSpec { gpu_index: -1i16, threads }),
{
    let mut v: Vec<WorkerSpec> = Vec::new();
    let mut i: u8 = 0;
    while i < count
        invariant
            i <= count,
            v@.len() == i,
            forall|k: int| 0 <= k < i ==> v@[k] == (WorkerSpec { gpu_index: -1i16, threads }),
        decreases count - i,
    {
        v.push(WorkerSpec { gpu_index: -1i16, threads });
        i = i + 1;
    }
    v
}

/// A proof is submitted exactly when its difficulty is at most the share target (a proof
/// whose difficulty cannot be computed counts as the hardest one), a missed proof is still
/// reported, and both carry the same weight, which depends on the target alone.
pub proof fn law_submit_iff_target_met(share_difficulty: u64, proof_difficulty: Option<u64>)
    requires
        share_difficulty > 0,
    ensures
        mine_step_spec(share_difficulty, MineOutcome::Found(proof_difficulty)) is Submit
            <==> meets_target(proof_difficulty, share_difficulty),
        !(mine_step_spec(share_difficulty, MineOutcome::Found(proof_difficulty)) is Stop),
        mine_step_spec(share_difficulty, MineOutcome::Found(proof_difficulty)) == (if meets_target(
            proof_difficulty,
            share_difficulty,
        ) {
            MineStep::Submit(share_weight_spec(share_difficulty))
        } else {
            MineStep::Miss(share_weight_spec(share_difficulty))
        }),
        mine_step_spec(share_difficulty, MineOutcome::Terminated) == MineStep::Stop,
{
}

/// A found proof is submitted exactly when its difficulty, as an unsigned 64-bit number, is
/// at most the share target, and a proof whose difficulty could not be computed is submitted
/// only at the largest target; the weight is `u64::MAX / share_difficulty` either way.
pub proof fn law_submit_iff_difficulty_within_target(share_difficulty: u64, p: u64)
    requires
        share_difficulty > 0,
    ensures
        mine_step_spec(share_difficulty, MineOutcome::Found(Some(p))) is Submit <==> p <= share_difficulty,
        mine_step_spec(share_difficulty, MineOutcome::Found(Some(p))) is Miss <==> p > share_difficulty,
        mine_step_spec(share_difficulty, MineOutcome::Found(None)) is Submit <==> share_difficulty == u64::MAX,
        mine_step_spec(share_difficulty, MineOutcome::Found(Some(p))) matches MineStep::Submit(w) ==> w as int
            == (u64::MAX / share_difficulty) % 0x1_0000_0000,
        mine_step_spec(share_difficulty, MineOutcome::Found(Some(p))) matches MineStep::Miss(w) ==> w as int
            == (u64::MAX / share_difficulty) % 0x1_0000_0000,
{
}

} // verus!
