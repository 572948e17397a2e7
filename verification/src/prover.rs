//! The prover: its messages, how it routes them, the order in which it stops the
//! other parts, and the handler that starts and stops it.
use vstd::prelude::*;
use crate::account::{address_is_valid, aleo_address_valid};
use crate::worker::{cpu_workers, WorkerSpec};

verus! {

/// A message to the prover; `W` is the block template, `R` answers an exit request.
pub enum ProverMsg<W, R> {
    /// New work from the pool: a block template and the share difficulty target.
    NewWork(W, u64),
    /// The pool's answer to a submitted share: accepted or not, with an optional note.
    SubmitResult(bool, Option<String>),
    /// Stop request, acknowledged through `R` once everything has stopped.
    Exit(R),
}

/// The name of a message, as shown in the logs.
pub open spec fn msg_name<W, R>(msg: &ProverMsg<W, R>) -> Seq<char> {
    match msg {
        ProverMsg::NewWork(..) => "new work"@,
        ProverMsg::SubmitResult(..) => "submit result"@,
        ProverMsg::Exit(_) => "exit"@,
    }
}

impl<W, R> ProverMsg<W, R> {
    pub fn name(&self) -> (r: &str)
        ensures
            r@ == msg_name(self),
    {
        match self {
            ProverMsg::NewWork(..) => "new work",
            ProverMsg::SubmitResult(..) => "submit result",
            ProverMsg::Exit(_) => "exit",
        }
    }
}

/// Delivers new work to the workers in order, and stops at the first worker that
/// does not take it.
pub struct Broadcast {
    next: usize,
    total: usize,
    failed: bool,
}

/// The abstract state of a [`Broadcast`]: workers served so far, out of `total`.
pub struct BroadcastView {
    pub next: nat,
    pub total: nat,
    pub failed: bool,
}

impl View for Broadcast {
    type V = BroadcastView;

    closed spec fn view(&self) -> BroadcastView {
        BroadcastView { next: self.next as nat, total: self.total as nat, failed: self.failed }
    }
}

impl BroadcastView {
    /// The worker to deliver to now, if any.
    pub open spec fn target(self) -> Option<nat> {
        if !self.failed && self.next < self.total {
            Some(self.next)
        } else {
            None
        }
    }
}

impl Broadcast {
    /// A broadcast to `total` workers, starting with worker 0.
    pub fn new(total: usize) -> (b: Broadcast)
        ensures
            b@ == (BroadcastView { next: 0, total: total as nat, failed: false }),
    {
        Broadcast { next: 0, total, failed: false }
    }

    /// The worker to deliver to now, if any.
    pub fn target(&self) -> (t: Option<usize>)
        ensures
            t matches Some(i) ==> self@.target() == Some(i as nat),
            t is None ==> self@.target() is None,
    {
        if !self.failed && self.next < self.total {
            Some(self.next)
        } else {
            None
        }
    }

    /// Records whether the current target took the work.
    pub fn delivered(&mut self, ok: bool)
        requires
            old(self)@.target() is Some,
        ensures
            final(self)@ == (if ok {
                BroadcastView { next: old(self)@.next + 1, ..old(self)@ }
            } else {
                BroadcastView { failed: true, ..old(self)@ }
            }),
    {
        if ok {
            self.next = self.next + 1;
        } else {
            self.failed = true;
        }
    }
}

/// A part of the miner that the prover stops before it acknowledges an exit request.
#[derive(Clone, Copy, PartialEq, Eq, Debug)]
pub enum ExitTarget {
    Client,
    Worker(usize),
    Statistic,
}

/// What the stopping prover does now.
#[derive(Clone, Copy, PartialEq, Eq, Debug)]
pub enum ShutdownStep {
    /// Ask this part to exit and wait for its acknowledgement.
    Ask(ExitTarget),
    /// Everything stopped: acknowledge the exit request.
    Done,
    /// A part did not acknowledge: end the process with status 1.
    Abort,
}

/// How far the prover has come in stopping the other parts.
#[derive(Clone, Copy, PartialEq, Eq, Debug)]
pub enum ShutdownStage {
    Client,
    Worker(usize),
    Statistic,
    Finished,
    Failed,
}

/// The shutdown of the client, then each worker in order, then the statistic.
pub struct Shutdown {
    workers: usize,
    stage: ShutdownStage,
}

pub struct ShutdownView {
    pub workers: nat,
    pub stage: ShutdownStage,
}

impl View for Shutdown {
    type V = ShutdownView;

    closed spec fn view(&self) -> ShutdownView {
        ShutdownView { workers: self.workers as nat, stage: self.stage }
    }
}

/// What is done at `stage`.
pub open spec fn step_of(stage: ShutdownStage) -> ShutdownStep {
    match stage {
        ShutdownStage::Client => ShutdownStep::Ask(ExitTarget::Client),
        ShutdownStage::Worker(i) => ShutdownStep::Ask(ExitTarget::Worker(i)),
        ShutdownStage::Statistic => ShutdownStep::Ask(ExitTarget::Statistic),
        ShutdownStage::Finished => ShutdownStep::Done,
        ShutdownStage::Failed => ShutdownStep::Abort,
    }
}

/// The stage after the part asked at `stage` answered (`ok`) or failed to.
pub open spec fn next_stage(workers: nat, stage: ShutdownStage, ok: bool) -> ShutdownStage {
    if !ok {
        ShutdownStage::Failed
    } else {
        match stage {
            ShutdownStage::Client => if workers > 0 {
                ShutdownStage::Worker(0)
            } else {
                ShutdownStage::Statistic
            },
            ShutdownStage::Worker(i) => if i + 1 < workers {
                ShutdownStage::Worker((i + 1) as usize)
            } else {
                ShutdownStage::Statistic
            },
            ShutdownStage::Statistic => ShutdownStage::Finished,
            _ => stage,
        }
    }
}

/// A stage that is reached: a worker stage names an existing worker.
pub open spec fn stage_ok(workers: nat, stage: ShutdownStage) -> bool {
    match stage {
        ShutdownStage::Worker(i) => i < workers,
        _ => true,
    }
}

impl Shutdown {
    /// The shutdown of a prover with `workers` workers, starting with the client.
    pub fn new(workers: usize) -> (s: Shutdown)
        ensures
            s@ == (ShutdownView { workers: workers as nat, stage: ShutdownStage::Client }),
    {
        Shutdown { workers, stage: ShutdownStage::Client }
    }

    /// What to do now.
    pub fn step(&self) -> (r: ShutdownStep)
        ensures
            r == step_of(self@.stage),
    {
        match self.stage {
            ShutdownStage::Client => ShutdownStep::Ask(ExitTarget::Client),
            ShutdownStage::Worker(i) => ShutdownStep::Ask(ExitTarget::Worker(i)),
            ShutdownStage::Statistic => ShutdownStep::Ask(ExitTarget::Statistic),
            ShutdownStage::Finished => ShutdownStep::Done,
            ShutdownStage::Failed => ShutdownStep::Abort,
        }
    }

    /// Records whether the part asked to exit acknowledged it.
    pub fn acknowledged(&mut self, ok: bool)
        requires
            step_of(old(self)@.stage) is Ask,
            stage_ok(old(self)@.workers, old(self)@.stage),
        ensures
            final(self)@.workers == old(self)@.workers,
            final(self)@.stage == next_stage(old(self)@.workers, old(self)@.stage, ok),
            stage_ok(final(self)@.workers, final(self)@.stage),
    {
        if !ok {
            self.stage = ShutdownStage::Failed;
        } else {
            self.stage = match self.stage {
                ShutdownStage::Client => if self.workers > 0 {
                    ShutdownStage::Worker(0)
                } else {
                    ShutdownStage::Statistic
                },
                ShutdownStage::Worker(i) => if i + 1 < self.workers {
                    ShutdownStage::Worker(i + 1)
                } else {
                    ShutdownStage::Statistic
                },
                ShutdownStage::Statistic => ShutdownStage::Finished,
                other => other,
            };
        }
    }
}


/// What the prover does with a work or share-result message.
pub enum ProverAction<W> {
    /// Hand the template and target to the workers, in the order of the broadcast; a
    /// worker that does not take it is an error of the processing.
    Broadcast(W, u64, Broadcast),
    /// Pass a share result on to the statistic.
    ForwardToStatistic(bool, Option<String>),
    /// A message this step does not handle (an exit request): warn, nothing is sent.
    Unexpected,
}

/// What the serving prover does with a message.
pub enum ServeStep<W, R> {
    /// Process the message as `process_msg` says.
    Process(ProverAction<W>),
    /// Stop the other parts in the order of the shutdown, then acknowledge through `R`,
    /// and serve no more.
    Shutdown(R, Shutdown),
}

/// The prover: the handles of its workers, in the order they were started.
pub struct Prover<S> {
    workers: Vec<S>,
}

impl<S> View for Prover<S> {
    type V = Seq<S>;

    closed spec fn view(&self) -> Seq<S> {
        self.workers@
    }
}

/// How the prover processes `msg` with `n` workers: new work goes to every worker, a
/// share result to the statistic, and an exit request is unexpected here.
pub open spec fn routed<W, R>(n: nat, msg: ProverMsg<W, R>, action: ProverAction<W>) -> bool {
    match msg {
        ProverMsg::NewWork(template, difficulty) => action matches ProverAction::Broadcast(t, d, b)
            && t == template && d == difficulty && b@ == (BroadcastView {
            next: 0,
            total: n,
            failed: false,
        }),
        ProverMsg::SubmitResult(valid, note) => action == ProverAction::<W>::ForwardToStatistic(
            valid,
            note,
        ),
        ProverMsg::Exit(_) => action is Unexpected,
    }
}

/// How the serving prover answers `msg` with `n` workers: an exit request starts the
/// shutdown, anything else is processed.
pub open spec fn served<W, R>(n: nat, msg: ProverMsg<W, R>, step: ServeStep<W, R>) -> bool {
    match msg {
        ProverMsg::Exit(responder) => step matches ServeStep::Shutdown(r, s) && r == responder
            && s@ == (ShutdownView { workers: n, stage: ShutdownStage::Client }),
        _ => step matches ServeStep::Process(action) && routed(n, msg, action),
    }
}

impl<S> Prover<S> {
    /// A prover without workers.
    pub fn new() -> (p: Prover<S>)
        ensures
            p@ == Seq::<S>::empty(),
    {
        Prover { workers: Vec::new() }
    }

    /// Adds a started worker.
    pub fn add_worker(&mut self, worker: S)
        ensures
            final(self)@ == old(self)@.push(worker),
    {
        self.workers.push(worker);
    }

    /// The workers' handles, in order.
    pub fn workers(&self) -> (w: &Vec<S>)
        ensures
            w@ == self@,
    {
        &self.workers
    }

    /// Processes a message: new work goes to every worker, share results to the
    /// statistic; an exit request is not handled here.
    pub fn process_msg<W, R>(&self, msg: ProverMsg<W, R>) -> (action: ProverAction<W>)
        ensures
            routed(self@.len(), msg, action),
    {
        let n = self.workers.len();
        match msg {
            ProverMsg::NewWork(template, difficulty) => ProverAction::Broadcast(
                template,
                difficulty,
                Broadcast::new(n),
            ),
            ProverMsg::SubmitResult(valid, note) => ProverAction::ForwardToStatistic(valid, note),
            ProverMsg::Exit(_) => ProverAction::Unexpected,
        }
    }

    /// One step of serving: an exit request starts the shutdown, any other message is
    /// processed.
    pub fn serve_step<W, R>(&self, msg: ProverMsg<W, R>) -> (step: ServeStep<W, R>)
        ensures
            served(self@.len(), msg, step),
    {
        match msg {
            ProverMsg::Exit(responder) => ServeStep::Shutdown(
                responder,
                Shutdown::new(self.workers.len()),
            ),
            other => ServeStep::Process(self.process_msg(other)),
        }
    }
}

/// Why the prover was not started.
#[derive(Clone, Copy, PartialEq, Eq, Debug)]
pub enum StartError {
    /// "invalid aleo address"
    InvalidAddress,
    /// "prover is already running"
    AlreadyRunning,
    /// "there is no cuda-tool-kit on your device"
    NoCudaToolkit,
    /// "No available gpu in your device"
    NoGpu,
}

impl StartError {
    /// The message of the error.
    pub fn message(&self) -> (r: &str)
        ensures
            r@ == start_error_text(*self),
    {
        match self {
            StartError::InvalidAddress => "invalid aleo address",
            StartError::AlreadyRunning => "prover is already running",
            StartError::NoCudaToolkit => "there is no cuda-tool-kit on your device",
            StartError::NoGpu => "No available gpu in your device",
        }
    }
}

pub open spec fn start_error_text(e: StartError) -> Seq<char> {
    match e {
        StartError::InvalidAddress => "invalid aleo address"@,
        StartError::AlreadyRunning => "prover is already running"@,
        StartError::NoCudaToolkit => "there is no cuda-tool-kit on your device"@,
        StartError::NoGpu => "No available gpu in your device"@,
    }
}

/// What to start: the miner's name and address, and one entry per worker.
pub struct ProverLaunch {
    pub name: String,
    pub address: String,
    pub workers: Vec<WorkerSpec>,
}

/// The workers of a CPU prover.
pub open spec fn cpu_plan(worker: u8, threads: u8) -> Seq<WorkerSpec> {
    Seq::new(worker as nat, |i: int| WorkerSpec { gpu_index: -1i16, threads })
}

/// The GPUs of `gpus` that exist among `device_count` devices, in order.
pub open spec fn existing_gpus(gpus: Seq<u8>, device_count: nat) -> Seq<u8>
    decreases gpus.len(),
{
    if gpus.len() == 0 {
        Seq::empty()
    } else if (gpus.last() as nat) < device_count {
        existing_gpus(gpus.drop_last(), device_count).push(gpus.last())
    } else {
        existing_gpus(gpus.drop_last(), device_count)
    }
}

/// The GPUs used: those asked for that exist, or every device when none is asked for.
pub open spec fn gpu_choice(gpus: Seq<u8>, device_count: nat) -> Seq<u8> {
    if gpus.len() == 0 {
        Seq::new(device_count, |a: int| (a % 256) as u8)
    } else {
        existing_gpus(gpus, device_count)
    }
}

/// The workers of a GPU prover: `per_gpu` workers with 2 threads on each GPU, in order.
pub open spec fn gpu_plan(gpus: Seq<u8>, per_gpu: nat) -> Seq<WorkerSpec>
    decreases gpus.len(),
{
    if gpus.len() == 0 {
        Seq::empty()
    } else {
        gpu_plan(gpus.drop_last(), per_gpu) + Seq::new(
            per_gpu,
            |k: int| WorkerSpec { gpu_index: gpus.last() as i16, threads: 2 },
        )
    }
}

/// Every device index, in order, as the 8-bit GPU numbers the workers take.
fn all_gpus(device_count: usize) -> (v: Vec<u8>)
    ensures
        v@ == Seq::new(device_count as nat, |a: int| (a % 256) as u8),
{
    let mut v: Vec<u8> = Vec::new();
    let mut a: usize = 0;
    while a < device_count
        invariant
            a <= device_count,
            v@ == Seq::new(a as nat, |k: int| (k % 256) as u8),
        decreases device_count - a,
    {
        v.push((a % 256) as u8);
        a = a + 1;
        assert(v@ =~= Seq::new(a as nat, |k: int| (k % 256) as u8));
    }
    v
}

/// The GPUs of `gpus` that exist among `device_count` devices, in order.
fn keep_existing(gpus: &Vec<u8>, device_count: usize) -> (v: Vec<u8>)
    ensures
        v@ == existing_gpus(gpus@, device_count as nat),
{
    let mut v: Vec<u8> = Vec::new();
    let mut i: usize = 0;
    assert(gpus@.take(0) =~= Seq::<u8>::empty());
    while i < gpus.len()
        invariant
            i <= gpus@.len(),
            v@ == existing_gpus(gpus@.take(i as int), device_count as nat),
        decreases gpus@.len() - i,
    {
        let g = gpus[i];
        if (g as usize) < device_count {
            v.push(g);
        }
        proof {
            let t = gpus@.take(i + 1);
            assert(t.drop_last() =~= gpus@.take(i as int));
            assert(t.last() == g);
        }
        i = i + 1;
    }
    assert(gpus@.take(gpus@.len() as int) =~= gpus@);
    v
}

/// `per_gpu` two-thread workers on each GPU of `gpus`, in order.
fn gpu_workers(gpus: &Vec<u8>, per_gpu: u8) -> (v: Vec<WorkerSpec>)
    ensures
        v@ == gpu_plan(gpus@, per_gpu as nat),
{
    let mut v: Vec<WorkerSpec> = Vec::new();
    let mut i: usize = 0;
    assert(gpus@.take(0) =~= Seq::<u8>::empty());
    while i < gpus.len()
        invariant
            i <= gpus@.len(),
            v@ == gpu_plan(gpus@.take(i as int), per_gpu as nat),
        decreases gpus@.len() - i,
    {
        let g = gpus[i];
        let ghost before = v@;
        let mut j: u8 = 0;
        while j < per_gpu
            invariant
                j <= per_gpu,
                v@ == before + Seq::new(j as nat, |k: int| WorkerSpec { gpu_index: g as i16, threads: 2 }),
            decreases per_gpu - j,
        {
            v.push(WorkerSpec { gpu_index: g as i16, threads: 2 });
            j = j + 1;
            assert(v@ =~= before + Seq::new(j as nat, |k: int| WorkerSpec { gpu_index: g as i16, threads: 2 }));
        }
        proof {
            let t = gpus@.take(i + 1);
            assert(t.drop_last() =~= gpus@.take(i as int));
            assert(t.last() == g);
        }
        i = i + 1;
    }
    assert(gpus@.take(gpus@.len() as int) =~= gpus@);
    v
}

/// Why a start is refused, checked in this order: the CUDA toolkit (for a GPU start; a CPU
/// start passes `true`), the address, then whether the prover is already running.
pub open spec fn start_refusal(toolkit: bool, running: bool, address_ok: bool) -> Option<StartError> {
    if !toolkit {
        Some(StartError::NoCudaToolkit)
    } else if !address_ok {
        Some(StartError::InvalidAddress)
    } else if running {
        Some(StartError::AlreadyRunning)
    } else {
        None
    }
}

/// A running prover is never started a second time, whatever is asked; once it is marked
/// as stopped, a start with a valid address (and, for the GPU, the toolkit) goes through.
pub proof fn law_no_second_start(toolkit: bool, address_ok: bool)
    ensures
        start_refusal(toolkit, true, address_ok) is Some,
        start_refusal(true, false, true) is None,
{
}

/// Starts and stops the prover, and knows whether it is running.
pub struct ProverHandler {
    running: bool,
}

impl ProverHandler {
    /// A handler whose prover is not running.
    pub fn new() -> (h: ProverHandler)
        ensures
            !h.is_running(),
    {
        ProverHandler { running: false }
    }

    pub closed spec fn is_running(&self) -> bool {
        self.running
    }

    /// Whether the prover is running.
    pub fn running(&self) -> (r: bool)
        ensures
            r == self.is_running(),
    {
        self.running
    }

    /// Checks the address and that no prover is running; then marks the prover as
    /// running and tells what to start: `worker` CPU workers of `thread_per_worker` threads.
    pub fn start_cpu(&mut self, worker: u8, thread_per_worker: u8, name: String, address: String) -> (r:
        Result<ProverLaunch, StartError>)
        ensures
            match start_refusal(true, old(self).is_running(), aleo_address_valid(address@)) {
                Some(e) => r == Err::<ProverLaunch, StartError>(e) && final(self).is_running() == old(
                    self,
                ).is_running(),
                None => final(self).is_running() && (r matches Ok(plan) && plan.name@ == name@
                    && plan.address@ == address@ && plan.workers@ == cpu_plan(
                    worker,
                    thread_per_worker,
                )),
            },
    {
        if !address_is_valid(address.as_str()) {
            return Err(StartError::InvalidAddress);
        }
        if self.running {
            return Err(StartError::AlreadyRunning);
        }
        self.running = true;
        let workers = cpu_workers(worker, thread_per_worker);
        assert(workers@ =~= cpu_plan(worker, thread_per_worker));
        Ok(ProverLaunch { name, address, workers })
    }

    /// Checks that the CUDA toolkit is there, the address, and that no prover is running;
    /// then marks the prover as running. With no GPU device the start then fails (the
    /// prover stays marked as running); otherwise it tells what to start: `worker_per_gpu`
    /// workers on each GPU of `gpus` that exists (index below `device_count`), or on every
    /// device when `gpus` is empty.
    pub fn start_gpu(
        &mut self,
        worker_per_gpu: u8,
        gpus: Vec<u8>,
        name: String,
        address: String,
        cuda_available: bool,
        device_count: usize,
    ) -> (r: Result<ProverLaunch, StartError>)
        ensures
            match start_refusal(cuda_available, old(self).is_running(), aleo_address_valid(address@)) {
                Some(e) => r == Err::<ProverLaunch, StartError>(e) && final(self).is_running() == old(
                    self,
                ).is_running(),
                None => final(self).is_running() && (if device_count == 0 {
                    r == Err::<ProverLaunch, StartError>(StartError::NoGpu)
                } else {
                    r matches Ok(plan) && plan.name@ == name@ && plan.address@ == address@
                        && plan.workers@ == gpu_plan(
                        gpu_choice(gpus@, device_count as nat),
                        worker_per_gpu as nat,
                    )
                }),
            },
    {
        if !cuda_available {
            return Err(StartError::NoCudaToolkit);
        }
        if !address_is_valid(address.as_str()) {
            return Err(StartError::InvalidAddress);
        }
        if self.running {
            return Err(StartError::AlreadyRunning);
        }
        self.running = true;
        if device_count == 0 {
            return Err(StartError::NoGpu);
        }
        let chosen = if gpus.len() == 0 {
            all_gpus(device_count)
        } else {
            keep_existing(&gpus, device_count)
        };
        let workers = gpu_workers(&chosen, worker_per_gpu);
        Ok(ProverLaunch { name, address, workers })
    }

    /// Marks the prover as stopped; the runner calls it once a running prover has
    /// acknowledged its exit request.
    pub fn stop(&mut self)
        ensures
            !final(self).is_running(),
    {
        self.running = false;
    }
}

/// The stage reached from the start of a shutdown after `k` acknowledged requests.
pub open spec fn stage_after_acks(workers: nat, k: nat) -> ShutdownStage
    decreases k,
{
    if k == 0 {
        ShutdownStage::Client
    } else {
        next_stage(workers, stage_after_acks(workers, (k - 1) as nat), true)
    }
}

/// The order in which the parts are asked to exit: the client, each worker in turn, then
/// the statistic.
pub open spec fn exit_order(workers: nat) -> Seq<ExitTarget> {
    seq![ExitTarget::Client] + Seq::new(workers, |i: int| ExitTarget::Worker(i as usize)) + seq![
        ExitTarget::Statistic,
    ]
}

/// While every part acknowledges, the prover asks the client, then each worker in order,
/// then the statistic, each once, and then acknowledges the exit request itself.
pub proof fn law_shutdown_order(workers: nat, k: nat)
    requires
        workers <= usize::MAX,
    ensures
        k < workers + 2 ==> step_of(stage_after_acks(workers, k)) == ShutdownStep::Ask(
            exit_order(workers)[k as int],
        ),
        k >= workers + 2 ==> step_of(stage_after_acks(workers, k)) == ShutdownStep::Done,
    decreases k,
{
    lemma_stage_after_acks(workers, k);
}

proof fn lemma_stage_after_acks(workers: nat, k: nat)
    requires
        workers <= usize::MAX,
    ensures
        stage_after_acks(workers, k) == (if k == 0 {
            ShutdownStage::Client
        } else if k <= workers {
            ShutdownStage::Worker((k - 1) as usize)
        } else if k == workers + 1 {
            ShutdownStage::Statistic
        } else {
            ShutdownStage::Finished
        }),
    decreases k,
{
    if k > 0 {
        lemma_stage_after_acks(workers, (k - 1) as nat);
    }
}

/// A part that does not acknowledge ends the shutdown with an abort, and nothing is asked
/// after that.
pub proof fn law_shutdown_abort_is_final(workers: nat, stage: ShutdownStage, ok: bool)
    ensures
        next_stage(workers, stage, false) == ShutdownStage::Failed,
        step_of(ShutdownStage::Failed) == ShutdownStep::Abort,
        next_stage(workers, ShutdownStage::Failed, ok) == ShutdownStage::Failed,
{
}

/// The state of a broadcast after the delivery results `oks`, from its start.
pub open spec fn broadcast_after(total: nat, oks: Seq<bool>) -> BroadcastView
    decreases oks.len(),
{
    if oks.len() == 0 {
        BroadcastView { next: 0, total, failed: false }
    } else {
        let b = broadcast_after(total, oks.drop_last());
        if oks.last() {
            BroadcastView { next: b.next + 1, ..b }
        } else {
            BroadcastView { failed: true, ..b }
        }
    }
}

/// New work reaches the workers in their order: after `k` deliveries that all succeeded
/// the next worker is the `k`-th (while there is one), and once a worker refuses, no
/// later worker is tried.
pub proof fn law_broadcast_order(total: nat, oks: Seq<bool>)
    requires
        oks.len() <= total,
    ensures
        (forall|j: int| 0 <= j < oks.len() ==> oks[j]) ==> broadcast_after(total, oks).target() == (
        if oks.len() < total {
            Some(oks.len())
        } else {
            None::<nat>
        }),
        (exists|j: int| 0 <= j < oks.len() && !oks[j]) ==> broadcast_after(total, oks).target() is None,
    decreases oks.len(),
{
    if oks.len() > 0 {
        let prev = oks.drop_last();
        law_broadcast_order(total, prev);
        lemma_broadcast_failed_stays(total, oks);
        if forall|j: int| 0 <= j < oks.len() ==> oks[j] {
            assert forall|j: int| 0 <= j < prev.len() implies prev[j] by {
                assert(oks[j]);
            }
            assert(oks[oks.len() - 1]);
        }
    }
}

/// New work from the pool is offered to every worker of the prover, with the pool's
/// template and target: the broadcast covers exactly the `n` workers and starts at worker
/// 0, so while every delivery succeeds it asks workers 0, 1, ..., n - 1 in turn, and after
/// the `n`-th delivery it asks no one.
pub proof fn law_new_work_reaches_every_worker<W, R>(
    n: nat,
    template: W,
    difficulty: u64,
    action: ProverAction<W>,
    k: nat,
)
    requires
        routed(n, ProverMsg::<W, R>::NewWork(template, difficulty), action),
        k <= n,
    ensures
        action is Broadcast,
        action matches ProverAction::Broadcast(t, d, b) ==> {
            &&& t == template
            &&& d == difficulty
            &&& b@.total == n
            &&& b@ == broadcast_after(n, Seq::<bool>::empty())
            &&& broadcast_after(b@.total, Seq::new(k, |i: int| true)).target() == (if k < n {
                Some(k)
            } else {
                None::<nat>
            })
        },
{
    let oks = Seq::new(k, |i: int| true);
    law_broadcast_order(n, oks);
}

/// An exit request stops every worker of the prover: the shutdown it starts counts exactly
/// the `n` workers and begins with the client, so while every part acknowledges, the
/// `k`-th part asked is the client for `k == 0`, worker `k - 1` for `1 <= k <= n`, the
/// statistic for `k == n + 1`, and after that the exit request is acknowledged.
pub proof fn law_exit_stops_every_worker<W, R>(n: nat, responder: R, step: ServeStep<W, R>, k: nat)
    requires
        served(n, ProverMsg::<W, R>::Exit(responder), step),
        n <= usize::MAX,
    ensures
        step is Shutdown,
        step matches ServeStep::Shutdown(r, s) ==> {
            &&& r == responder
            &&& s@.workers == n
            &&& s@.stage == stage_after_acks(n, 0)
            &&& step_of(stage_after_acks(s@.workers, k)) == (if k == 0 {
                ShutdownStep::Ask(ExitTarget::Client)
            } else if k <= n {
                ShutdownStep::Ask(ExitTarget::Worker((k - 1) as usize))
            } else if k == n + 1 {
                ShutdownStep::Ask(ExitTarget::Statistic)
            } else {
                ShutdownStep::Done
            })
        },
{
    lemma_stage_after_acks(n, k);
}

proof fn lemma_broadcast_failed_stays(total: nat, oks: Seq<bool>)
    ensures
        broadcast_after(total, oks).total == total,
        broadcast_after(total, oks).next <= oks.len(),
        (exists|j: int| 0 <= j < oks.len() && !oks[j]) ==> broadcast_after(total, oks).failed,
        (forall|j: int| 0 <= j < oks.len() ==> oks[j]) ==> !broadcast_after(total, oks).failed
            && broadcast_after(total, oks).next == oks.len(),
    decreases oks.len(),
{
    if oks.len() > 0 {
        let prev = oks.drop_last();
        lemma_broadcast_failed_stays(total, prev);
        if exists|j: int| 0 <= j < oks.len() && !oks[j] {
            let j = choose|j: int| 0 <= j < oks.len() && !oks[j];
            if j < oks.len() - 1 {
                assert(!prev[j]);
            }
        }
        if forall|j: int| 0 <= j < oks.len() ==> oks[j] {
            assert forall|j: int| 0 <= j < prev.len() implies prev[j] by {
                assert(oks[j]);
            }
            assert(oks[oks.len() - 1]);
        }
    }
}

} // verus!
