use aleo_prover_actor::create_key;
use aleo_prover_actor::prover::{
    Broadcast, ExitTarget, Prover, ProverAction, ProverHandler, ProverMsg, ServeStep, Shutdown,
    ShutdownStep, StartError,
};
use aleo_prover_actor::worker::WorkerSpec;

const DOC_ADDRESS: &str = "aleo1m3x4er3nkjtxgtlyq9r3nl0vcyt3mmdgute6w42sm3vuwqvn0yxqct5nm3";

fn fresh_address() -> String {
    let report = create_key().expect("account generation");
    let line = report.lines().find(|l| l.trim_start().starts_with("Address:")).unwrap();
    line.trim_start().trim_start_matches("Address:").trim().to_string()
}

#[test]
fn message_names() {
    assert_eq!(ProverMsg::<u8, u8>::NewWork(1, 2).name(), "new work");
    assert_eq!(ProverMsg::<u8, u8>::SubmitResult(true, None).name(), "submit result");
    assert_eq!(ProverMsg::<u8, u8>::Exit(0).name(), "exit");
}

#[test]
fn messages_are_routed() {
    let mut p: Prover<&str> = Prover::new();
    p.add_worker("w0");
    p.add_worker("w1");
    assert_eq!(p.workers(), &vec!["w0", "w1"]);
    match p.process_msg(ProverMsg::<u32, u8>::NewWork(77, 1000)) {
        ProverAction::Broadcast(t, d, b) => {
            assert_eq!((t, d), (77, 1000));
            assert_eq!(b.target(), Some(0));
        }
        _ => panic!("expected a broadcast"),
    }
    match p.process_msg(ProverMsg::<u32, u8>::SubmitResult(false, Some("late".to_string()))) {
        ProverAction::ForwardToStatistic(v, m) => {
            assert!(!v);
            assert_eq!(m.as_deref(), Some("late"));
        }
        _ => panic!("expected forwarding"),
    }
    assert!(matches!(p.process_msg(ProverMsg::<u32, u8>::Exit(9)), ProverAction::Unexpected));
    match p.serve_step(ProverMsg::<u32, u8>::Exit(9)) {
        ServeStep::Shutdown(r, s) => {
            assert_eq!(r, 9);
            assert_eq!(s.step(), ShutdownStep::Ask(ExitTarget::Client));
        }
        _ => panic!("expected a shutdown"),
    }
    match p.serve_step(ProverMsg::<u32, u8>::NewWork(3, 4)) {
        ServeStep::Process(ProverAction::Broadcast(t, d, b)) => {
            assert_eq!((t, d), (3, 4));
            assert_eq!(b.target(), Some(0));
        }
        _ => panic!("expected a broadcast"),
    }
}

#[test]
fn broadcast_stops_at_first_refusal() {
    let mut b = Broadcast::new(3);
    assert_eq!(b.target(), Some(0));
    b.delivered(true);
    assert_eq!(b.target(), Some(1));
    b.delivered(false);
    assert_eq!(b.target(), None);
    let mut all = Broadcast::new(2);
    let mut seen = vec![];
    while let Some(i) = all.target() {
        seen.push(i);
        all.delivered(true);
    }
    assert_eq!(seen, vec![0, 1]);
    assert_eq!(Broadcast::new(0).target(), None);
}

#[test]
fn shutdown_stops_client_then_workers_then_statistic() {
    let mut s = Shutdown::new(2);
    let mut asked = vec![];
    loop {
        match s.step() {
            ShutdownStep::Ask(t) => {
                asked.push(t);
                s.acknowledged(true);
            }
            ShutdownStep::Done => break,
            ShutdownStep::Abort => panic!("unexpected abort"),
        }
    }
    assert_eq!(
        asked,
        vec![ExitTarget::Client, ExitTarget::Worker(0), ExitTarget::Worker(1), ExitTarget::Statistic]
    );
    let mut none = Shutdown::new(0);
    none.acknowledged(true);
    assert_eq!(none.step(), ShutdownStep::Ask(ExitTarget::Statistic));
}

#[test]
fn shutdown_aborts_when_a_part_does_not_answer() {
    let mut s = Shutdown::new(3);
    s.acknowledged(true);
    s.acknowledged(false);
    assert_eq!(s.step(), ShutdownStep::Abort);
}

#[test]
fn cpu_start_checks_address_then_running() {
    let mut h = ProverHandler::new();
    assert!(!h.running());
    let r = h.start_cpu(2, 4, "miner1".to_string(), "abc".to_string());
    assert_eq!(r.err(), Some(StartError::InvalidAddress));
    assert_eq!(StartError::InvalidAddress.message(), "invalid aleo address");
    assert!(!h.running());
    let address = fresh_address();
    let plan = h.start_cpu(2, 4, "miner1".to_string(), address.clone()).ok().unwrap();
    assert!(h.running());
    assert_eq!(plan.name, "miner1");
    assert_eq!(plan.address, address);
    assert_eq!(plan.workers, vec![WorkerSpec { gpu_index: -1, threads: 4 }; 2]);
    let again = h.start_cpu(1, 1, "miner1".to_string(), address.clone());
    assert_eq!(again.err(), Some(StartError::AlreadyRunning));
    assert_eq!(StartError::AlreadyRunning.message(), "prover is already running");
    let bad_while_running = h.start_cpu(1, 1, "m".to_string(), "aleo1".to_string());
    assert_eq!(bad_while_running.err(), Some(StartError::InvalidAddress));
    h.stop();
    assert!(!h.running());
    assert!(h.start_cpu(1, 1, "m".to_string(), address).is_ok());
}

#[test]
fn documented_address_is_accepted() {
    let mut h = ProverHandler::new();
    assert!(h.start_cpu(1, 8, "miner1".to_string(), DOC_ADDRESS.to_string()).is_ok());
}

#[test]
fn gpu_start_plans_workers_per_gpu() {
    let address = fresh_address();
    let mut h = ProverHandler::new();
    let r = h.start_gpu(2, vec![], "g".to_string(), address.clone(), false, 3);
    assert_eq!(r.err(), Some(StartError::NoCudaToolkit));
    assert!(!h.running());
    let r = h.start_gpu(2, vec![], "g".to_string(), address.clone(), true, 0);
    assert_eq!(r.err(), Some(StartError::NoGpu));
    assert_eq!(StartError::NoGpu.message(), "No available gpu in your device");
    assert!(h.running());
    h.stop();
    let plan = h.start_gpu(2, vec![], "g".to_string(), address.clone(), true, 3).ok().unwrap();
    let indices: Vec<i16> = plan.workers.iter().map(|w| w.gpu_index).collect();
    assert_eq!(indices, vec![0, 0, 1, 1, 2, 2]);
    assert!(plan.workers.iter().all(|w| w.threads == 2));
    h.stop();
    let plan = h.start_gpu(1, vec![4, 1], "g".to_string(), address.clone(), true, 2).ok().unwrap();
    let indices: Vec<i16> = plan.workers.iter().map(|w| w.gpu_index).collect();
    assert_eq!(indices, vec![1]);
    h.stop();
    let plan = h.start_gpu(2, vec![2, 0, 1], "g".to_string(), address.clone(), true, 3).ok().unwrap();
    let indices: Vec<i16> = plan.workers.iter().map(|w| w.gpu_index).collect();
    assert_eq!(indices, vec![2, 2, 0, 0, 1, 1]);
    h.stop();
    let plan = h.start_gpu(1, vec![5], "g".to_string(), address, true, 1).ok().unwrap();
    assert!(plan.workers.is_empty());
}
