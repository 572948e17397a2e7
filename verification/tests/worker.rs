use aleo_prover_actor::worker::{
    cpu_workers, mine_step, share_weight, worker_step, MineOutcome, MineStep, WorkerAction, WorkerMsg, WorkerSpec,
};

#[test]
fn share_weight_is_truncated_quotient() {
    assert_eq!(share_weight(1), u32::MAX);
    assert_eq!(share_weight(3), 0x5555_5555);
    assert_eq!(share_weight(1 << 32), u32::MAX);
    assert_eq!(share_weight(1 << 33), 0x7fff_ffff);
    assert_eq!(share_weight(u64::MAX), 1);
    assert_eq!(share_weight(1_000_000_000_000), 18_446_744);
}

#[test]
fn proofs_meeting_the_target_are_submitted() {
    let d = 1u64 << 40;
    let w = share_weight(d);
    assert_eq!(mine_step(d, MineOutcome::Found(Some(d))), MineStep::Submit(w));
    assert_eq!(mine_step(d, MineOutcome::Found(Some(5))), MineStep::Submit(w));
    assert_eq!(mine_step(d, MineOutcome::Found(Some(d + 1))), MineStep::Miss(w));
    assert_eq!(mine_step(d, MineOutcome::Found(None)), MineStep::Miss(w));
    assert_eq!(mine_step(u64::MAX, MineOutcome::Found(None)), MineStep::Submit(1));
    assert_eq!(mine_step(d, MineOutcome::Terminated), MineStep::Stop);
}

#[test]
fn cpu_worker_specs() {
    let v = cpu_workers(3, 8);
    assert_eq!(v, vec![WorkerSpec { gpu_index: -1, threads: 8 }; 3]);
    assert!(cpu_workers(0, 8).is_empty());
}

#[test]
fn worker_messages() {
    assert!(matches!(worker_step(WorkerMsg::<u8, u8>::Notify(3, 9)), WorkerAction::Mine(3, 9)));
    assert!(matches!(worker_step(WorkerMsg::<u8, u8>::Exit(4)), WorkerAction::StopThenAck(4)));
}
