//! Share accounting: the counters of proofs and submissions, the history of
//! proof counts taken at each periodic report, and the lines reported.
use std::collections::VecDeque;
use vstd::prelude::*;
use crate::paint::{paint, painted, LogColor};
use crate::binary64::{
    interval_rate_hundredths, interval_rate_hundredths_exec, law_rate_falls_with_interval,
    law_rate_grows_with_count, percent_hundredths, percent_hundredths_exec, NANOS_PER_SEC,
};
use crate::text::{decimal, fixed2, push_decimal, push_fixed2};

verus! {

/// A message to the statistic; `R` answers an exit request.
pub enum StatisticMsg<R> {
    /// A proof was computed: whether it met the share target, and its weight.
    Prove(bool, u32),
    /// The pool answered a submitted share: accepted or not, with an optional note.
    SubmitResult(bool, Option<String>),
    /// Stop request, acknowledged through `R`.
    Exit(R),
    /// The periodic report tick.
    Report,
}

/// What the statistic asks its runner to do after a message.
pub enum StatisticAction<R> {
    Nothing,
    /// Log this (coloured) line.
    Log(String),
    /// Acknowledge the exit request.
    AckExit(R),
}

/// Counters of proofs and share submissions, and the proof count recorded at each
/// report, most recent first.
pub struct Statistic {
    prove_weight_valid: u32,
    prove_weight_invalid: u32,
    prove_count: u32,
    submit_valid_count: u32,
    submit_invalid_count: u32,
    log: VecDeque<u32>,
}

/// The abstract state of a [`Statistic`].
pub struct StatisticView {
    pub prove_weight_valid: u32,
    pub prove_weight_invalid: u32,
    pub prove_count: u32,
    pub submit_valid_count: u32,
    pub submit_invalid_count: u32,
    /// Proof counts recorded at the reports, most recent first.
    pub log: Seq<u32>,
}

impl View for Statistic {
    type V = StatisticView;

    closed spec fn view(&self) -> StatisticView {
        StatisticView {
            prove_weight_valid: self.prove_weight_valid,
            prove_weight_invalid: self.prove_weight_invalid,
            prove_count: self.prove_count,
            submit_valid_count: self.submit_valid_count,
            submit_invalid_count: self.submit_invalid_count,
            log: self.log@,
        }
    }
}

/// The note that follows "Share accepted" / "Share rejected".
pub open spec fn note_text(note: Option<Seq<char>>) -> Seq<char> {
    match note {
        Some(m) => ": "@ + m,
        None => Seq::empty(),
    }
}

/// The view of an optional string.
pub open spec fn opt_view(m: Option<String>) -> Option<Seq<char>> {
    match m {
        Some(s) => Some(s@),
        None => None,
    }
}

/// The line reported for a share result, with the counts after it was counted.
pub open spec fn submit_line(accepted: bool, note: Option<Seq<char>>, valid: nat, total: nat) -> Seq<char> {
    (if accepted { "Share accepted"@ } else { "Share rejected"@ }) + note_text(note) + " "@ + decimal(valid)
        + " / "@ + decimal(total) + " ("@ + fixed2(percent_hundredths(valid, total)) + "%)"@
}

/// A time interval: whole seconds and the nanoseconds beyond them, as a `Duration` holds it.
#[derive(Clone, Copy, PartialEq, Eq, Debug)]
pub struct Interval {
    pub secs: u64,
    pub nanos: u32,
}

impl Interval {
    /// An interval of whole seconds.
    pub fn from_secs(secs: u64) -> (i: Interval)
        ensures
            i == (Interval { secs, nanos: 0 }),
    {
        Interval { secs, nanos: 0 }
    }
}

/// The rate of proofs per second over `interval` since the count was `past`, with two
/// decimals, as the binary64 quotient renders; a zero interval gives the text of an
/// infinite or undefined rate.
pub open spec fn rate_text(count: nat, past: nat, interval: Interval) -> Seq<char> {
    if interval.secs == 0 && interval.nanos == 0 {
        if count - past == 0 { "NaN"@ } else { "inf"@ }
    } else {
        fixed2(interval_rate_hundredths((count - past) as nat, interval.secs as nat, interval.nanos as nat))
    }
}

/// The count recorded `i + 1` reports ago, or 0 where there is none.
pub open spec fn past_count(log: Seq<u32>, i: int) -> nat {
    if 0 <= i < log.len() { log[i] as nat } else { 0 }
}

/// The periodic report line.
pub open spec fn report_line(s: StatisticView) -> Seq<char> {
    let c = s.prove_count as nat;
    "Total proofs: "@ + decimal(c)
        + " (1m: "@ + rate_text(c, past_count(s.log, 0), Interval { secs: 60, nanos: 0 })
        + " p/s, 5m: "@ + rate_text(c, past_count(s.log, 4), Interval { secs: 300, nanos: 0 })
        + " p/s, 15m: "@ + rate_text(c, past_count(s.log, 9), Interval { secs: 900, nanos: 0 })
        + " p/s, 30m: "@ + rate_text(c, past_count(s.log, 29), Interval { secs: 1800, nanos: 0 })
        + " p/s, 60m: "@ + rate_text(c, past_count(s.log, 59), Interval { secs: 3600, nanos: 0 })
        + " p/s)"@
}

impl StatisticView {
    /// Every recorded count is at most the current count, and the recorded counts
    /// do not increase from the most recent to the oldest.
    pub open spec fn wf(self) -> bool {
        &&& forall|i: int| 0 <= i < self.log.len() ==> self.log[i] <= self.prove_count
        &&& forall|i: int, j: int| 0 <= i <= j < self.log.len() ==> self.log[j] <= self.log[i]
    }

    /// The message can be counted without a counter overflowing.
    pub open spec fn admits<R>(self, msg: &StatisticMsg<R>) -> bool {
        match *msg {
            StatisticMsg::Prove(valid, weight) => {
                &&& self.prove_count < u32::MAX
                &&& if valid {
                    self.prove_weight_valid + weight <= u32::MAX
                } else {
                    self.prove_weight_invalid + weight <= u32::MAX
                }
            },
            StatisticMsg::SubmitResult(_, _) => self.submit_valid_count + self.submit_invalid_count
                < u32::MAX,
            _ => true,
        }
    }

    /// The state after a proof of the given validity and weight.
    pub open spec fn after_prove(self, valid: bool, weight: u32) -> StatisticView {
        StatisticView {
            prove_count: (self.prove_count + 1) as u32,
            prove_weight_valid: if valid {
                (self.prove_weight_valid + weight) as u32
            } else {
                self.prove_weight_valid
            },
            prove_weight_invalid: if valid {
                self.prove_weight_invalid
            } else {
                (self.prove_weight_invalid + weight) as u32
            },
            ..self
        }
    }

    proof fn lemma_prove_keeps_wf(self, valid: bool, weight: u32)
        requires
            self.wf(),
            self.prove_count < u32::MAX,
        ensures
            self.after_prove(valid, weight).wf(),
    {
        let post = self.after_prove(valid, weight);
        assert forall|i: int| 0 <= i < post.log.len() implies post.log[i] <= post.prove_count by {
            assert(self.log[i] <= self.prove_count);
        }
    }

    /// The state after a share result.
    pub open spec fn after_submit(self, accepted: bool) -> StatisticView {
        StatisticView {
            submit_valid_count: if accepted {
                (self.submit_valid_count + 1) as u32
            } else {
                self.submit_valid_count
            },
            submit_invalid_count: if accepted {
                self.submit_invalid_count
            } else {
                (self.submit_invalid_count + 1) as u32
            },
            ..self
        }
    }

    /// The state after a report: the current count is recorded as the most recent.
    pub open spec fn after_report(self) -> StatisticView {
        StatisticView { log: seq![self.prove_count] + self.log, ..self }
    }
}

impl Default for Statistic {
    fn default() -> (s: Statistic)
        ensures
            s@.wf(),
            s@.prove_count == 0,
            s@.prove_weight_valid == 0,
            s@.prove_weight_invalid == 0,
            s@.submit_valid_count == 0,
            s@.submit_invalid_count == 0,
            s@.log =~= seq![0u32, 0, 0, 0, 0, 0],
    {
        Statistic::new()
    }
}

/// How the statistic answers `msg` in state `pre`, ending in `post` with `action`.
pub open spec fn handled<R>(
    pre: StatisticView,
    msg: StatisticMsg<R>,
    post: StatisticView,
    action: StatisticAction<R>,
) -> bool {
    match msg {
        StatisticMsg::Prove(valid, weight) => {
            &&& post == pre.after_prove(valid, weight)
            &&& action is Nothing
        },
        StatisticMsg::SubmitResult(accepted, note) => {
            let p = pre.after_submit(accepted);
            &&& post == p
            &&& action matches StatisticAction::Log(line) && line@ == painted(
                if accepted { LogColor::Green } else { LogColor::Red },
                submit_line(
                    accepted,
                    opt_view(note),
                    p.submit_valid_count as nat,
                    (p.submit_valid_count + p.submit_invalid_count) as nat,
                ),
            )
        },
        StatisticMsg::Exit(responder) => {
            &&& post == pre
            &&& action == StatisticAction::<R>::AckExit(responder)
        },
        StatisticMsg::Report => {
            &&& post == pre.after_report()
            &&& action matches StatisticAction::Log(line) && line@ == painted(
                LogColor::Cyan,
                report_line(pre),
            )
        },
    }
}

/// The line reported for a share result.
fn submit_line_exec(accepted: bool, note: Option<String>, valid: u32, total: u32) -> (r: String)
    requires
        0 < total,
        valid <= total,
    ensures
        r@ == submit_line(accepted, opt_view(note), valid as nat, total as nat),
{
    let mut r = if accepted {
        String::from_str("Share accepted")
    } else {
        String::from_str("Share rejected")
    };
    match note {
        Some(m) => {
            r.append(": ");
            r.append(m.as_str());
        },
        None => {},
    }
    r.append(" ");
    push_decimal(&mut r, valid as u128);
    r.append(" / ");
    push_decimal(&mut r, total as u128);
    r.append(" (");
    push_fixed2(&mut r, percent_hundredths_exec(valid, total) as u128);
    r.append("%)");
    assert(r@ =~= submit_line(accepted, opt_view(note), valid as nat, total as nat));
    r
}

impl Statistic {
    /// All counters at zero, and six zero counts recorded.
    pub fn new() -> (s: Statistic)
        ensures
            s@.wf(),
            s@.prove_weight_valid == 0,
            s@.prove_weight_invalid == 0,
            s@.prove_count == 0,
            s@.submit_valid_count == 0,
            s@.submit_invalid_count == 0,
            s@.log =~= seq![0u32, 0, 0, 0, 0, 0],
    {
        let mut log: VecDeque<u32> = VecDeque::new();
        let mut i: usize = 0;
        while i < 6
            invariant
                i <= 6,
                log@ == Seq::new(i as nat, |k: int| 0u32),
            decreases 6 - i,
        {
            log.push_back(0);
            i = i + 1;
            assert(log@ =~= Seq::new(i as nat, |k: int| 0u32));
        }
        Statistic {
            prove_weight_valid: 0,
            prove_weight_invalid: 0,
            prove_count: 0,
            submit_valid_count: 0,
            submit_invalid_count: 0,
            log,
        }
    }

    /// Whether `msg` can be counted without a counter overflowing.
    pub fn admits<R>(&self, msg: &StatisticMsg<R>) -> (r: bool)
        ensures
            r == self@.admits(msg),
    {
        match msg {
            StatisticMsg::Prove(valid, weight) => {
                self.prove_count < u32::MAX && if *valid {
                    self.prove_weight_valid as u64 + *weight as u64 <= u32::MAX as u64
                } else {
                    self.prove_weight_invalid as u64 + *weight as u64 <= u32::MAX as u64
                }
            },
            StatisticMsg::SubmitResult(_, _) => (self.submit_valid_count as u64
                + self.submit_invalid_count as u64) < u32::MAX as u64,
            _ => true,
        }
    }

    /// The rate of proofs per second since the count was `past`, over `interval`, with
    /// two decimals.
    pub fn calculate_proof_rate(&self, past: u32, interval: Interval) -> (r: String)
        requires
            past <= self@.prove_count,
            interval.nanos < NANOS_PER_SEC,
        ensures
            r@ == rate_text(self@.prove_count as nat, past as nat, interval),
    {
        let done = self.prove_count - past;
        if interval.secs == 0 && interval.nanos == 0 {
            if done == 0 {
                String::from_str("NaN")
            } else {
                String::from_str("inf")
            }
        } else {
            let mut r = String::new();
            push_fixed2(&mut r, interval_rate_hundredths_exec(done as u64, interval.secs, interval.nanos));
            assert(r@ =~= rate_text(self@.prove_count as nat, past as nat, interval));
            r
        }
    }

    /// Counts one message and tells what to do about it.
    pub fn handle<R>(&mut self, msg: StatisticMsg<R>) -> (action: StatisticAction<R>)
        requires
            old(self)@.wf(),
            old(self)@.admits(&msg),
        ensures
            final(self)@.wf(),
            handled(old(self)@, msg, final(self)@, action),
    {
        match msg {
            StatisticMsg::Prove(valid, weight) => {
                let (w_valid, w_invalid) = if valid {
                    (self.prove_weight_valid + weight, self.prove_weight_invalid)
                } else {
                    (self.prove_weight_valid, self.prove_weight_invalid + weight)
                };
                proof {
                    old(self)@.lemma_prove_keeps_wf(valid, weight);
                }
                self.prove_count = self.prove_count + 1;
                self.prove_weight_valid = w_valid;
                self.prove_weight_invalid = w_invalid;
                StatisticAction::Nothing
            },
            StatisticMsg::SubmitResult(accepted, note) => {
                if accepted {
                    self.submit_valid_count = self.submit_valid_count + 1;
                } else {
                    self.submit_invalid_count = self.submit_invalid_count + 1;
                }
                let valid = self.submit_valid_count;
                let total = self.submit_valid_count + self.submit_invalid_count;
                assert(self@.log == old(self)@.log);
                assert(self@.wf());
                let line = submit_line_exec(accepted, note, valid, total);
                let color = if accepted {
                    LogColor::Green
                } else {
                    LogColor::Red
                };
                StatisticAction::Log(paint(color, line))
            },
            StatisticMsg::Exit(responder) => StatisticAction::AckExit(responder),
            StatisticMsg::Report => {
                let line = self.report_line_exec();
                let ghost pre = self@;
                self.log.push_front(self.prove_count);
                assert(self@.log =~= seq![pre.prove_count] + pre.log);
                StatisticAction::Log(paint(LogColor::Cyan, line))
            },
        }
    }

    fn report_line_exec(&self) -> (r: String)
        requires
            self@.wf(),
        ensures
            r@ == report_line(self@),
    {
        let c = self.prove_count;
        let mut r = String::from_str("Total proofs: ");
        push_decimal(&mut r, c as u128);
        r.append(" (1m: ");
        r.append(self.calculate_proof_rate(self.recorded_count(0), Interval::from_secs(60)).as_str());
        r.append(" p/s, 5m: ");
        r.append(self.calculate_proof_rate(self.recorded_count(4), Interval::from_secs(300)).as_str());
        r.append(" p/s, 15m: ");
        r.append(self.calculate_proof_rate(self.recorded_count(9), Interval::from_secs(900)).as_str());
        r.append(" p/s, 30m: ");
        r.append(self.calculate_proof_rate(self.recorded_count(29), Interval::from_secs(1800)).as_str());
        r.append(" p/s, 60m: ");
        r.append(self.calculate_proof_rate(self.recorded_count(59), Interval::from_secs(3600)).as_str());
        r.append(" p/s)");
        assert(r@ =~= report_line(self@));
        r
    }

    /// Number of proofs computed.
    pub fn prove_count(&self) -> (r: u32)
        ensures
            r == self@.prove_count,
    {
        self.prove_count
    }

    /// Total weight of the proofs that met the share target.
    pub fn prove_weight_valid(&self) -> (r: u32)
        ensures
            r == self@.prove_weight_valid,
    {
        self.prove_weight_valid
    }

    /// Total weight of the proofs that missed the share target.
    pub fn prove_weight_invalid(&self) -> (r: u32)
        ensures
            r == self@.prove_weight_invalid,
    {
        self.prove_weight_invalid
    }

    /// Number of shares the pool accepted.
    pub fn submit_valid_count(&self) -> (r: u32)
        ensures
            r == self@.submit_valid_count,
    {
        self.submit_valid_count
    }

    /// Number of shares the pool rejected.
    pub fn submit_invalid_count(&self) -> (r: u32)
        ensures
            r == self@.submit_invalid_count,
    {
        self.submit_invalid_count
    }

    /// The count recorded `i + 1` reports ago, or 0 where there is none.
    pub fn recorded_count(&self, i: usize) -> (r: u32)
        ensures
            r as nat == past_count(self@.log, i as int),
            self@.wf() ==> r <= self@.prove_count,
    {
        if i < self.log.len() {
            self.log[i]
        } else {
            0
        }
    }

}

/// Counters only grow: no message lowers the proof count, the submission counts or the
/// weights, and a proof adds exactly one to the proof count.
pub proof fn law_counters_never_decrease<R>(
    pre: StatisticView,
    msg: StatisticMsg<R>,
    post: StatisticView,
    action: StatisticAction<R>,
)
    requires
        pre.admits(&msg),
        handled(pre, msg, post, action),
    ensures
        post.prove_count >= pre.prove_count,
        post.submit_valid_count >= pre.submit_valid_count,
        post.submit_invalid_count >= pre.submit_invalid_count,
        post.prove_weight_valid >= pre.prove_weight_valid,
        post.prove_weight_invalid >= pre.prove_weight_invalid,
        msg is Prove ==> post.prove_count == pre.prove_count + 1,
        msg is SubmitResult ==> post.submit_valid_count + post.submit_invalid_count
            == pre.submit_valid_count + pre.submit_invalid_count + 1,
{
}

/// A report records the current proof count as the most recent one and moves every
/// earlier record one report further back; the figures of the report (the records 1, 5,
/// 10, 30 and 60 reports back, labelled 1m, 5m, 15m, 30m and 60m) are read before the
/// record is added.
pub proof fn law_report_shifts_windows(pre: StatisticView)
    ensures
        past_count(pre.after_report().log, 0) == pre.prove_count,
        forall|i: int| 0 <= i ==> #[trigger] past_count(pre.after_report().log, i + 1) == past_count(pre.log, i),
        pre.after_report().prove_count == pre.prove_count,
{
    let post = pre.after_report();
    assert forall|i: int| 0 <= i implies #[trigger] past_count(post.log, i + 1) == past_count(pre.log, i) by {
        if i < pre.log.len() {
            assert(post.log[i + 1] == pre.log[i]);
        }
    }
}

/// In a consistent state no recorded count exceeds the current count, so the number of
/// proofs in every window is the difference of the two.
pub proof fn law_window_counts_bounded(s: StatisticView, i: int)
    requires
        s.wf(),
    ensures
        past_count(s.log, i) <= s.prove_count,
{
}

/// The rate that a report gives for a window: the proofs counted since the count recorded
/// `back + 1` reports ago, over `secs` seconds.
pub open spec fn window_rate(s: StatisticView, back: int, secs: u64) -> Seq<char> {
    rate_text(s.prove_count as nat, past_count(s.log, back), Interval { secs, nanos: 0 })
}

/// The report line gives the total proof count and then five windows, each the rate since
/// a recorded count over a fixed number of seconds: 1m since the last record over 60 s, 5m
/// since the fifth last over 300 s, 15m since the tenth last over 900 s, 30m since the
/// thirtieth last over 1800 s, and 60m since the sixtieth last over 3600 s, which closes
/// the line.
pub proof fn law_report_windows(s: StatisticView)
    ensures
        report_line(s) == "Total proofs: "@ + decimal(s.prove_count as nat) + " (1m: "@ + window_rate(s, 0, 60)
            + " p/s, 5m: "@ + window_rate(s, 4, 300) + " p/s, 15m: "@ + window_rate(s, 9, 900)
            + " p/s, 30m: "@ + window_rate(s, 29, 1800) + " p/s, 60m: "@ + window_rate(s, 59, 3600) + " p/s)"@,
        (" p/s, 60m: "@ + window_rate(s, 59, 3600) + " p/s)"@).is_suffix_of(report_line(s)),
{
    let tail = " p/s, 60m: "@ + window_rate(s, 59, 3600) + " p/s)"@;
    let head = "Total proofs: "@ + decimal(s.prove_count as nat) + " (1m: "@ + window_rate(s, 0, 60)
        + " p/s, 5m: "@ + window_rate(s, 4, 300) + " p/s, 15m: "@ + window_rate(s, 9, 900)
        + " p/s, 30m: "@ + window_rate(s, 29, 1800);
    assert(report_line(s) =~= head + tail);
    assert((head + tail).subrange(head.len() as int, (head + tail).len() as int) =~= tail);
}

/// Whether the nonzero interval `a` is no longer than the interval `b`.
pub open spec fn interval_within(a: Interval, b: Interval) -> bool {
    &&& a.secs > 0 || a.nanos > 0
    &&& a.nanos < NANOS_PER_SEC
    &&& b.nanos < NANOS_PER_SEC
    &&& a.secs < b.secs || (a.secs == b.secs && a.nanos <= b.nanos)
}

/// The reported rate grows with the proof count and falls as the past count or the
/// interval grows: with more proofs since a count no larger, over a nonzero interval no
/// longer, the rendered rate is at least as high.
pub proof fn law_proof_rate_monotone(
    count1: nat,
    past1: nat,
    interval1: Interval,
    count2: nat,
    past2: nat,
    interval2: Interval,
)
    requires
        count1 <= count2 <= u32::MAX,
        past2 <= past1 <= count1,
        interval_within(interval2, interval1),
    ensures
        rate_text(count1, past1, interval1) == fixed2(
            interval_rate_hundredths((count1 - past1) as nat, interval1.secs as nat, interval1.nanos as nat),
        ),
        rate_text(count2, past2, interval2) == fixed2(
            interval_rate_hundredths((count2 - past2) as nat, interval2.secs as nat, interval2.nanos as nat),
        ),
        interval_rate_hundredths((count1 - past1) as nat, interval1.secs as nat, interval1.nanos as nat)
            <= interval_rate_hundredths((count2 - past2) as nat, interval2.secs as nat, interval2.nanos as nat),
{
    let n1 = (count1 - past1) as nat;
    let n2 = (count2 - past2) as nat;
    law_rate_falls_with_interval(
        n1,
        interval2.secs as nat,
        interval2.nanos as nat,
        interval1.secs as nat,
        interval1.nanos as nat,
    );
    law_rate_grows_with_count(n1, n2, interval2.secs as nat, interval2.nanos as nat);
}

/// The state after `msg`.
pub open spec fn next_state<R>(s: StatisticView, msg: StatisticMsg<R>) -> StatisticView {
    match msg {
        StatisticMsg::Prove(valid, weight) => s.after_prove(valid, weight),
        StatisticMsg::SubmitResult(accepted, _) => s.after_submit(accepted),
        StatisticMsg::Exit(_) => s,
        StatisticMsg::Report => s.after_report(),
    }
}

/// The state after the messages `msgs`, in order, from `s`.
pub open spec fn run<R>(s: StatisticView, msgs: Seq<StatisticMsg<R>>) -> StatisticView
    decreases msgs.len(),
{
    if msgs.len() == 0 {
        s
    } else {
        next_state(run(s, msgs.drop_last()), msgs.last())
    }
}

/// Every message of `msgs` can be counted in turn from `s`.
pub open spec fn all_admitted<R>(s: StatisticView, msgs: Seq<StatisticMsg<R>>) -> bool {
    forall|i: int| 0 <= i < msgs.len() ==> #[trigger] run(s, msgs.take(i)).admits(&msgs[i])
}

/// What a run of messages adds up to: proofs, accepted and rejected share results, and the
/// weights of the proofs that met and missed the target.
pub struct Tally {
    pub proofs: nat,
    pub accepted: nat,
    pub rejected: nat,
    pub valid_weight: nat,
    pub invalid_weight: nat,
}

/// The tally of `msgs`.
pub open spec fn tally<R>(msgs: Seq<StatisticMsg<R>>) -> Tally
    decreases msgs.len(),
{
    if msgs.len() == 0 {
        Tally { proofs: 0, accepted: 0, rejected: 0, valid_weight: 0, invalid_weight: 0 }
    } else {
        let t = tally(msgs.drop_last());
        match msgs.last() {
            StatisticMsg::Prove(valid, weight) => if valid {
                Tally { proofs: t.proofs + 1, valid_weight: t.valid_weight + weight as nat, ..t }
            } else {
                Tally { proofs: t.proofs + 1, invalid_weight: t.invalid_weight + weight as nat, ..t }
            },
            StatisticMsg::SubmitResult(accepted, _) => if accepted {
                Tally { accepted: t.accepted + 1, ..t }
            } else {
                Tally { rejected: t.rejected + 1, ..t }
            },
            _ => t,
        }
    }
}

/// The proof counts recorded by the reports among `msgs`, started from `s`, most recent
/// first: each report records the proof count it finds.
pub open spec fn snapshots<R>(s: StatisticView, msgs: Seq<StatisticMsg<R>>) -> Seq<u32>
    decreases msgs.len(),
{
    if msgs.len() == 0 {
        Seq::empty()
    } else if msgs.last() is Report {
        seq![run(s, msgs.drop_last()).prove_count] + snapshots(s, msgs.drop_last())
    } else {
        snapshots(s, msgs.drop_last())
    }
}

/// Handling a message moves the statistic to `next_state`.
pub proof fn law_handle_is_next_state<R>(
    pre: StatisticView,
    msg: StatisticMsg<R>,
    post: StatisticView,
    action: StatisticAction<R>,
)
    requires
        handled(pre, msg, post, action),
    ensures
        post == next_state(pre, msg),
{
}

/// The totals count every message: after a run of messages, the proof count has grown by
/// the number of proofs, the weight totals by the weights of the proofs that met and missed
/// the target, and the accepted and rejected counts by the number of accepted and
/// rejected share results; reports and exit requests change no counter.
pub proof fn law_totals_count_messages<R>(s: StatisticView, msgs: Seq<StatisticMsg<R>>)
    requires
        all_admitted(s, msgs),
    ensures
        run(s, msgs).prove_count == s.prove_count + tally(msgs).proofs,
        run(s, msgs).submit_valid_count == s.submit_valid_count + tally(msgs).accepted,
        run(s, msgs).submit_invalid_count == s.submit_invalid_count + tally(msgs).rejected,
        run(s, msgs).prove_weight_valid == s.prove_weight_valid + tally(msgs).valid_weight,
        run(s, msgs).prove_weight_invalid == s.prove_weight_invalid + tally(msgs).invalid_weight,
    decreases msgs.len(),
{
    if msgs.len() > 0 {
        let prev = msgs.drop_last();
        lemma_admitted_prefix(s, msgs);
        law_totals_count_messages(s, prev);
        let last = msgs.len() - 1;
        assert(msgs.take(last) =~= prev);
        assert(run(s, msgs.take(last)).admits(&msgs[last]));
    }
}

proof fn lemma_admitted_prefix<R>(s: StatisticView, msgs: Seq<StatisticMsg<R>>)
    requires
        all_admitted(s, msgs),
        msgs.len() > 0,
    ensures
        all_admitted(s, msgs.drop_last()),
{
    let prev = msgs.drop_last();
    assert forall|i: int| 0 <= i < prev.len() implies #[trigger] run(s, prev.take(i)).admits(&prev[i]) by {
        assert(prev.take(i) =~= msgs.take(i));
        assert(prev[i] == msgs[i]);
        assert(run(s, msgs.take(i)).admits(&msgs[i]));
    }
}

/// The reports record history: after a run of messages the recorded counts are, most recent
/// first, the proof counts found by the run's reports, followed by those recorded before;
/// so the `i`-th record is the count `i + 1` reports back.
pub proof fn law_history_records_reports<R>(s: StatisticView, msgs: Seq<StatisticMsg<R>>)
    ensures
        run(s, msgs).log == snapshots(s, msgs) + s.log,
    decreases msgs.len(),
{
    if msgs.len() > 0 {
        let prev = msgs.drop_last();
        law_history_records_reports(s, prev);
        if msgs.last() is Report {
            assert(run(s, msgs).log =~= snapshots(s, msgs) + s.log);
        }
    }
}

proof fn lemma_next_state_keeps_wf<R>(s: StatisticView, msg: StatisticMsg<R>)
    requires
        s.wf(),
        s.admits(&msg),
    ensures
        next_state(s, msg).wf(),
{
    match msg {
        StatisticMsg::Prove(valid, weight) => s.lemma_prove_keeps_wf(valid, weight),
        StatisticMsg::Report => {
            let post = s.after_report();
            assert forall|i: int| 0 <= i < post.log.len() implies post.log[i] <= post.prove_count by {
                if i > 0 {
                    assert(post.log[i] == s.log[i - 1]);
                }
            }
            assert forall|i: int, j: int| 0 <= i <= j < post.log.len() implies post.log[j]
                <= post.log[i] by {
                if i > 0 {
                    assert(post.log[i] == s.log[i - 1] && post.log[j] == s.log[j - 1]);
                } else if j > 0 {
                    assert(post.log[j] == s.log[j - 1]);
                }
            }
        },
        _ => {},
    }
}

/// A run whose totals fit the counters never overflows: when the proofs, the weights of
/// each kind and the share results added to what the state holds stay within 32 bits,
/// every message of the run can be counted in turn, and the state stays consistent, so
/// every window count is at most the proof count.
pub proof fn law_bounded_run_never_overflows<R>(s: StatisticView, msgs: Seq<StatisticMsg<R>>)
    requires
        s.wf(),
        s.prove_count + tally(msgs).proofs <= u32::MAX,
        s.prove_weight_valid + tally(msgs).valid_weight <= u32::MAX,
        s.prove_weight_invalid + tally(msgs).invalid_weight <= u32::MAX,
        s.submit_valid_count + s.submit_invalid_count + tally(msgs).accepted + tally(msgs).rejected
            <= u32::MAX,
    ensures
        all_admitted(s, msgs),
        run(s, msgs).wf(),
    decreases msgs.len(),
{
    if msgs.len() > 0 {
        let prev = msgs.drop_last();
        law_bounded_run_never_overflows(s, prev);
        law_totals_count_messages(s, prev);
        let last = msgs.len() - 1;
        assert(msgs.take(last) =~= prev);
        let pre = run(s, prev);
        assert(pre.admits(&msgs.last()));
        assert forall|i: int| 0 <= i < msgs.len() implies #[trigger] run(s, msgs.take(i)).admits(&msgs[i]) by {
            if i < last {
                assert(prev.take(i) =~= msgs.take(i));
                assert(prev[i] == msgs[i]);
                assert(run(s, prev.take(i)).admits(&prev[i]));
            }
        }
        lemma_next_state_keeps_wf(pre, msgs.last());
    }
}

} // verus!
