//! The oracle arbitration engine.
//!
//! One arbitration operation — a historical backfill or a live listen — is a
//! strictly sequential pipeline: attestations arrive in ledger order, each is
//! filtered by the run's options, the surviving ones are handed to the
//! caller's decision function one at a time, an affirmative decision leads to
//! one submission, and every explicit decision is appended to an ordered log.
//!
//! The engine performs no I/O itself. `ArbitrationSession` is a state
//! machine: the surrounding runtime fetches attestations, drives the decision
//! function and submits transactions, and reports each of those outcomes here
//! as a plain event. Every step of the machine is specified against the
//! mathematical model `SessionModel` via the transition function `step`, and
//! the run-wide guarantees (filter laws, order preservation, idempotent
//! cancellation) are proved about `step` and `replay` below.

use vstd::prelude::*;

verus! {

/// The options that govern one arbitration run.
///
/// `skip_arbitrated` excludes attestations that already carry a recorded
/// arbitration outcome; `only_new` excludes attestations created strictly
/// before the run's start point.
#[derive(Clone, Debug)]
pub struct PyArbitrateOptions {
    pub skip_arbitrated: bool,
    pub only_new: bool,
}

impl PyArbitrateOptions {
    pub fn __new__(skip_arbitrated: bool, only_new: bool) -> (r: Self)
        ensures
            r.skip_arbitrated == skip_arbitrated,
            r.only_new == only_new,
    {
        PyArbitrateOptions { skip_arbitrated, only_new }
    }
}

impl Default for PyArbitrateOptions {
    /// Both filters are off by default: every delivered attestation is
    /// considered.
    fn default() -> (r: Self)
        ensures
            !r.skip_arbitrated,
            !r.only_new,
    {
        PyArbitrateOptions { skip_arbitrated: false, only_new: false }
    }
}

/// An immutable ledger attestation, with identifiers and payload carried as
/// `0x`-prefixed hex text and timestamps as ledger seconds.
#[derive(Clone, Debug)]
pub struct PyOracleAttestation {
    pub uid: String,
    pub schema: String,
    pub ref_uid: String,
    pub time: u64,
    pub expiration_time: u64,
    pub revocation_time: u64,
    pub recipient: String,
    pub attester: String,
    pub revocable: bool,
    pub data: String,
}

/// The mathematical value of an attestation.
pub ghost struct AttestationView {
    pub uid: Seq<char>,
    pub schema: Seq<char>,
    pub ref_uid: Seq<char>,
    pub time: u64,
    pub expiration_time: u64,
    pub revocation_time: u64,
    pub recipient: Seq<char>,
    pub attester: Seq<char>,
    pub revocable: bool,
    pub data: Seq<char>,
}

impl View for PyOracleAttestation {
    type V = AttestationView;

    open spec fn view(&self) -> AttestationView {
        AttestationView {
            uid: self.uid@,
            schema: self.schema@,
            ref_uid: self.ref_uid@,
            time: self.time,
            expiration_time: self.expiration_time,
            revocation_time: self.revocation_time,
            recipient: self.recipient@,
            attester: self.attester@,
            revocable: self.revocable,
            data: self.data@,
        }
    }
}

/// One recorded decision: the attestation it concerns, the verdict, and the
/// submitted transaction's hash (empty for a negative decision, which causes
/// no submission).
#[derive(Clone, Debug)]
pub struct PyDecision {
    pub attestation: PyOracleAttestation,
    pub decision: bool,
    pub transaction_hash: String,
}

/// The mathematical value of a decision record.
pub ghost struct DecisionView {
    pub attestation: AttestationView,
    pub decision: bool,
    pub transaction_hash: Seq<char>,
}

impl View for PyDecision {
    type V = DecisionView;

    open spec fn view(&self) -> DecisionView {
        DecisionView {
            attestation: self.attestation@,
            decision: self.decision,
            transaction_hash: self.transaction_hash@,
        }
    }
}

/// What a finished listen operation hands back: the ordered decision log and
/// the subscription's identifier.
#[derive(Clone, Debug)]
pub struct PyListenResult {
    pub decisions: Vec<PyDecision>,
    pub subscription_id: String,
}

/// The addresses an oracle run is wired to.
#[derive(Clone, Debug)]
pub struct PyOracleAddresses {
    pub eas: String,
    pub trusted_oracle_arbiter: String,
}

impl PyOracleAddresses {
    pub fn __new__(eas: String, trusted_oracle_arbiter: String) -> (r: Self)
        ensures
            r.eas@ == eas@,
            r.trusted_oracle_arbiter@ == trusted_oracle_arbiter@,
    {
        PyOracleAddresses { eas, trusted_oracle_arbiter }
    }
}

/// Whether a run's filters let an attestation through to the decision
/// function.
pub open spec fn considered(
    att: AttestationView,
    skip_arbitrated: bool,
    only_new: bool,
    start_time: u64,
    already_arbitrated: bool,
) -> bool {
    !(skip_arbitrated && already_arbitrated) && !(only_new && att.time < start_time)
}

/// Where a session stands in its lifecycle; the three terminal states are
/// final.
#[derive(Clone, Copy, PartialEq, Eq, Structural, Debug)]
pub enum SessionStatus {
    Listening,
    TimedOut,
    Cancelled,
    Completed,
}

/// The per-attestation pipeline position: idle, or exactly one attestation in
/// flight (being evaluated, or being submitted after an affirmative verdict).
pub enum SessionPhase {
    Ready,
    Evaluating(PyOracleAttestation),
    Submitting(PyOracleAttestation),
}

/// The model of `SessionPhase`.
pub ghost enum PhaseView {
    Ready,
    Evaluating(AttestationView),
    Submitting(AttestationView),
}

impl View for SessionPhase {
    type V = PhaseView;

    open spec fn view(&self) -> PhaseView {
        match self {
            SessionPhase::Ready => PhaseView::Ready,
            SessionPhase::Evaluating(att) => PhaseView::Evaluating(att@),
            SessionPhase::Submitting(att) => PhaseView::Submitting(att@),
        }
    }
}

/// One event reported to a session by its runtime.
pub ghost enum SessionEvent {
    /// The stream produced the next attestation, together with whether the
    /// ledger already holds an arbitration outcome for it.
    Deliver { att: AttestationView, already_arbitrated: bool },
    /// The decision function resolved: an explicit verdict, or `None` for
    /// "no opinion" (which also stands for a failed callback).
    Verdict { verdict: Option<bool> },
    /// The arbitration transaction for the in-flight attestation confirmed.
    Submitted { transaction_hash: Seq<char> },
    /// The ledger rejected the submission; the item's decision is abandoned.
    SubmitFailed,
    /// The caller-supplied listen duration elapsed.
    Timeout,
    /// The caller cancelled the subscription.
    Cancel,
    /// The underlying stream ended on its own.
    StreamEnd,
}

/// The full mathematical state of one arbitration run.
pub ghost struct SessionModel {
    pub skip_arbitrated: bool,
    pub only_new: bool,
    pub start_time: u64,
    pub subscription_id: Seq<char>,
    pub status: SessionStatus,
    pub phase: PhaseView,
    /// The decision log, in the order the decisions were produced.
    pub decisions: Seq<DecisionView>,
    /// Every attestation the stream delivered, in delivery order.
    pub offered: Seq<AttestationView>,
    /// Every attestation handed to the decision function, in order.
    pub calls: Seq<AttestationView>,
}

pub open spec fn dec_atts(ds: Seq<DecisionView>) -> Seq<AttestationView> {
    Seq::new(ds.len(), |i: int| ds[i].attestation)
}

/// The state a fresh session starts from.
pub open spec fn init_model(
    skip_arbitrated: bool,
    only_new: bool,
    start_time: u64,
    subscription_id: Seq<char>,
) -> SessionModel {
    SessionModel {
        skip_arbitrated,
        only_new,
        start_time,
        subscription_id,
        status: SessionStatus::Listening,
        phase: PhaseView::Ready,
        decisions: Seq::empty(),
        offered: Seq::empty(),
        calls: Seq::empty(),
    }
}

/// The transition function. An event that is impossible in the current state
/// (a verdict with nothing in flight, anything after a terminal transition)
/// changes nothing.
pub open spec fn step(m: SessionModel, ev: SessionEvent) -> SessionModel {
    match ev {
        SessionEvent::Deliver { att, already_arbitrated } => {
            if m.status == SessionStatus::Listening && m.phase is Ready {
                let delivered = SessionModel { offered: m.offered.push(att), ..m };
                if considered(att, m.skip_arbitrated, m.only_new, m.start_time,
                        already_arbitrated) {
                    SessionModel {
                        phase: PhaseView::Evaluating(att),
                        calls: delivered.calls.push(att),
                        ..delivered
                    }
                } else {
                    delivered
                }
            } else {
                m
            }
        },
        SessionEvent::Verdict { verdict } => {
            if m.status != SessionStatus::Listening {
                m
            } else {
                match m.phase {
                    PhaseView::Evaluating(att) => match verdict {
                        Some(true) => SessionModel { phase: PhaseView::Submitting(att), ..m },
                        Some(false) => SessionModel {
                            phase: PhaseView::Ready,
                            decisions: m.decisions.push(DecisionView {
                                attestation: att,
                                decision: false,
                                transaction_hash: Seq::empty(),
                            }),
                            ..m
                        },
                        None => SessionModel { phase: PhaseView::Ready, ..m },
                    },
                    _ => m,
                }
            }
        },
        SessionEvent::Submitted { transaction_hash } => {
            if m.status != SessionStatus::Listening {
                m
            } else {
                match m.phase {
                    PhaseView::Submitting(att) => SessionModel {
                        phase: PhaseView::Ready,
                        decisions: m.decisions.push(DecisionView {
                            attestation: att,
                            decision: true,
                            transaction_hash,
                        }),
                        ..m
                    },
                    _ => m,
                }
            }
        },
        SessionEvent::SubmitFailed => {
            if m.status == SessionStatus::Listening && m.phase matches PhaseView::Submitting(_att) {
                SessionModel { phase: PhaseView::Ready, ..m }
            } else {
                m
            }
        },
        SessionEvent::Timeout => {
            if m.status == SessionStatus::Listening {
                SessionModel { status: SessionStatus::TimedOut, phase: PhaseView::Ready, ..m }
            } else {
                m
            }
        },
        SessionEvent::Cancel => {
            if m.status == SessionStatus::Listening {
                SessionModel { status: SessionStatus::Cancelled, phase: PhaseView::Ready, ..m }
            } else {
                m
            }
        },
        SessionEvent::StreamEnd => {
            if m.status == SessionStatus::Listening {
                SessionModel { status: SessionStatus::Completed, phase: PhaseView::Ready, ..m }
            } else {
                m
            }
        },
    }
}

/// `step` folded over a whole event sequence.
pub open spec fn replay(m: SessionModel, evs: Seq<SessionEvent>) -> SessionModel
    decreases evs.len(),
{
    if evs.len() == 0 {
        m
    } else {
        step(replay(m, evs.drop_last()), evs.last())
    }
}

/// One arbitration operation: the subscription's lifecycle, the in-flight
/// item, and the decision log it accumulates.
pub struct ArbitrationSession {
    skip_arbitrated: bool,
    only_new: bool,
    start_time: u64,
    subscription_id: String,
    status: SessionStatus,
    phase: SessionPhase,
    decisions: Vec<PyDecision>,
    offered: Ghost<Seq<AttestationView>>,
    calls: Ghost<Seq<AttestationView>>,
}

impl View for ArbitrationSession {
    type V = SessionModel;

    closed spec fn view(&self) -> SessionModel {
        SessionModel {
            skip_arbitrated: self.skip_arbitrated,
            only_new: self.only_new,
            start_time: self.start_time,
            subscription_id: self.subscription_id@,
            status: self.status,
            phase: self.phase@,
            decisions: self.decisions@.map_values(|d: PyDecision| d@),
            offered: self.offered@,
            calls: self.calls@,
        }
    }
}

impl ArbitrationSession {
    /// Opens a run. `start_time` anchors the `only_new` filter; the
    /// subscription id names the operation towards `unsubscribe`.
    pub fn new(options: PyArbitrateOptions, start_time: u64, subscription_id: String) -> (s: Self)
        ensures
            s@ == init_model(options.skip_arbitrated, options.only_new, start_time,
                subscription_id@),
    {
        let s = ArbitrationSession {
            skip_arbitrated: options.skip_arbitrated,
            only_new: options.only_new,
            start_time,
            subscription_id,
            status: SessionStatus::Listening,
            phase: SessionPhase::Ready,
            decisions: Vec::new(),
            offered: Ghost(Seq::empty()),
            calls: Ghost(Seq::empty()),
        };
        proof {
            assert(s.decisions@.map_values(|d: PyDecision| d@) =~= Seq::<DecisionView>::empty());
            assert(s@ =~= init_model(options.skip_arbitrated, options.only_new, start_time,
                s.subscription_id@));
        }
        s
    }

    pub fn status(&self) -> (r: SessionStatus)
        ensures
            r == self@.status,
    {
        self.status
    }

    pub fn subscription_id(&self) -> (r: &String)
        ensures
            r@ == self@.subscription_id,
    {
        &self.subscription_id
    }

    pub fn decision_count(&self) -> (r: usize)
        ensures
            r == self@.decisions.len(),
    {
        self.decisions.len()
    }

    /// The decisions recorded so far, in order.
    pub fn decisions(&self) -> (r: &Vec<PyDecision>)
        ensures
            r@.map_values(|d: PyDecision| d@) == self@.decisions,
    {
        &self.decisions
    }

    /// The next attestation from the stream. Returns whether the caller must
    /// now invoke the decision function on it; at most one attestation is in
    /// flight, so this demands an idle pipeline.
    pub fn deliver(&mut self, att: PyOracleAttestation, already_arbitrated: bool) -> (evaluate:
        bool)
        requires
            old(self)@.status == SessionStatus::Listening,
            old(self)@.phase is Ready,
        ensures
            final(self)@ == step(old(self)@, SessionEvent::Deliver {
                att: att@,
                already_arbitrated,
            }),
            evaluate == considered(att@, old(self)@.skip_arbitrated, old(self)@.only_new,
                old(self)@.start_time, already_arbitrated),
            evaluate ==> final(self)@.phase == PhaseView::Evaluating(att@),
    {
        self.offered = Ghost(self.offered@.push(att@));
        let passes = !(self.skip_arbitrated && already_arbitrated)
            && !(self.only_new && att.time < self.start_time);
        if passes {
            self.calls = Ghost(self.calls@.push(att@));
            self.phase = SessionPhase::Evaluating(att);
            true
        } else {
            false
        }
    }

    /// The decision function resolved for the in-flight attestation.
    /// `Some(true)` asks the caller to submit the arbitration transaction for
    /// the returned uid; `Some(false)` records an auditable negative
    /// decision; `None` records nothing.
    pub fn record_verdict(&mut self, verdict: Option<bool>) -> (submit: Option<String>)
        requires
            old(self)@.status == SessionStatus::Listening,
            old(self)@.phase matches PhaseView::Evaluating(_),
        ensures
            final(self)@ == step(old(self)@, SessionEvent::Verdict { verdict }),
            submit is Some <==> verdict == Some(true),
            (submit matches Some(uid) ==> old(self)@.phase matches PhaseView::Evaluating(att)
                && uid@ == att.uid),
    {
        let mut ph = SessionPhase::Ready;
        core::mem::swap(&mut ph, &mut self.phase);
        match ph {
            SessionPhase::Evaluating(att) => {
                match verdict {
                    Some(true) => {
                        let uid = att.uid.clone();
                        self.phase = SessionPhase::Submitting(att);
                        Some(uid)
                    },
                    Some(false) => {
                        let d = PyDecision {
                            attestation: att,
                            decision: false,
                            transaction_hash: String::new(),
                        };
                        let ghost prev = self.decisions@.map_values(|x: PyDecision| x@);
                        self.decisions.push(d);
                        proof {
                            assert(self.decisions@.map_values(|x: PyDecision| x@)
                                =~= prev.push(d@));
                        }
                        None
                    },
                    None => None,
                }
            },
            _ => {
                // Unreachable: the precondition pins the phase.
                None
            },
        }
    }

    /// The arbitration transaction for the in-flight attestation confirmed;
    /// the affirmative decision is appended to the log.
    pub fn record_submission(&mut self, transaction_hash: String)
        requires
            old(self)@.status == SessionStatus::Listening,
            old(self)@.phase matches PhaseView::Submitting(_),
        ensures
            final(self)@ == step(old(self)@, SessionEvent::Submitted {
                transaction_hash: transaction_hash@,
            }),
    {
        let mut ph = SessionPhase::Ready;
        core::mem::swap(&mut ph, &mut self.phase);
        match ph {
            SessionPhase::Submitting(att) => {
                let d = PyDecision { attestation: att, decision: true, transaction_hash };
                let ghost prev = self.decisions@.map_values(|x: PyDecision| x@);
                self.decisions.push(d);
                proof {
                    assert(self.decisions@.map_values(|x: PyDecision| x@) =~= prev.push(d@));
                }
            },
            _ => {
                self.phase = ph;
            },
        }
    }

    /// The ledger rejected the submission: the item's decision is abandoned
    /// and processing continues with the next attestation.
    pub fn record_submission_failure(&mut self)
        requires
            old(self)@.status == SessionStatus::Listening,
            old(self)@.phase matches PhaseView::Submitting(_),
        ensures
            final(self)@ == step(old(self)@, SessionEvent::SubmitFailed),
    {
        self.phase = SessionPhase::Ready;
    }

    /// The listen duration elapsed. Nothing in flight is recorded: either a
    /// decision was completed before this point, or it leaves no trace.
    pub fn timeout(&mut self)
        requires
            old(self)@.status == SessionStatus::Listening,
        ensures
            final(self)@ == step(old(self)@, SessionEvent::Timeout),
    {
        self.status = SessionStatus::TimedOut;
        self.phase = SessionPhase::Ready;
    }

    /// Explicit cancellation. Idempotent: on an already-terminal session this
    /// is a no-op, not an error.
    pub fn unsubscribe(&mut self)
        ensures
            final(self)@ == step(old(self)@, SessionEvent::Cancel),
    {
        match self.status {
            SessionStatus::Listening => {
                self.status = SessionStatus::Cancelled;
                self.phase = SessionPhase::Ready;
            },
            _ => {},
        }
    }

    /// The underlying stream ended on its own (a bounded backfill ran out).
    pub fn complete(&mut self)
        requires
            old(self)@.status == SessionStatus::Listening,
        ensures
            final(self)@ == step(old(self)@, SessionEvent::StreamEnd),
    {
        self.status = SessionStatus::Completed;
        self.phase = SessionPhase::Ready;
    }

    /// Closes a terminal session and hands back the accumulated result.
    pub fn finish(self) -> (r: PyListenResult)
        requires
            self@.status != SessionStatus::Listening,
        ensures
            r.decisions@.map_values(|d: PyDecision| d@) == self@.decisions,
            r.subscription_id@ == self@.subscription_id,
    {
        PyListenResult { decisions: self.decisions, subscription_id: self.subscription_id }
    }
}

/// The attestation currently in flight, if any.
pub open spec fn phase_att(p: PhaseView) -> Option<AttestationView> {
    match p {
        PhaseView::Ready => None,
        PhaseView::Evaluating(a) => Some(a),
        PhaseView::Submitting(a) => Some(a),
    }
}

/// `s` occurs inside `t` with its relative order kept.
pub open spec fn is_subsequence(s: Seq<AttestationView>, t: Seq<AttestationView>) -> bool
    decreases s.len() + t.len(),
{
    if s.len() == 0 {
        true
    } else if t.len() == 0 {
        false
    } else {
        (s.last() == t.last() && is_subsequence(s.drop_last(), t.drop_last()))
            || is_subsequence(s, t.drop_last())
    }
}

pub proof fn lemma_subseq_extend(s: Seq<AttestationView>, t: Seq<AttestationView>,
    x: AttestationView)
    requires
        is_subsequence(s, t),
    ensures
        is_subsequence(s, t.push(x)),
{
    if s.len() > 0 {
        assert(t.push(x).drop_last() =~= t);
    }
}

pub proof fn lemma_subseq_push_both(s: Seq<AttestationView>, t: Seq<AttestationView>,
    x: AttestationView)
    requires
        is_subsequence(s, t),
    ensures
        is_subsequence(s.push(x), t.push(x)),
{
    assert(s.push(x).last() == x);
    assert(t.push(x).last() == x);
    assert(s.push(x).drop_last() =~= s);
    assert(t.push(x).drop_last() =~= t);
}

/// The facts that hold of every reachable session state: decisions taken
/// under `only_new` are never older than the start point, the decision log is
/// an order-preserving selection of the delivered attestations, and the
/// in-flight attestation is always the most recently delivered one.
pub open spec fn session_inv(m: SessionModel) -> bool {
    &&& (m.only_new ==> forall|i: int|
        0 <= i < m.decisions.len() ==> (#[trigger] m.decisions[i]).attestation.time
            >= m.start_time)
    &&& (m.only_new ==> match phase_att(m.phase) {
        Some(a) => a.time >= m.start_time,
        None => true,
    })
    &&& is_subsequence(dec_atts(m.decisions), m.offered)
    &&& (match phase_att(m.phase) {
        Some(a) => m.offered.len() > 0 && a == m.offered.last()
            && is_subsequence(dec_atts(m.decisions), m.offered.drop_last()),
        None => true,
    })
}

pub proof fn lemma_init_inv(skip_arbitrated: bool, only_new: bool, start_time: u64,
    subscription_id: Seq<char>)
    ensures
        session_inv(init_model(skip_arbitrated, only_new, start_time, subscription_id)),
{
    let m = init_model(skip_arbitrated, only_new, start_time, subscription_id);
    assert(dec_atts(m.decisions) =~= Seq::<AttestationView>::empty());
}

pub proof fn lemma_step_preserves_inv(m: SessionModel, ev: SessionEvent)
    requires
        session_inv(m),
    ensures
        session_inv(step(m, ev)),
{
    let m2 = step(m, ev);
    match ev {
        SessionEvent::Deliver { att, already_arbitrated } => {
            if m.status == SessionStatus::Listening && m.phase is Ready {
                lemma_subseq_extend(dec_atts(m.decisions), m.offered, att);
                assert(m2.offered.last() == att);
                assert(m2.offered.drop_last() =~= m.offered);
            }
        },
        SessionEvent::Verdict { verdict } => {
            if m.status == SessionStatus::Listening {
                match m.phase {
                    PhaseView::Evaluating(a) => {
                        if verdict == Some(false) {
                            let d = DecisionView {
                                attestation: a,
                                decision: false,
                                transaction_hash: Seq::empty(),
                            };
                            lemma_log_append(m, d);
                        }
                    },
                    _ => {},
                }
            }
        },
        SessionEvent::Submitted { transaction_hash } => {
            if m.status == SessionStatus::Listening {
                match m.phase {
                    PhaseView::Submitting(a) => {
                        let d = DecisionView {
                            attestation: a,
                            decision: true,
                            transaction_hash,
                        };
                        lemma_log_append(m, d);
                    },
                    _ => {},
                }
            }
        },
        _ => {},
    }
}

/// Appending a decision for the in-flight attestation keeps the log an
/// ordered selection of the delivered attestations.
proof fn lemma_log_append(m: SessionModel, d: DecisionView)
    requires
        session_inv(m),
        phase_att(m.phase) == Some(d.attestation),
    ensures
        is_subsequence(dec_atts(m.decisions.push(d)), m.offered),
        m.only_new ==> forall|i: int|
            0 <= i < m.decisions.push(d).len() ==> (#[trigger] m.decisions.push(d)[i])
                .attestation.time >= m.start_time,
{
    let a = d.attestation;
    assert(dec_atts(m.decisions.push(d)) =~= dec_atts(m.decisions).push(a));
    lemma_subseq_push_both(dec_atts(m.decisions), m.offered.drop_last(), a);
    assert(m.offered.drop_last().push(m.offered.last()) =~= m.offered);
    if m.only_new {
        assert forall|i: int| 0 <= i < m.decisions.push(d).len()
            implies (#[trigger] m.decisions.push(d)[i]).attestation.time >= m.start_time by {
            if i < m.decisions.len() {
                assert(m.decisions.push(d)[i] == m.decisions[i]);
            }
        }
    }
}

pub proof fn lemma_replay_preserves_inv(m: SessionModel, evs: Seq<SessionEvent>)
    requires
        session_inv(m),
    ensures
        session_inv(replay(m, evs)),
    decreases evs.len(),
{
    if evs.len() > 0 {
        lemma_replay_preserves_inv(m, evs.drop_last());
        lemma_step_preserves_inv(replay(m, evs.drop_last()), evs.last());
    }
}

/// A run's options, start point and identifier never change while it runs.
pub proof fn lemma_replay_constants(m: SessionModel, evs: Seq<SessionEvent>)
    ensures
        replay(m, evs).skip_arbitrated == m.skip_arbitrated,
        replay(m, evs).only_new == m.only_new,
        replay(m, evs).start_time == m.start_time,
        replay(m, evs).subscription_id == m.subscription_id,
    decreases evs.len(),
{
    if evs.len() > 0 {
        lemma_replay_constants(m, evs.drop_last());
    }
}

/// With `skip_arbitrated` set, an attestation that already carries an
/// arbitration outcome is excluded from evaluation: delivering it invokes no
/// decision function and records no decision.
pub proof fn lemma_skip_arbitrated_excludes(m: SessionModel, att: AttestationView)
    requires
        m.skip_arbitrated,
    ensures
        step(m, SessionEvent::Deliver { att, already_arbitrated: true }).calls == m.calls,
        step(m, SessionEvent::Deliver { att, already_arbitrated: true }).decisions
            == m.decisions,
        step(m, SessionEvent::Deliver { att, already_arbitrated: true }).phase == m.phase,
{
}

/// While one attestation is in flight, delivering another changes nothing:
/// no two decision-function invocations of one run are ever pending at once.
pub proof fn lemma_at_most_one_in_flight(m: SessionModel, att: AttestationView,
    already_arbitrated: bool)
    requires
        !(m.phase is Ready),
    ensures
        step(m, SessionEvent::Deliver { att, already_arbitrated }) == m,
{
}

/// In a run with `only_new`, no attestation created strictly before the
/// run's start point appears in the decision log.
pub proof fn lemma_only_new_excludes_backlog(skip_arbitrated: bool, start_time: u64,
    subscription_id: Seq<char>, evs: Seq<SessionEvent>)
    ensures
        ({
            let r = replay(init_model(skip_arbitrated, true, start_time, subscription_id), evs);
            forall|i: int|
                0 <= i < r.decisions.len() ==> (#[trigger] r.decisions[i]).attestation.time
                    >= start_time
        }),
{
    lemma_init_inv(skip_arbitrated, true, start_time, subscription_id);
    lemma_replay_preserves_inv(init_model(skip_arbitrated, true, start_time, subscription_id),
        evs);
    lemma_replay_constants(init_model(skip_arbitrated, true, start_time, subscription_id), evs);
}

/// Order invariant: however a run is driven, its decision log lists a
/// selection of the delivered attestations in delivery order — a decision
/// for an earlier attestation never appears after one for a later one.
pub proof fn lemma_decisions_keep_delivery_order(skip_arbitrated: bool, only_new: bool,
    start_time: u64, subscription_id: Seq<char>, evs: Seq<SessionEvent>)
    ensures
        ({
            let r = replay(init_model(skip_arbitrated, only_new, start_time, subscription_id),
                evs);
            is_subsequence(dec_atts(r.decisions), r.offered)
        }),
{
    lemma_init_inv(skip_arbitrated, only_new, start_time, subscription_id);
    lemma_replay_preserves_inv(
        init_model(skip_arbitrated, only_new, start_time, subscription_id), evs);
}

/// Cancelling twice is the same as cancelling once.
pub proof fn lemma_unsubscribe_idempotent(m: SessionModel)
    ensures
        step(step(m, SessionEvent::Cancel), SessionEvent::Cancel)
            == step(m, SessionEvent::Cancel),
{
}

/// A session state no delivery has reached the decision function in.
pub open spec fn untouched(m: SessionModel) -> bool {
    m.calls == Seq::<AttestationView>::empty()
        && m.decisions == Seq::<DecisionView>::empty()
        && m.phase is Ready
}

/// A `skip_arbitrated` run over a stream whose attestations all carry
/// recorded outcomes invokes the decision function zero times and returns an
/// empty decision log.
pub proof fn lemma_skip_arbitrated_run_is_empty(only_new: bool, start_time: u64,
    subscription_id: Seq<char>, evs: Seq<SessionEvent>)
    requires
        forall|i: int|
            0 <= i < evs.len() ==> !(#[trigger] evs[i] matches SessionEvent::Deliver {
                already_arbitrated: false,
                ..
            }),
    ensures
        replay(init_model(true, only_new, start_time, subscription_id), evs).calls
            == Seq::<AttestationView>::empty(),
        replay(init_model(true, only_new, start_time, subscription_id), evs).decisions
            == Seq::<DecisionView>::empty(),
        replay(init_model(true, only_new, start_time, subscription_id), evs).phase
            is Ready,
    decreases evs.len(),
{
    let m0 = init_model(true, only_new, start_time, subscription_id);
    if evs.len() > 0 {
        assert forall|i: int| 0 <= i < evs.drop_last().len()
            implies !(#[trigger] evs.drop_last()[i] matches SessionEvent::Deliver {
                already_arbitrated: false,
                ..
            }) by {
            assert(evs.drop_last()[i] == evs[i]);
        }
        lemma_skip_arbitrated_run_is_empty(only_new, start_time, subscription_id,
            evs.drop_last());
        lemma_replay_constants(m0, evs.drop_last());
        lemma_untouched_step(replay(m0, evs.drop_last()), evs.last());
        assert(evs[evs.len() - 1] == evs.last());
    }
}

/// On a `skip_arbitrated` session, an event other than the delivery of a
/// not-yet-arbitrated attestation keeps the session untouched.
proof fn lemma_untouched_step(m: SessionModel, ev: SessionEvent)
    requires
        m.skip_arbitrated,
        untouched(m),
        !(ev matches SessionEvent::Deliver { already_arbitrated: false, .. }),
    ensures
        untouched(step(m, ev)),
        step(m, ev).calls == m.calls,
        step(m, ev).decisions == m.decisions,
{
}

/// Checks an arbitration request before any ledger interaction: the
/// obligation uid must be 32 bytes of hex and the oracle address 20 bytes of
/// hex, with an optional `0x` prefix. Returns the parsed bytes for the
/// submitter; a malformed identifier fails fast.
pub fn validate_arbitration_request(obligation_uid: &str, oracle: &str) -> (r: Result<
    (Vec<u8>, Vec<u8>), crate::CodecError>)
    ensures
        r is Ok <==> crate::hexstr::is_fixed_hex(obligation_uid@, 32)
            && crate::hexstr::is_fixed_hex(oracle@, 20),
        r matches Ok(p) ==> p.0@ == crate::hexstr::bytes_of_hex(crate::hexstr::hex_body(
            obligation_uid@)) && p.1@ == crate::hexstr::bytes_of_hex(crate::hexstr::hex_body(
            oracle@)),
        r matches Err(e) ==> e == crate::CodecError::MalformedInput,
{
    let uid = match crate::hexstr::parse_fixed_hex(obligation_uid, 32) {
        Some(u) => u,
        None => {
            return Err(crate::CodecError::MalformedInput);
        },
    };
    let addr = match crate::hexstr::parse_fixed_hex(oracle, 20) {
        Some(a) => a,
        None => {
            return Err(crate::CodecError::MalformedInput);
        },
    };
    Ok((uid, addr))
}

/// Whether a run's filters let an attestation through, as executable code;
/// the historical path applies this to each fetched attestation.
pub fn should_consider(
    att: &PyOracleAttestation,
    options: &PyArbitrateOptions,
    start_time: u64,
    already_arbitrated: bool,
) -> (r: bool)
    ensures
        r == considered(att@, options.skip_arbitrated, options.only_new, start_time,
            already_arbitrated),
{
    !(options.skip_arbitrated && already_arbitrated)
        && !(options.only_new && att.time < start_time)
}

} // verus!

