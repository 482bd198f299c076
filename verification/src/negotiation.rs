//! Peer-session negotiation state machine.
//!
//! The session drives the signaling handshake
//! `Connecting -> (send Offer) -> OfferSent -> (Answer received, applied as
//! remote description) -> AnswerApplied -> Ready`, buffers remote ICE
//! candidates that arrive before the remote description is applied, and
//! reports every peer-connection operation as an explicit action for the
//! caller to perform. Once `Ready`, the attached media track serves as the
//! pipeline's sink.

use vstd::prelude::*;

use crate::signal::{ResponseModel, SignalResponse};

verus! {

use vstd::string::StringSliceAdditionalSpecFns;

/// Lifecycle states of one negotiation session.
#[derive(Clone, Copy, PartialEq, Eq, Structural, Debug)]
pub enum NegotiationState {
    Connecting,
    OfferSent,
    AnswerApplied,
    Ready,
    Failed,
}

/// An operation on the peer connection or the outbound signaling channel
/// that the caller must perform on the session's behalf. Each action holds
/// the shared peer-connection object only for that single operation.
pub enum NegotiationAction {
    /// Send `Offer { sdp }` on the signaling channel.
    SendOffer { sdp: String },
    /// Send `CallerIceCandidate { id, ice_candidate }` on the signaling channel.
    SendCandidate { id: String, ice_candidate: String },
    /// Apply the received answer as the remote session description.
    ApplyRemoteDescription { sdp: String },
    /// Add a remote ICE candidate to the peer connection.
    ApplyCandidate { ice_candidate: String },
}

/// Mathematical model of one action.
pub enum ActionModel {
    SendOffer { sdp: Seq<char> },
    SendCandidate { id: Seq<char>, ice_candidate: Seq<char> },
    ApplyRemoteDescription { sdp: Seq<char> },
    ApplyCandidate { ice_candidate: Seq<char> },
}

impl View for NegotiationAction {
    type V = ActionModel;

    open spec fn view(&self) -> ActionModel {
        match self {
            NegotiationAction::SendOffer { sdp } => (ActionModel::SendOffer { sdp: sdp@ }),
            NegotiationAction::SendCandidate { id, ice_candidate } => (
                ActionModel::SendCandidate { id: id@, ice_candidate: ice_candidate@ }
            ),
            NegotiationAction::ApplyRemoteDescription { sdp } => (
                ActionModel::ApplyRemoteDescription { sdp: sdp@ }
            ),
            NegotiationAction::ApplyCandidate { ice_candidate } => (
                ActionModel::ApplyCandidate { ice_candidate: ice_candidate@ }
            ),
        }
    }
}

impl DeepView for NegotiationAction {
    type V = ActionModel;

    open spec fn deep_view(&self) -> ActionModel {
        self.view()
    }
}

/// Mathematical model of a session.
#[verifier::ext_equal]
pub struct SessionModel {
    pub state: NegotiationState,
    /// Session identifier used on outbound candidate messages.
    pub id: Seq<char>,
    /// The answer SDP applied as remote description, if any.
    pub remote_sdp: Option<Seq<char>>,
    /// Remote candidates received before the remote description was applied,
    /// in arrival order, still waiting to be added to the connection.
    pub pending: Seq<Seq<char>>,
    /// Remote candidates already handed to the connection, in order.
    pub applied: Seq<Seq<char>>,
}

impl SessionModel {
    /// Every remote candidate the session has accepted, in arrival order.
    pub open spec fn received(self) -> Seq<Seq<char>> {
        self.applied + self.pending
    }

    /// Internal consistency: candidates are only buffered before the remote
    /// description is applied, and only applied after it.
    pub open spec fn wf(self) -> bool {
        &&& (self.state == NegotiationState::Connecting || self.state
            == NegotiationState::OfferSent) ==> self.applied =~= Seq::<Seq<char>>::empty()
        &&& (self.state == NegotiationState::AnswerApplied || self.state
            == NegotiationState::Ready) ==> self.pending =~= Seq::<Seq<char>>::empty()
        &&& (self.state == NegotiationState::Connecting || self.state
            == NegotiationState::OfferSent) ==> self.remote_sdp is None
        &&& (self.state == NegotiationState::AnswerApplied || self.state
            == NegotiationState::Ready) ==> self.remote_sdp is Some
    }
}

/// The state a session moves to on one inbound message.
pub open spec fn step(s: SessionModel, m: ResponseModel) -> SessionModel {
    match m {
        ResponseModel::Session { id } => (SessionModel { id, ..s }),
        ResponseModel::Offer { sdp } => (SessionModel { state: NegotiationState::Failed, ..s }),
        ResponseModel::Answer { sdp } => {
            if s.state == NegotiationState::OfferSent {
                SessionModel {
                    state: NegotiationState::AnswerApplied,
                    remote_sdp: Some(sdp),
                    pending: Seq::empty(),
                    applied: s.applied + s.pending,
                    ..s
                }
            } else if s.state == NegotiationState::AnswerApplied || s.state
                == NegotiationState::Ready {
                s
            } else {
                SessionModel { state: NegotiationState::Failed, ..s }
            }
        },
        ResponseModel::IceCandidate { ice_candidate } => {
            if s.state == NegotiationState::Connecting || s.state == NegotiationState::OfferSent {
                SessionModel { pending: s.pending.push(ice_candidate), ..s }
            } else if s.state == NegotiationState::AnswerApplied || s.state
                == NegotiationState::Ready {
                SessionModel { applied: s.applied.push(ice_candidate), ..s }
            } else {
                s
            }
        },
    }
}

/// The peer-connection operations one inbound message demands.
pub open spec fn step_actions(s: SessionModel, m: ResponseModel) -> Seq<ActionModel> {
    match m {
        ResponseModel::Session { id } => Seq::empty(),
        ResponseModel::Offer { sdp } => Seq::empty(),
        ResponseModel::Answer { sdp } => {
            if s.state == NegotiationState::OfferSent {
                seq![ActionModel::ApplyRemoteDescription { sdp }] + s.pending.map_values(
                    |c: Seq<char>| ActionModel::ApplyCandidate { ice_candidate: c },
                )
            } else {
                Seq::empty()
            }
        },
        ResponseModel::IceCandidate { ice_candidate } => {
            if s.state == NegotiationState::AnswerApplied || s.state == NegotiationState::Ready {
                seq![ActionModel::ApplyCandidate { ice_candidate }]
            } else {
                Seq::empty()
            }
        },
    }
}

/// One peer-negotiation session.
pub struct NegotiationSession {
    state: NegotiationState,
    id: String,
    remote_sdp: Option<String>,
    pending: Vec<String>,
    applied: Vec<String>,
}

impl View for NegotiationSession {
    type V = SessionModel;

    closed spec fn view(&self) -> SessionModel {
        SessionModel {
            state: self.state,
            id: self.id@,
            remote_sdp: match self.remote_sdp {
                Some(s) => Some(s@),
                None => None,
            },
            pending: self.pending.deep_view(),
            applied: self.applied.deep_view(),
        }
    }
}

impl NegotiationSession {
    /// State of the session.
    pub fn state(&self) -> (r: NegotiationState)
        ensures
            r == self@.state,
    {
        self.state
    }

    /// Whether negotiation has completed and the attached track is usable as
    /// the pipeline's sink.
    pub fn sink_ready(&self) -> (r: bool)
        ensures
            r == (self@.state == NegotiationState::Ready),
    {
        self.state == NegotiationState::Ready
    }

    /// A fresh session, before the offer is sent.
    pub fn new(id: String) -> (r: Self)
        ensures
            r@.state == NegotiationState::Connecting,
            r@.id == id@,
            r@.remote_sdp is None,
            r@.received() =~= Seq::<Seq<char>>::empty(),
            r@.wf(),
    {
        NegotiationSession {
            state: NegotiationState::Connecting,
            id,
            remote_sdp: None,
            pending: Vec::new(),
            applied: Vec::new(),
        }
    }

    /// Send the local offer: the one transition out of `Connecting`. The SDP
    /// is the one the peer connection produced for this session.
    pub fn send_offer(&mut self, sdp: String) -> (actions: Vec<NegotiationAction>)
        requires
            old(self)@.state == NegotiationState::Connecting,
        ensures
            final(self)@ == (SessionModel { state: NegotiationState::OfferSent, ..old(self)@ }),
            actions.deep_view() =~= seq![ActionModel::SendOffer { sdp: sdp@ }],
            old(self)@.wf() ==> final(self)@.wf(),
    {
        self.state = NegotiationState::OfferSent;
        let mut actions: Vec<NegotiationAction> = Vec::new();
        actions.push(NegotiationAction::SendOffer { sdp });
        actions
    }

    /// A locally discovered ICE candidate: forwarded to the signaling channel
    /// in every state, independent of the offer/answer exchange.
    pub fn local_candidate(&self, ice_candidate: String) -> (action: NegotiationAction)
        ensures
            action@ == (ActionModel::SendCandidate {
                id: self@.id,
                ice_candidate: ice_candidate@,
            }),
    {
        NegotiationAction::SendCandidate { id: self.id.clone(), ice_candidate }
    }

    /// Handle one inbound signaling message: the session moves as `step`
    /// says and demands the operations `step_actions` says.
    pub fn handle_response(&mut self, msg: SignalResponse) -> (actions: Vec<NegotiationAction>)
        ensures
            final(self)@ == step(old(self)@, msg@),
            actions.deep_view() =~= step_actions(old(self)@, msg@),
            old(self)@.wf() ==> final(self)@.wf(),
    {
        let mut actions: Vec<NegotiationAction> = Vec::new();
        match msg {
            SignalResponse::Session { id } => {
                self.id = id;
            },
            SignalResponse::Offer { sdp: _ } => {
                self.state = NegotiationState::Failed;
            },
            SignalResponse::Answer { sdp } => {
                match self.state {
                    NegotiationState::OfferSent => {
                        let ghost sdp_m = sdp@;
                        actions.push(NegotiationAction::ApplyRemoteDescription {
                            sdp: sdp.clone(),
                        });
                        self.remote_sdp = Some(sdp);
                        self.state = NegotiationState::AnswerApplied;
                        let n: usize = self.pending.len();
                        let mut i: usize = 0;
                        while i < n
                            invariant
                                i <= n,
                                n == old(self)@.pending.len(),
                                self@.pending =~= old(self)@.pending,
                                self@.applied =~= old(self)@.applied + old(
                                    self,
                                )@.pending.take(i as int),
                                self@.state == NegotiationState::AnswerApplied,
                                self@.id == old(self)@.id,
                                self@.remote_sdp == Some(sdp_m),
                                actions.deep_view() =~= seq![
                                    ActionModel::ApplyRemoteDescription { sdp: self@.remote_sdp->0 },
                                ] + old(self)@.pending.take(i as int).map_values(
                                    |c: Seq<char>| ActionModel::ApplyCandidate { ice_candidate: c },
                                ),
                            decreases n - i,
                        {
                            let ghost prev = self@;
                            let ghost prev_actions = actions.deep_view();
                            let c = self.pending[i].clone();
                            actions.push(NegotiationAction::ApplyCandidate { ice_candidate: c.clone() });
                            self.applied.push(c);
                            proof {
                                let ghost cm = old(self)@.pending[i as int];
                                assert(actions.deep_view() =~= prev_actions.push(
                                    ActionModel::ApplyCandidate { ice_candidate: cm },
                                ));
                                assert(self@.applied =~= prev.applied.push(cm));
                                assert(old(self)@.pending.take(i + 1) =~= old(
                                    self,
                                )@.pending.take(i as int).push(cm));
                                assert(old(self)@.pending.take(i + 1).map_values(
                                    |cc: Seq<char>| ActionModel::ApplyCandidate { ice_candidate: cc },
                                ) =~= old(self)@.pending.take(i as int).map_values(
                                    |cc: Seq<char>| ActionModel::ApplyCandidate { ice_candidate: cc },
                                ).push(ActionModel::ApplyCandidate { ice_candidate: cm }));
                            }
                            i = i + 1;
                        }
                        self.pending = Vec::new();
                        proof {
                            assert(old(self)@.pending.take(n as int) =~= old(self)@.pending);
                            assert(self@.applied =~= old(self)@.applied + old(self)@.pending);
                            assert(self@.pending =~= Seq::<Seq<char>>::empty());
                            assert(self@ =~~= step(old(self)@, msg@));
                            assert(actions.deep_view() =~~= step_actions(old(self)@, msg@));
                        }
                    },
                    NegotiationState::AnswerApplied | NegotiationState::Ready => {},
                    _ => {
                        self.state = NegotiationState::Failed;
                    },
                }
            },
            SignalResponse::IceCandidate { ice_candidate } => {
                match self.state {
                    NegotiationState::Connecting | NegotiationState::OfferSent => {
                        self.pending.push(ice_candidate);
                    },
                    NegotiationState::AnswerApplied | NegotiationState::Ready => {
                        actions.push(NegotiationAction::ApplyCandidate {
                            ice_candidate: ice_candidate.clone(),
                        });
                        self.applied.push(ice_candidate);
                    },
                    NegotiationState::Failed => {},
                }
            },
        }
        actions
    }

    /// Handles one inbound wire message as the signaling reader receives
    /// it: a parse failure fails the session, anything else drives `step`.
    pub fn handle_incoming(&mut self, text: &str) -> (actions: Vec<NegotiationAction>)
        ensures
            match crate::wire::parse_response(text.spec_bytes()) {
                Some(mm) => final(self)@ == step(old(self)@, mm) && actions.deep_view()
                    =~= step_actions(old(self)@, mm),
                None => final(self)@ == (SessionModel {
                    state: NegotiationState::Failed,
                    ..old(self)@
                }) && actions.deep_view() =~= Seq::<ActionModel>::empty(),
            },
            old(self)@.wf() ==> final(self)@.wf(),
    {
        match crate::wire::parse_signal_response(text.as_bytes()) {
            Some(m) => self.handle_response(m),
            None => {
                self.on_parse_failure();
                Vec::new()
            },
        }
    }

    /// Outcome of applying the remote description: success completes the
    /// handshake and attaches the track; rejection fails the session.
    pub fn on_remote_description_result(&mut self, ok: bool)
        requires
            old(self)@.state == NegotiationState::AnswerApplied,
        ensures
            ok ==> final(self)@ == (SessionModel { state: NegotiationState::Ready, ..old(self)@ }),
            !ok ==> final(self)@ == (SessionModel {
                state: NegotiationState::Failed,
                ..old(self)@
            }),
            old(self)@.wf() ==> final(self)@.wf(),
    {
        if ok {
            self.state = NegotiationState::Ready;
        } else {
            self.state = NegotiationState::Failed;
        }
    }

    /// A malformed inbound message: the session fails and is not resumed.
    pub fn on_parse_failure(&mut self)
        ensures
            final(self)@ == (SessionModel { state: NegotiationState::Failed, ..old(self)@ }),
            old(self)@.wf() ==> final(self)@.wf(),
    {
        self.state = NegotiationState::Failed;
    }
}

/// The remote description is applied exactly once: an answer in `OfferSent`
/// demands one `ApplyRemoteDescription`; in `AnswerApplied` or `Ready` a
/// further answer leaves the session unchanged and demands nothing.
pub proof fn lemma_answer_applied_once(s: SessionModel, sdp: Seq<char>)
    ensures
        s.state == NegotiationState::OfferSent ==> {
            &&& step(s, ResponseModel::Answer { sdp }).state == NegotiationState::AnswerApplied
            &&& step_actions(s, ResponseModel::Answer { sdp })[0] == (
            ActionModel::ApplyRemoteDescription { sdp })
        },
        s.state == NegotiationState::AnswerApplied || s.state == NegotiationState::Ready ==> {
            &&& step(s, ResponseModel::Answer { sdp }) == s
            &&& step_actions(s, ResponseModel::Answer { sdp }) =~= Seq::<ActionModel>::empty()
        },
{
}

/// No state reached by `step` ever returns to `OfferSent`, so across any run
/// the transition of `lemma_answer_applied_once` fires at most once.
pub proof fn lemma_offer_sent_never_reentered(s: SessionModel, m: ResponseModel)
    requires
        s.state != NegotiationState::OfferSent,
    ensures
        step(s, m).state != NegotiationState::OfferSent,
{
}

/// The session a whole sequence of inbound messages leads to.
pub open spec fn run(s: SessionModel, msgs: Seq<ResponseModel>) -> SessionModel
    decreases msgs.len(),
{
    if msgs.len() == 0 {
        s
    } else {
        run(step(s, msgs[0]), msgs.skip(1))
    }
}

/// Every action a whole sequence of inbound messages demands, in order.
pub open spec fn run_actions(s: SessionModel, msgs: Seq<ResponseModel>) -> Seq<ActionModel>
    decreases msgs.len(),
{
    if msgs.len() == 0 {
        Seq::empty()
    } else {
        step_actions(s, msgs[0]) + run_actions(step(s, msgs[0]), msgs.skip(1))
    }
}

/// How many of the actions apply a remote description.
pub open spec fn remote_applies(actions: Seq<ActionModel>) -> nat
    decreases actions.len(),
{
    if actions.len() == 0 {
        0
    } else {
        (if actions[0] is ApplyRemoteDescription {
            1nat
        } else {
            0nat
        }) + remote_applies(actions.skip(1))
    }
}

proof fn lemma_remote_applies_concat(a: Seq<ActionModel>, b: Seq<ActionModel>)
    ensures
        remote_applies(a + b) == remote_applies(a) + remote_applies(b),
    decreases a.len(),
{
    if a.len() == 0 {
        assert(a + b =~= b);
    } else {
        assert((a + b)[0] == a[0]);
        assert((a + b).skip(1) =~= a.skip(1) + b);
        lemma_remote_applies_concat(a.skip(1), b);
    }
}

proof fn lemma_remote_applies_candidates(cands: Seq<Seq<char>>)
    ensures
        remote_applies(
            cands.map_values(|c: Seq<char>| ActionModel::ApplyCandidate { ice_candidate: c }),
        ) == 0,
    decreases cands.len(),
{
    let mapped = cands.map_values(
        |c: Seq<char>| ActionModel::ApplyCandidate { ice_candidate: c },
    );
    if cands.len() == 0 {
    } else {
        assert(mapped.skip(1) =~= cands.skip(1).map_values(
            |c: Seq<char>| ActionModel::ApplyCandidate { ice_candidate: c },
        ));
        lemma_remote_applies_candidates(cands.skip(1));
    }
}

/// One message demands one remote-description application exactly on the
/// answer received in `OfferSent`.
proof fn lemma_step_remote_applies(s: SessionModel, m: ResponseModel)
    ensures
        remote_applies(step_actions(s, m)) == (if s.state == NegotiationState::OfferSent && m
            is Answer {
            1nat
        } else {
            0nat
        }),
{
    match m {
        ResponseModel::Answer { sdp } => {
            if s.state == NegotiationState::OfferSent {
                let mapped = s.pending.map_values(
                    |c: Seq<char>| ActionModel::ApplyCandidate { ice_candidate: c },
                );
                lemma_remote_applies_candidates(s.pending);
                lemma_remote_applies_concat(
                    seq![ActionModel::ApplyRemoteDescription { sdp }],
                    mapped,
                );
                assert(seq![ActionModel::ApplyRemoteDescription { sdp }].skip(1)
                    =~= Seq::<ActionModel>::empty());
                assert(remote_applies(Seq::<ActionModel>::empty()) == 0);
                assert(remote_applies(seq![ActionModel::ApplyRemoteDescription { sdp }]) == 1);
            }
        },
        ResponseModel::IceCandidate { ice_candidate } => {
            if s.state == NegotiationState::AnswerApplied || s.state == NegotiationState::Ready {
                assert(seq![ActionModel::ApplyCandidate { ice_candidate }].skip(1)
                    =~= Seq::<ActionModel>::empty());
                assert(remote_applies(Seq::<ActionModel>::empty()) == 0);
            }
        },
        _ => {},
    }
}

/// Out of `OfferSent`, no run of inbound messages ever applies a remote
/// description again.
proof fn lemma_run_no_reapply(s: SessionModel, msgs: Seq<ResponseModel>)
    requires
        s.state != NegotiationState::OfferSent,
    ensures
        remote_applies(run_actions(s, msgs)) == 0,
        run(s, msgs).state != NegotiationState::OfferSent,
    decreases msgs.len(),
{
    if msgs.len() == 0 {
    } else {
        lemma_offer_sent_never_reentered(s, msgs[0]);
        lemma_step_remote_applies(s, msgs[0]);
        lemma_remote_applies_concat(
            step_actions(s, msgs[0]),
            run_actions(step(s, msgs[0]), msgs.skip(1)),
        );
        lemma_run_no_reapply(step(s, msgs[0]), msgs.skip(1));
    }
}

/// The remote description is applied exactly once across the lifetime of a
/// session: over any run of inbound messages from `OfferSent`, at most one
/// action applies a remote description, and exactly one if the run reaches
/// `AnswerApplied` or `Ready`.
pub proof fn lemma_remote_description_applied_once(s: SessionModel, msgs: Seq<ResponseModel>)
    requires
        s.state == NegotiationState::OfferSent,
    ensures
        remote_applies(run_actions(s, msgs)) <= 1,
        run(s, msgs).state == NegotiationState::AnswerApplied || run(s, msgs).state
            == NegotiationState::Ready ==> remote_applies(run_actions(s, msgs)) == 1,
    decreases msgs.len(),
{
    if msgs.len() == 0 {
    } else {
        let m = msgs[0];
        let s1 = step(s, m);
        lemma_step_remote_applies(s, m);
        lemma_remote_applies_concat(step_actions(s, m), run_actions(s1, msgs.skip(1)));
        if s1.state == NegotiationState::OfferSent {
            lemma_remote_description_applied_once(s1, msgs.skip(1));
        } else {
            lemma_run_no_reapply(s1, msgs.skip(1));
            if !(m is Answer) {
                // Leaving `OfferSent` without an answer means failure: the
                // run never reaches `AnswerApplied` or `Ready`.
                assert(s1.state == NegotiationState::Failed);
                lemma_failed_is_terminal(s1, msgs.skip(1));
            }
        }
    }
}

/// A failed session stays failed: no inbound message resumes it.
pub proof fn lemma_failed_is_terminal(s: SessionModel, msgs: Seq<ResponseModel>)
    requires
        s.state == NegotiationState::Failed,
    ensures
        run(s, msgs).state == NegotiationState::Failed,
    decreases msgs.len(),
{
    if msgs.len() == 0 {
    } else {
        lemma_failed_is_terminal(step(s, msgs[0]), msgs.skip(1));
    }
}

/// Candidates received while in `OfferSent` (before the answer) are kept, and
/// the answer's actions apply every one of them, in arrival order, right
/// after the remote description.
pub proof fn lemma_early_candidates_not_dropped(s: SessionModel, c: Seq<char>, sdp: Seq<char>)
    requires
        s.wf(),
        s.state == NegotiationState::OfferSent,
    ensures
        step(s, ResponseModel::IceCandidate { ice_candidate: c }).received() =~= s.received().push(
            c,
        ),
        step_actions(
            step(s, ResponseModel::IceCandidate { ice_candidate: c }),
            ResponseModel::Answer { sdp },
        ) =~= seq![ActionModel::ApplyRemoteDescription { sdp }] + s.pending.push(c).map_values(
            |cc: Seq<char>| ActionModel::ApplyCandidate { ice_candidate: cc },
        ),
        step(
            step(s, ResponseModel::IceCandidate { ice_candidate: c }),
            ResponseModel::Answer { sdp },
        ).applied =~= s.received().push(c),
{
    assert(s.applied =~= Seq::<Seq<char>>::empty());
    assert(s.received() =~= s.pending);
}

/// Every inbound message in a live state keeps the set of received
/// candidates: a candidate adds itself, everything else leaves them as they
/// were. Only a `Failed` session drops candidates.
pub proof fn lemma_received_candidates_preserved(s: SessionModel, m: ResponseModel)
    requires
        s.wf(),
        s.state != NegotiationState::Failed,
        !(m is Offer),
        m is Answer ==> s.state != NegotiationState::Connecting,
    ensures
        m matches ResponseModel::IceCandidate { ice_candidate } ==> step(s, m).received()
            =~= s.received().push(ice_candidate),
        !(m is IceCandidate) ==> step(s, m).received() =~= s.received(),
{
}

} // verus!
