//! Signaling message types exchanged with the signaling server.
//!
//! On the wire each message is a JSON object discriminated by a `type`
//! field; the codec lives in `wire`.

use vstd::prelude::*;

verus! {

/// A message sent by this peer to the signaling server.
pub enum SignalRequest {
    Offer { sdp: String },
    Answer { id: String, sdp: String },
    CallerIceCandidate { id: String, ice_candidate: String },
    GetOffer { id: String },
    PeerIceCandidate { id: String, ice_candidate: String },
}

/// A bare session description: an SDP body plus its kind tag, encoded with
/// the fields `sdp` and `type`. Used to re-frame a received answer SDP as a
/// full session-description object.
pub struct Test {
    pub sdp: String,
    pub kind: String,
}

/// A message received from the signaling server.
pub enum SignalResponse {
    Session { id: String },
    Offer { sdp: String },
    Answer { sdp: String },
    IceCandidate { ice_candidate: String },
}

/// Mathematical model of an outbound message.
pub enum RequestModel {
    Offer { sdp: Seq<char> },
    Answer { id: Seq<char>, sdp: Seq<char> },
    CallerIceCandidate { id: Seq<char>, ice_candidate: Seq<char> },
    GetOffer { id: Seq<char> },
    PeerIceCandidate { id: Seq<char>, ice_candidate: Seq<char> },
}

impl View for SignalRequest {
    type V = RequestModel;

    open spec fn view(&self) -> RequestModel {
        match self {
            SignalRequest::Offer { sdp } => (RequestModel::Offer { sdp: sdp@ }),
            SignalRequest::Answer { id, sdp } => (RequestModel::Answer { id: id@, sdp: sdp@ }),
            SignalRequest::CallerIceCandidate { id, ice_candidate } => (
                RequestModel::CallerIceCandidate { id: id@, ice_candidate: ice_candidate@ }
            ),
            SignalRequest::GetOffer { id } => (RequestModel::GetOffer { id: id@ }),
            SignalRequest::PeerIceCandidate { id, ice_candidate } => (
                RequestModel::PeerIceCandidate { id: id@, ice_candidate: ice_candidate@ }
            ),
        }
    }
}

/// Mathematical model of a bare session description.
pub struct TestModel {
    pub sdp: Seq<char>,
    pub kind: Seq<char>,
}

impl View for Test {
    type V = TestModel;

    open spec fn view(&self) -> TestModel {
        TestModel { sdp: self.sdp@, kind: self.kind@ }
    }
}

/// Mathematical model of an inbound message.
pub enum ResponseModel {
    Session { id: Seq<char> },
    Offer { sdp: Seq<char> },
    Answer { sdp: Seq<char> },
    IceCandidate { ice_candidate: Seq<char> },
}

impl View for SignalResponse {
    type V = ResponseModel;

    open spec fn view(&self) -> ResponseModel {
        match self {
            SignalResponse::Session { id } => (ResponseModel::Session { id: id@ }),
            SignalResponse::Offer { sdp } => (ResponseModel::Offer { sdp: sdp@ }),
            SignalResponse::Answer { sdp } => (ResponseModel::Answer { sdp: sdp@ }),
            SignalResponse::IceCandidate { ice_candidate } => (
                ResponseModel::IceCandidate { ice_candidate: ice_candidate@ }
            ),
        }
    }
}

impl DeepView for SignalResponse {
    type V = ResponseModel;

    open spec fn deep_view(&self) -> ResponseModel {
        self.view()
    }
}

} // verus!
