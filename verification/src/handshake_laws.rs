//! What the two agents make of each other.

use crate::endpoint::Endpoint;
use crate::host;
use crate::host::config::HostConfig;
use crate::packet;
use crate::packet::Status;
use crate::packet_laws;
use crate::vm;
use vstd::prelude::*;
use vstd::utf8::*;

verus! {

/// What the VM agent opens for a host of these settings.
pub open spec fn asked_for(id: u32, cfg: HostConfig, peer: Endpoint, label: Seq<char>) ->
    vm::session::PendingStartView {
    vm::session::PendingStartView {
        id,
        peer,
        label,
        mic: cfg.mic.spec_format(),
        speaker: cfg.speaker.spec_format(),
    }
}

/// The host reads an answer of at most 255 bytes as it was meant.
proof fn lemma_answer_is_read(
    m: host::session::HostModel,
    now: u64,
    status: Status,
    start: vm::session::PendingStartView,
    message: Seq<char>,
)
    requires
        start.id == m.id,
        encode_utf8(message).len() <= 255,
    ensures
        m.received(
            now,
            vm::session::reply_bytes(status, start.id, start.mic, start.speaker, message),
        ) == (host::session::HostModel { last_rx: now, ..m }).answered(
            status,
            start.mic,
            start.speaker,
            message,
        ),
{
    let p = packet::PacketView::HelloAck {
        status,
        session: start.id,
        mic: start.mic,
        speaker: start.speaker,
        message,
    };
    packet_laws::control_packets_round_trip(p, Seq::empty());
    assert(packet::packet_bytes(p) + Seq::<u8>::empty() =~= packet::packet_bytes(p));
}

/// With the same token and formats that can be had, an idle VM agent opens its devices
/// for the formats that the host asked for, and its answer brings the bridge up with
/// the agent's own summary.
pub proof fn a_handshake_brings_the_bridge_up(
    id: u32,
    cfg: HostConfig,
    agent: vm::session::VmModel,
    peer: Endpoint,
    label: Seq<char>,
    sent: u64,
    heard: u64,
    started: u64,
    answered: u64,
)
    requires
        cfg.valid(),
        encode_utf8(cfg.server.token@).len() <= 255,
        agent.token == cfg.server.token@,
        agent.host is None,
        encode_utf8(agent.summary).len() <= 255,
    ensures
        ({
            let knocking = host::session::HostModel::fresh(id, cfg, sent);
            let start = asked_for(id, cfg, peer, label);
            let reply = vm::session::reply_bytes(
                Status::Okay,
                id,
                start.mic,
                start.speaker,
                agent.summary,
            );
            &&& agent.received(heard, peer, label, knocking.hello) == (
                agent,
                vm::session::VmActionView::Start { start, replaced: None },
            )
            &&& agent.started(started, start).owned_by(peer, id)
            &&& knocking.received(answered, reply) == (
                host::session::HostModel {
                    established: true,
                    seq: 0,
                    last_rx: answered,
                    ..knocking
                },
                host::session::HostActionView::BridgeUp {
                    mic: start.mic,
                    speaker: start.speaker,
                    message: agent.summary,
                },
            )
        }),
{
    let knocking = host::session::HostModel::fresh(id, cfg, sent);
    let start = asked_for(id, cfg, peer, label);
    host::laws::the_hello_carries_the_settings(id, cfg, sent);
    lemma_answer_is_read(knocking, answered, Status::Okay, start, agent.summary);
}

/// With a wrong token the VM agent answers with a bare `AuthFailed`, does nothing
/// else, and the host learns no more than that it was refused.
pub proof fn a_wrong_token_is_refused(
    id: u32,
    cfg: HostConfig,
    agent: vm::session::VmModel,
    peer: Endpoint,
    label: Seq<char>,
    sent: u64,
    heard: u64,
    answered: u64,
)
    requires
        encode_utf8(cfg.server.token@).len() <= 255,
        agent.token != cfg.server.token@,
    ensures
        ({
            let knocking = host::session::HostModel::fresh(id, cfg, sent);
            let outcome = agent.received(heard, peer, label, knocking.hello);
            &&& outcome.0 == agent
            &&& outcome.1 matches vm::session::VmActionView::BadToken(reply) && knocking.received(
                answered,
                reply,
            ) == (
                host::session::HostModel { last_rx: answered, ..knocking },
                host::session::HostActionView::Rejected {
                    status: Status::AuthFailed,
                    message: Seq::empty(),
                },
            )
        }),
{
    let knocking = host::session::HostModel::fresh(id, cfg, sent);
    let start = asked_for(id, cfg, peer, label);
    host::laws::the_hello_carries_the_settings(id, cfg, sent);
    encode_utf8_decode_utf8(agent.token);
    encode_utf8_decode_utf8(cfg.server.token@);
    lemma_answer_is_read(knocking, answered, Status::AuthFailed, start, Seq::empty());
}

/// A device that does not open shows up in the host's log, in the VM agent's words,
/// as far as a packet carries them.
pub proof fn a_failed_start_is_reported(
    knocking: host::session::HostModel,
    now: u64,
    start: vm::session::PendingStartView,
    message: Seq<char>,
)
    requires
        start.id == knocking.id,
        encode_utf8(message).len() <= 255,
    ensures
        knocking.received(
            now,
            vm::session::reply_bytes(
                Status::ServerError,
                start.id,
                start.mic,
                start.speaker,
                message,
            ),
        ) == (
            host::session::HostModel { established: false, last_rx: now, ..knocking },
            host::session::HostActionView::Rejected { status: Status::ServerError, message },
        ),
{
    lemma_answer_is_read(knocking, now, Status::ServerError, start, message);
}

} // verus!
