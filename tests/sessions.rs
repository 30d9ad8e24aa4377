use naia_socket::bridge::BridgeQueue;
use naia_socket::client::{ClientSession, SessionState};
use naia_socket::config::LinkConditionerConfig;
use naia_socket::error::SocketError;
use naia_socket::packet::Packet;
use naia_socket::peers::PeerTable;

type Inbound = BridgeQueue<Result<Packet, SocketError>>;

#[test]
fn receive_on_empty_queue_is_ok_none() {
    let mut s = ClientSession::new();
    let mut inbound: Inbound = BridgeQueue::new();
    let mut dropped: BridgeQueue<Packet> = BridgeQueue::new();
    assert!(s.begin_receive(&mut dropped).unwrap().is_empty());
    assert_eq!(s.finish_receive(&mut inbound), Ok(None));
    assert_eq!(s.state, SessionState::Open);
}

#[test]
fn receive_returns_packets_in_arrival_order() {
    let mut s = ClientSession::new();
    let mut inbound: Inbound = BridgeQueue::new();
    inbound.push(Ok(Packet::new_raw(vec![1])));
    inbound.push(Ok(Packet::new_raw(vec![2])));
    assert_eq!(s.finish_receive(&mut inbound), Ok(Some(Packet::new_raw(vec![1]))));
    assert_eq!(s.finish_receive(&mut inbound), Ok(Some(Packet::new_raw(vec![2]))));
    assert_eq!(s.finish_receive(&mut inbound), Ok(None));
}

#[test]
fn session_failure_is_sticky() {
    let mut s = ClientSession::new();
    let mut inbound: Inbound = BridgeQueue::new();
    inbound.push(Err(SocketError::SessionFailed));
    inbound.push(Ok(Packet::new_raw(vec![5])));
    assert_eq!(s.finish_receive(&mut inbound), Err(SocketError::SessionFailed));
    assert_eq!(s.state, SessionState::Failed(SocketError::SessionFailed));
    for _ in 0..3 {
        assert_eq!(s.finish_receive(&mut inbound), Err(SocketError::SessionFailed));
    }
    assert_eq!(inbound.len(), 1);
    let mut dropped: BridgeQueue<Packet> = BridgeQueue::new();
    dropped.push(Packet::new_raw(vec![6]));
    assert_eq!(s.begin_receive(&mut dropped), Err(SocketError::SessionFailed));
    assert_eq!(dropped.len(), 1);
}

#[test]
fn closed_session_fails_fast() {
    let mut s = ClientSession::new();
    assert!(s.is_open());
    s.close();
    assert!(!s.is_open());
    let mut inbound: Inbound = BridgeQueue::new();
    inbound.push(Ok(Packet::new_raw(vec![1])));
    assert_eq!(s.finish_receive(&mut inbound), Err(SocketError::Closed));
    assert_eq!(inbound.len(), 1);
    assert_eq!(SocketError::Closed.describe(), "the socket is closed");
}

#[test]
fn receive_cycle_hands_out_dropped_packets_for_retry() {
    let s = ClientSession::new();
    let mut dropped: BridgeQueue<Packet> = BridgeQueue::new();
    dropped.push(Packet::new_raw(vec![1]));
    dropped.push(Packet::new_raw(vec![2]));
    let retry = s.begin_receive(&mut dropped).unwrap();
    assert_eq!(retry, vec![Packet::new_raw(vec![1]), Packet::new_raw(vec![2])]);
    assert!(dropped.is_empty());
}

#[test]
fn conditioned_receive_applies_latency() {
    let cfg = LinkConditionerConfig::new(0, 50, 0, 0).unwrap();
    let mut s = ClientSession::new();
    let mut table = PeerTable::new(cfg, 7);
    let mut inbound: Inbound = BridgeQueue::new();
    inbound.push(Ok(Packet::new_raw(vec![1])));
    assert_eq!(s.finish_receive_conditioned(&mut table, &mut inbound, 0), Ok(None));
    assert!(inbound.is_empty());
    inbound.push(Ok(Packet::new_raw(vec![2])));
    assert_eq!(s.finish_receive_conditioned(&mut table, &mut inbound, 10), Ok(None));
    assert_eq!(s.finish_receive_conditioned(&mut table, &mut inbound, 49), Ok(None));
    assert_eq!(
        s.finish_receive_conditioned(&mut table, &mut inbound, 50),
        Ok(Some(Packet::new_raw(vec![1])))
    );
    assert_eq!(s.finish_receive_conditioned(&mut table, &mut inbound, 55), Ok(None));
    assert_eq!(
        s.finish_receive_conditioned(&mut table, &mut inbound, 60),
        Ok(Some(Packet::new_raw(vec![2])))
    );
}

#[test]
fn conditioned_receive_reports_session_failure() {
    let cfg = LinkConditionerConfig::new(0, 0, 0, 0).unwrap();
    let mut s = ClientSession::new();
    let mut table = PeerTable::new(cfg, 7);
    let mut inbound: Inbound = BridgeQueue::new();
    inbound.push(Err(SocketError::SessionFailed));
    assert_eq!(
        s.finish_receive_conditioned(&mut table, &mut inbound, 0),
        Err(SocketError::SessionFailed)
    );
    assert_eq!(
        s.finish_receive_conditioned(&mut table, &mut inbound, 1),
        Err(SocketError::SessionFailed)
    );
}
