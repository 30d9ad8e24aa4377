use crossbeam::channel::unbounded;
use naia_socket::config::{
    LinkConditionerConfig, ServerSocketConfig, SocketAddress, SocketSharedConfig, PROBABILITY_ONE,
};
use naia_socket::error::SocketError;
use naia_socket::packet::Packet;
use naia_socket::peers::{relay_through, PeerTable};
use naia_socket::error::ConfigError;
use naia_socket::server::{ChannelPoll, ConditionedPacketReceiver, PacketReceiver, PacketReceiverTrait};

#[test]
fn plain_receiver_empty_channel_gives_none() {
    let (_tx, rx) = unbounded::<Result<Packet, SocketError>>();
    let mut r = PacketReceiver::new(rx);
    assert_eq!(r.receive(), Ok(None));
    assert_eq!(r.receive(), Ok(None));
}

#[test]
fn plain_receiver_passes_packets_in_order() {
    let (tx, rx) = unbounded();
    let mut r = PacketReceiver::new(rx);
    tx.send(Ok(Packet::new(1, vec![1]))).unwrap();
    tx.send(Ok(Packet::new(2, vec![2]))).unwrap();
    assert_eq!(r.receive(), Ok(Some(Packet::new(1, vec![1]))));
    assert_eq!(r.receive(), Ok(Some(Packet::new(2, vec![2]))));
    assert_eq!(r.receive(), Ok(None));
}

#[test]
fn plain_receiver_error_is_sticky() {
    let (tx, rx) = unbounded();
    let mut r = PacketReceiver::new(rx);
    tx.send(Err(SocketError::SessionFailed)).unwrap();
    tx.send(Ok(Packet::new(1, vec![1]))).unwrap();
    assert_eq!(r.receive(), Err(SocketError::SessionFailed));
    assert_eq!(r.receive(), Err(SocketError::SessionFailed));
}

#[test]
fn take_inbound_outcomes() {
    let (_tx, rx) = unbounded();
    let mut r = PacketReceiver::new(rx);
    assert_eq!(r.take_inbound(ChannelPoll::Empty), Ok(None));
    assert_eq!(
        r.take_inbound(ChannelPoll::Message(Ok(Packet::new(3, vec![3])))),
        Ok(Some(Packet::new(3, vec![3])))
    );
    assert_eq!(r.take_inbound(ChannelPoll::Message(Err(SocketError::Closed))), Err(SocketError::Closed));
    assert_eq!(r.take_inbound(ChannelPoll::Message(Ok(Packet::new(3, vec![3])))), Err(SocketError::Closed));
}

#[test]
fn take_inbound_disconnected_fails_session() {
    let (_tx, rx) = unbounded();
    let mut r = PacketReceiver::new(rx);
    assert_eq!(r.take_inbound(ChannelPoll::Disconnected), Err(SocketError::SessionFailed));
    assert_eq!(r.take_inbound(ChannelPoll::Empty), Err(SocketError::SessionFailed));
}

#[test]
fn plain_receiver_reports_dropped_channel() {
    let (tx, rx) = unbounded::<Result<Packet, SocketError>>();
    let mut r = PacketReceiver::new(rx);
    tx.send(Ok(Packet::new(1, vec![1]))).unwrap();
    drop(tx);
    assert_eq!(r.receive(), Ok(Some(Packet::new(1, vec![1]))));
    assert_eq!(r.receive(), Err(SocketError::SessionFailed));
    assert_eq!(r.receive(), Err(SocketError::SessionFailed));
}

#[test]
fn conditioned_receiver_reports_dropped_channel() {
    let (tx, rx) = unbounded::<Result<Packet, SocketError>>();
    let cfg = LinkConditionerConfig::new(0, 0, 0, 0).unwrap();
    let mut r = ConditionedPacketReceiver::new(rx, &cfg, 1);
    drop(tx);
    assert_eq!(r.receive_at(0), Err(SocketError::SessionFailed));
    assert_eq!(r.receive_at(1), Err(SocketError::SessionFailed));
}

#[test]
fn conditioned_receiver_applies_latency() {
    let (tx, rx) = unbounded();
    let cfg = LinkConditionerConfig::new(0, 50, 0, 0).unwrap();
    let mut r = ConditionedPacketReceiver::new(rx, &cfg, 1);
    tx.send(Ok(Packet::new(1, vec![1]))).unwrap();
    assert_eq!(r.receive_at(0), Ok(None));
    tx.send(Ok(Packet::new(1, vec![2]))).unwrap();
    assert_eq!(r.receive_at(10), Ok(None));
    assert_eq!(r.receive_at(50), Ok(Some(Packet::new(1, vec![1]))));
    assert_eq!(r.receive_at(55), Ok(None));
    assert_eq!(r.receive_at(60), Ok(Some(Packet::new(1, vec![2]))));
}

#[test]
fn conditioned_receiver_without_conditions_passes_through() {
    let (tx, rx) = unbounded();
    let cfg = LinkConditionerConfig::new(0, 0, 0, 0).unwrap();
    let mut r = ConditionedPacketReceiver::new(rx, &cfg, 1);
    assert_eq!(r.receive(), Ok(None));
    tx.send(Ok(Packet::new(4, vec![4]))).unwrap();
    assert_eq!(r.receive(), Ok(Some(Packet::new(4, vec![4]))));
}

#[test]
fn conditioned_receiver_error_is_sticky() {
    let (tx, rx) = unbounded();
    let cfg = LinkConditionerConfig::new(0, 0, 0, 0).unwrap();
    let mut r = ConditionedPacketReceiver::new(rx, &cfg, 1);
    tx.send(Err(SocketError::SessionFailed)).unwrap();
    assert_eq!(r.receive_at(0), Err(SocketError::SessionFailed));
    tx.send(Ok(Packet::new(4, vec![4]))).unwrap();
    assert_eq!(r.receive_at(1), Err(SocketError::SessionFailed));
}

#[test]
fn conditioned_receiver_total_loss() {
    let (tx, rx) = unbounded();
    let cfg = LinkConditionerConfig::new(PROBABILITY_ONE, 0, 0, 0).unwrap();
    let mut r = ConditionedPacketReceiver::new(rx, &cfg, 1);
    for i in 0..500u32 {
        tx.send(Ok(Packet::new((i % 3) as u64, vec![1]))).unwrap();
    }
    for t in 0..10u64 {
        assert_eq!(r.receive_at(t), Ok(None));
    }
}

#[test]
fn decorated_receiver_chains_conditioners() {
    let (tx, rx) = unbounded();
    // the inner conditioner runs on its own clock: with no latency it
    // passes packets on at once, and the outer one adds its delay
    let first = LinkConditionerConfig::new(0, 0, 0, 0).unwrap();
    let second = LinkConditionerConfig::new(0, 30, 0, 0).unwrap();
    let mut r = PacketReceiver::new(rx)
        .with_link_conditioner(&first, 1)
        .with_link_conditioner(&second, 2);
    tx.send(Ok(Packet::new(9, vec![9]))).unwrap();
    assert_eq!(r.receive_at(0), Ok(None));
    assert_eq!(r.receive_at(29), Ok(None));
    assert_eq!(r.receive_at(30), Ok(Some(Packet::new(9, vec![9]))));
    assert_eq!(r.receive_at(31), Ok(None));
}

#[test]
fn peers_leave_in_release_then_arrival_order() {
    let cfg = LinkConditionerConfig::new(0, 0, 0, 0).unwrap();
    let mut t = PeerTable::new(cfg, 1);
    t.accept(Packet::new(1, vec![1]), 5);
    t.accept(Packet::new(1, vec![2]), 5);
    t.accept(Packet::new(2, vec![3]), 5);
    t.accept(Packet::new(2, vec![4]), 3);
    assert_eq!(t.peer_count(), 2);
    let mut order = Vec::new();
    while let Some(p) = t.next_ready(5) {
        order.push(p.payload[0]);
    }
    assert_eq!(order, vec![4, 1, 2, 3]);
}

#[test]
fn later_peer_with_earlier_packet_goes_first() {
    let cfg = LinkConditionerConfig::new(0, 10, 0, 0).unwrap();
    let mut t = PeerTable::new(cfg, 1);
    t.accept(Packet::new(1, vec![1]), 5);
    t.accept(Packet::new(2, vec![2]), 0);
    assert_eq!(t.waiting(), 2);
    assert_eq!(t.next_ready(9), None);
    assert_eq!(t.next_ready(20), Some(Packet::new(2, vec![2])));
    assert_eq!(t.next_ready(20), Some(Packet::new(1, vec![1])));
    assert_eq!(t.next_ready(20), None);
}

#[test]
fn peer_loss_draws_are_independent() {
    let cfg = LinkConditionerConfig::new(PROBABILITY_ONE / 2, 0, 0, 0).unwrap();
    let mut t = PeerTable::new(cfg, 42);
    for i in 0..200u32 {
        t.accept(Packet::new(1, i.to_le_bytes().to_vec()), 0);
        t.accept(Packet::new(2, i.to_le_bytes().to_vec()), 0);
    }
    let mut kept_a = Vec::new();
    let mut kept_b = Vec::new();
    for p in t.take_due(0) {
        if p.address == 1 {
            kept_a.push(p.payload);
        } else {
            kept_b.push(p.payload);
        }
    }
    assert!(kept_a.len() > 50 && kept_a.len() < 150);
    assert!(kept_b.len() > 50 && kept_b.len() < 150);
    assert_ne!(kept_a, kept_b);
    assert_eq!(t.waiting(), 0);
}

#[test]
fn a_peers_fate_ignores_other_peers_traffic() {
    let cfg = LinkConditionerConfig::new(PROBABILITY_ONE / 2, 0, 0, 0).unwrap();
    let mut alone = PeerTable::new(cfg, 7);
    let mut shared = PeerTable::new(cfg, 7);
    for i in 0..100u32 {
        alone.accept(Packet::new(1, i.to_le_bytes().to_vec()), 0);
        shared.accept(Packet::new(1, i.to_le_bytes().to_vec()), 0);
        shared.accept(Packet::new(2, i.to_le_bytes().to_vec()), 0);
    }
    let a: Vec<Packet> = alone.take_due(0);
    let s: Vec<Packet> = shared.take_due(0).into_iter().filter(|p| p.address == 1).collect();
    assert_eq!(a, s);
}

#[test]
fn take_due_leaves_later_packets() {
    let cfg = LinkConditionerConfig::new(0, 10, 0, 0).unwrap();
    let mut t = PeerTable::new(cfg, 1);
    t.accept(Packet::new(1, vec![1]), 0);
    t.accept(Packet::new(1, vec![2]), 5);
    t.accept(Packet::new(2, vec![3]), 20);
    assert_eq!(t.take_due(15), vec![Packet::new(1, vec![1]), Packet::new(1, vec![2])]);
    assert_eq!(t.waiting(), 1);
    assert!(t.take_due(15).is_empty());
}

#[test]
fn peer_removal() {
    let cfg = LinkConditionerConfig::new(0, 0, 0, 0).unwrap();
    let mut t = PeerTable::new(cfg, 1);
    t.accept(Packet::new(1, vec![1]), 0);
    t.accept(Packet::new(2, vec![2]), 0);
    assert_eq!(t.find(2), Some(1));
    assert!(t.remove_peer(1));
    assert!(!t.remove_peer(1));
    assert_eq!(t.find(1), None);
    assert_eq!(t.find(2), Some(0));
    assert_eq!(t.next_ready(0), Some(Packet::new(1, vec![1])));
    assert_eq!(t.next_ready(0), Some(Packet::new(2, vec![2])));
    assert_eq!(t.next_ready(0), None);
}

#[test]
fn shared_config_paths() {
    let d = SocketSharedConfig::new(None, None).unwrap();
    assert_eq!(d.rtc_endpoint_path, "new_rtc_session");
    assert!(d.link_condition_config.is_none());
    let cfg = LinkConditionerConfig::new(0, 1, 2, 3).unwrap();
    let c = SocketSharedConfig::new(Some(cfg), Some("custom".to_string())).unwrap();
    assert_eq!(c.rtc_endpoint_path, "custom");
    assert_eq!(c.link_condition_config, Some(cfg));
    let dd = SocketSharedConfig::default();
    assert_eq!(dd.rtc_endpoint_path, "new_rtc_session");
}

#[test]
fn server_config_defaults() {
    let c = ServerSocketConfig::default();
    assert_eq!(c.session_listen_addr.octets(), (127, 0, 0, 1));
    assert_eq!(c.session_listen_addr.port, 14191);
    assert_eq!(c.webrtc_listen_addr.port, 14192);
    assert_eq!(c.public_webrtc_addr, c.webrtc_listen_addr);
    assert_eq!(c.shared.rtc_endpoint_path, "new_rtc_session");
    let a = SocketAddress::new(10, 1, 2, 3, 80);
    assert_eq!(a.ip, 0x0a01_0203);
    assert_eq!(a.octets(), (10, 1, 2, 3));
}

#[test]
fn shared_config_refuses_invalid_link_config() {
    let loss = LinkConditionerConfig { loss_probability: 1_500_000, latency: 0, jitter: 0, jitter_probability: 0 };
    assert!(!loss.is_valid());
    assert_eq!(loss.check(), Err(ConfigError::LossProbabilityOutOfRange));
    assert_eq!(
        SocketSharedConfig::new(Some(loss), None).unwrap_err(),
        ConfigError::LossProbabilityOutOfRange
    );
    let jitter = LinkConditionerConfig { loss_probability: 0, latency: 0, jitter: 0, jitter_probability: 2_000_000 };
    assert_eq!(
        SocketSharedConfig::new(Some(jitter), None).unwrap_err(),
        ConfigError::JitterProbabilityOutOfRange
    );
}

#[test]
fn conditioned_receiver_passthrough_keeps_order() {
    let (tx, rx) = unbounded();
    let cfg = LinkConditionerConfig::new(0, 0, 0, 0).unwrap();
    let mut r = ConditionedPacketReceiver::new(rx, &cfg, 1);
    for i in 0..5u8 {
        tx.send(Ok(Packet::new(3, vec![i]))).unwrap();
    }
    for i in 0..5u8 {
        assert_eq!(r.receive_at(7), Ok(Some(Packet::new(3, vec![i]))));
    }
    assert_eq!(r.receive_at(7), Ok(None));
}

#[test]
fn relay_chains_two_stages() {
    let first = LinkConditionerConfig::new(0, 10, 0, 0).unwrap();
    let second = LinkConditionerConfig::new(0, 5, 0, 0).unwrap();
    let mut a = PeerTable::new(first, 1);
    let mut b = PeerTable::new(second, 2);
    let mut seen = Vec::new();
    for t in 0..30u64 {
        let input = if t == 0 { Some(Packet::new_raw(vec![1])) } else { None };
        let mid = a.relay(input, t);
        if let Some(p) = b.relay(mid, t) {
            seen.push((p, t));
        }
    }
    assert_eq!(seen, vec![(Packet::new_raw(vec![1]), 15)]);
}

#[test]
fn conditioned_receiver_keeps_channel_order_across_peers() {
    let (tx, rx) = unbounded();
    let cfg = LinkConditionerConfig::new(0, 0, 0, 0).unwrap();
    let mut r = ConditionedPacketReceiver::new(rx, &cfg, 1);
    tx.send(Ok(Packet::new(1, vec![1]))).unwrap();
    tx.send(Ok(Packet::new(1, vec![2]))).unwrap();
    tx.send(Ok(Packet::new(2, vec![3]))).unwrap();
    assert_eq!(r.receive_at(4), Ok(Some(Packet::new(1, vec![1]))));
    assert_eq!(r.receive_at(4), Ok(Some(Packet::new(1, vec![2]))));
    assert_eq!(r.receive_at(4), Ok(Some(Packet::new(2, vec![3]))));
    assert_eq!(r.receive_at(4), Ok(None));
}

#[test]
fn settle_poll_outcomes() {
    let (_tx, rx) = unbounded();
    let cfg = LinkConditionerConfig::new(0, 0, 0, 0).unwrap();
    let mut r = ConditionedPacketReceiver::new(rx, &cfg, 1);
    assert!(!r.settle_poll(ChannelPoll::Empty, 0));
    assert_eq!(r.peers.waiting(), 0);
    assert!(r.settle_poll(ChannelPoll::Message(Ok(Packet::new(1, vec![1]))), 0));
    assert_eq!(r.peers.waiting(), 1);
    assert!(r.failure.is_none());
    assert!(!r.settle_poll(ChannelPoll::Disconnected, 0));
    assert_eq!(r.failure, Some(SocketError::SessionFailed));
}

#[test]
fn relay_through_chains_stages_in_order() {
    let first = LinkConditionerConfig::new(0, 10, 0, 0).unwrap();
    let second = LinkConditionerConfig::new(0, 5, 0, 0).unwrap();
    let mut stages = vec![PeerTable::new(first, 1), PeerTable::new(second, 2)];
    let mut seen = Vec::new();
    for t in 0..30u64 {
        let input = if t < 2 { Some(Packet::new_raw(vec![t as u8])) } else { None };
        if let Some(p) = relay_through(&mut stages, input, t) {
            seen.push((p.payload[0], t));
        }
    }
    assert_eq!(seen, vec![(0, 15), (1, 16)]);
    let mut none: Vec<PeerTable> = Vec::new();
    assert_eq!(relay_through(&mut none, Some(Packet::new_raw(vec![7])), 0), Some(Packet::new_raw(vec![7])));
}
