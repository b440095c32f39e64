use peer_manager::{
    AddrComponent, DiscoveryEvent, DiscoveryRequest, ExpiringSet, IdentifyInfo, IpAddr, MetaData,
    Multiaddr, PeerAction, PeerConnectionStatus, PeerDB, PeerId, PeerManager, PeerManagerEvent,
    Protocol, RPCError, RPCResponseErrorCode, SocketAddr,
};
use peer_manager::reputation::{rpc_error_action, DEFAULT_REPUTATION};

fn drain(m: &mut PeerManager, now: u64) -> Vec<PeerManagerEvent> {
    let mut out = Vec::new();
    while let Some(e) = m.poll(now, 0, Vec::new()) {
        out.push(e);
    }
    out
}

fn reputation(m: &PeerManager, id: PeerId) -> u8 {
    m.peers().reputation(id)
}

#[test]
fn heartbeat_asks_discovery_without_dialing() {
    let mut m = PeerManager::new(50, 9000);
    assert_eq!(m.take_discovery_requests(), vec![DiscoveryRequest::Peers]);
    assert_eq!(m.poll(30, 1, Vec::new()), None);
    assert_eq!(m.take_discovery_requests(), vec![DiscoveryRequest::Peers]);
}

#[test]
fn heartbeat_at_target_asks_nothing() {
    let mut m = PeerManager::new(1, 9000);
    m.take_discovery_requests();
    assert!(m.connect_ingoing(PeerId(1), 0));
    m.heartbeat(0);
    assert!(m.take_discovery_requests().is_empty());
}

#[test]
fn discovered_peer_is_dialed_once() {
    let mut m = PeerManager::new(50, 9000);
    let p1 = PeerId(1);
    let found = vec![DiscoveryEvent::QueryResult(None, vec![p1])];
    assert_eq!(m.poll(0, 0, found), Some(PeerManagerEvent::Dial(p1)));
    assert_eq!(m.poll(0, 0, Vec::new()), None);
    // without a pin the database is left alone
    assert_eq!(m.peers().connection_status(p1), None);
}

#[test]
fn discovery_results_are_dialed_in_order() {
    let mut m = PeerManager::new(50, 9000);
    // each result is capped on its own: the count moves only when dials are reported
    let found = vec![
        DiscoveryEvent::QueryResult(None, vec![PeerId(2), PeerId(1)]),
        DiscoveryEvent::QueryResult(None, vec![PeerId(3)]),
    ];
    assert_eq!(m.poll(0, 0, found), Some(PeerManagerEvent::Dial(PeerId(2))));
    assert_eq!(
        drain(&mut m, 0),
        vec![PeerManagerEvent::Dial(PeerId(1)), PeerManagerEvent::Dial(PeerId(3))]
    );
}

#[test]
fn ping_with_newer_sequence_requests_metadata() {
    let mut m = PeerManager::new(50, 9000);
    let p2 = PeerId(2);
    assert!(m.connect_ingoing(p2, 0));
    m.meta_data_response(p2, MetaData { seq_number: 5, attnets: 0 });
    assert_eq!(m.pending_events(), 0);
    m.ping_request(p2, 7, 10);
    assert_eq!(m.next_event(), Some(PeerManagerEvent::MetaData(p2)));
    assert_eq!(m.ping_peers().deadline(p2), Some(40));
}

#[test]
fn ping_with_known_sequence_requests_nothing() {
    let mut m = PeerManager::new(50, 9000);
    let p2 = PeerId(2);
    m.connect_ingoing(p2, 0);
    m.meta_data_response(p2, MetaData { seq_number: 5, attnets: 0 });
    m.ping_request(p2, 5, 10);
    m.pong_response(p2, 4);
    assert_eq!(m.pending_events(), 0);
    m.pong_response(p2, 6);
    assert_eq!(m.next_event(), Some(PeerManagerEvent::MetaData(p2)));
    // a pong does not reset the ping timer
    assert_eq!(m.ping_peers().deadline(p2), Some(40));
}

#[test]
fn ping_without_metadata_requests_it() {
    let mut m = PeerManager::new(50, 9000);
    let p = PeerId(9);
    m.connect_outgoing(p, 0);
    m.ping_request(p, 0, 1);
    assert_eq!(m.next_event(), Some(PeerManagerEvent::MetaData(p)));
}

#[test]
fn ping_from_unknown_peer_changes_nothing() {
    let mut m = PeerManager::new(50, 9000);
    m.ping_request(PeerId(4), 3, 1);
    m.pong_response(PeerId(4), 3);
    assert_eq!(m.pending_events(), 0);
    assert!(!m.ping_peers().contains(PeerId(4)));
    assert!(m.peers().peer_info(PeerId(4)).is_none());
}

#[test]
fn fatal_rpc_error_bans_and_disconnects() {
    let mut m = PeerManager::new(50, 9000);
    let p3 = PeerId(3);
    assert!(m.connect_ingoing(p3, 0));
    for _ in 0..4 {
        m.report_peer(p3, PeerAction::LowToleranceError, 1);
    }
    assert_eq!(reputation(&m, p3), 20);
    m.handle_rpc_error(p3, Protocol::Status, &RPCError::SSZDecodeError, 2);
    assert_eq!(reputation(&m, p3), 0);
    assert_eq!(
        m.peers().connection_status(p3),
        Some(PeerConnectionStatus::Banned { since: 2 })
    );
    assert_eq!(m.poll(2, 0, Vec::new()), Some(PeerManagerEvent::DisconnectPeer(p3)));
}

#[test]
fn status_timer_fires_once_and_rearms() {
    let mut m = PeerManager::new(50, 9000);
    let p4 = PeerId(4);
    assert!(m.connect_ingoing(p4, 0));
    m.peer_statusd(p4, 0);
    // the ping timer also ran out; pings come before statuses
    assert_eq!(
        drain(&mut m, 300),
        vec![PeerManagerEvent::Ping(p4), PeerManagerEvent::Status(p4)]
    );
    assert!(m.status_peers().contains(p4));
    assert_eq!(m.status_peers().deadline(p4), Some(600));
    assert_eq!(drain(&mut m, 301), Vec::<PeerManagerEvent>::new());
}

#[test]
fn metadata_from_unknown_peer_is_ignored() {
    let mut m = PeerManager::new(50, 9000);
    let unknown = PeerId(77);
    m.meta_data_response(unknown, MetaData { seq_number: 1, attnets: 1 });
    assert_eq!(m.pending_events(), 0);
    assert!(m.peers().peer_info(unknown).is_none());
    assert_eq!(m.peers().connected_peers(), 0);
}

#[test]
fn accepted_connection_is_connected_with_both_timers() {
    let mut m = PeerManager::new(50, 9000);
    let p = PeerId(5);
    assert!(m.connect_outgoing(p, 7));
    assert_eq!(
        m.peers().connection_status(p),
        Some(PeerConnectionStatus::Connected {
            direction: peer_manager::ConnectionDirection::Outgoing,
            since: 7
        })
    );
    assert!(m.ping_peers().contains(p));
    assert!(m.status_peers().contains(p));
    assert!(m.connect_ingoing(PeerId(6), 7));
    assert_eq!(
        m.peers().connection_status(PeerId(6)),
        Some(PeerConnectionStatus::Connected {
            direction: peer_manager::ConnectionDirection::Incoming,
            since: 7
        })
    );
    assert_eq!(m.peers().connected_peers(), 2);
}

#[test]
fn banned_peer_is_refused() {
    let mut m = PeerManager::new(50, 9000);
    let p = PeerId(5);
    m.report_peer(p, PeerAction::Fatal, 0);
    assert!(!m.connect_ingoing(p, 1));
    assert!(!m.connect_outgoing(p, 1));
    assert!(!m.dialing_peer(p, 1));
    assert!(!m.ping_peers().contains(p));
    assert_eq!(m.peers().connected_or_dialing_peers(), 0);
}

#[test]
fn disconnect_disarms_timers_and_counts_down() {
    let mut m = PeerManager::new(50, 9000);
    m.connect_ingoing(PeerId(1), 0);
    m.connect_ingoing(PeerId(2), 0);
    assert_eq!(m.peers().connected_peers(), 2);
    m.notify_disconnect(PeerId(1), 5);
    assert_eq!(m.peers().connected_peers(), 1);
    assert!(!m.ping_peers().contains(PeerId(1)));
    assert!(!m.status_peers().contains(PeerId(1)));
    assert_eq!(
        m.peers().connection_status(PeerId(1)),
        Some(PeerConnectionStatus::Disconnected { since: 5 })
    );
    // a second disconnect changes no count and keeps the first time
    m.notify_disconnect(PeerId(1), 9);
    assert_eq!(m.peers().connected_peers(), 1);
    assert_eq!(
        m.peers().connection_status(PeerId(1)),
        Some(PeerConnectionStatus::Disconnected { since: 5 })
    );
}

#[test]
fn disconnect_keeps_a_ban() {
    let mut m = PeerManager::new(50, 9000);
    let p = PeerId(1);
    m.connect_ingoing(p, 0);
    m.report_peer(p, PeerAction::Fatal, 1);
    m.notify_disconnect(p, 2);
    assert_eq!(
        m.peers().connection_status(p),
        Some(PeerConnectionStatus::Banned { since: 1 })
    );
}

#[test]
fn reputation_is_a_saturating_sum() {
    let mut m = PeerManager::new(50, 9000);
    let p = PeerId(1);
    assert_eq!(reputation(&m, p), DEFAULT_REPUTATION);
    assert_eq!(DEFAULT_REPUTATION, 80);
    for _ in 0..20 {
        m.report_peer(p, PeerAction::ValidMessage, 0);
    }
    assert_eq!(reputation(&m, p), 100);
    m.report_peer(p, PeerAction::MidToleranceError, 0);
    assert_eq!(reputation(&m, p), 92);
    m.report_peer(p, PeerAction::HighToleranceError, 0);
    assert_eq!(reputation(&m, p), 87);
    m.report_peer(p, PeerAction::LowToleranceError, 0);
    assert_eq!(reputation(&m, p), 72);
    m.report_peer(p, PeerAction::Fatal, 0);
    assert_eq!(reputation(&m, p), 0);
    m.report_peer(p, PeerAction::ValidMessage, 0);
    assert_eq!(reputation(&m, p), 2);
}

#[test]
fn fatal_ban_survives_one_more_error() {
    for action in [
        PeerAction::LowToleranceError,
        PeerAction::MidToleranceError,
        PeerAction::HighToleranceError,
    ] {
        let mut m = PeerManager::new(50, 9000);
        let p = PeerId(1);
        m.connect_ingoing(p, 0);
        m.report_peer(p, PeerAction::Fatal, 1);
        m.report_peer(p, action, 2);
        assert_eq!(reputation(&m, p), 0);
        assert!(m.peers().peer_banned(p));
        // only one disconnect directive
        assert_eq!(m.pending_events(), 1);
    }
}

#[test]
fn low_tolerance_errors_ban_after_five() {
    let mut m = PeerManager::new(50, 9000);
    let p = PeerId(1);
    m.connect_ingoing(p, 0);
    for _ in 0..4 {
        m.report_peer(p, PeerAction::LowToleranceError, 1);
    }
    assert!(!m.peers().peer_banned(p));
    assert_eq!(m.pending_events(), 0);
    m.report_peer(p, PeerAction::LowToleranceError, 1);
    assert!(m.peers().peer_banned(p));
    assert_eq!(reputation(&m, p), 5);
    assert_eq!(m.next_event(), Some(PeerManagerEvent::DisconnectPeer(p)));
}

#[test]
fn climbing_back_to_threshold_unbans() {
    let mut db = PeerDB::new();
    let p = PeerId(1);
    db.add_reputation(p, -71, 0);
    assert!(db.peer_banned(p));
    assert_eq!(db.reputation(p), 9);
    assert!(!db.add_reputation(p, 1, 3));
    assert_eq!(db.connection_status(p), Some(PeerConnectionStatus::Disconnected { since: 3 }));
    assert_eq!(db.reputation(p), 10);
}

#[test]
fn metadata_keeps_the_highest_sequence() {
    let mut m = PeerManager::new(50, 9000);
    let p = PeerId(1);
    m.connect_ingoing(p, 0);
    for seq in [3u64, 7, 5, 7, 1] {
        m.meta_data_response(p, MetaData { seq_number: seq, attnets: seq });
    }
    let info = m.peers().peer_info(p).unwrap();
    assert_eq!(info.meta_data, Some(MetaData { seq_number: 7, attnets: 7 }));
}

#[test]
fn discovery_dials_up_to_the_target() {
    let mut m = PeerManager::new(3, 9000);
    m.connect_ingoing(PeerId(100), 0);
    m.dialing_peer(PeerId(2), 0);
    let found: Vec<PeerId> = (1..=4).map(PeerId).collect();
    m.peers_discovered(&found, None);
    assert_eq!(m.peers().connected_or_dialing_peers(), 2);
    assert_eq!(drain(&mut m, 1), vec![PeerManagerEvent::Dial(PeerId(1))]);
}

#[test]
fn discovery_with_target_one_dials_one_peer() {
    let mut m = PeerManager::new(1, 9000);
    let found = vec![DiscoveryEvent::QueryResult(Some(50), vec![PeerId(1), PeerId(2)])];
    assert_eq!(m.poll(0, 0, found), Some(PeerManagerEvent::Dial(PeerId(1))));
    assert_eq!(m.poll(0, 0, Vec::new()), None);
    assert_eq!(m.peers().peer_info(PeerId(1)).unwrap().min_ttl, Some(50));
    assert!(m.peers().peer_info(PeerId(2)).is_none());
}

#[test]
fn discovery_skips_connected_and_banned_peers() {
    let mut m = PeerManager::new(10, 9000);
    m.connect_ingoing(PeerId(1), 0);
    m.report_peer(PeerId(2), PeerAction::Fatal, 0);
    m.peers_discovered(&vec![PeerId(1), PeerId(2), PeerId(3)], Some(500));
    assert_eq!(m.next_event(), Some(PeerManagerEvent::DisconnectPeer(PeerId(2))));
    assert_eq!(m.next_event(), Some(PeerManagerEvent::Dial(PeerId(3))));
    assert_eq!(m.next_event(), None);
    assert_eq!(m.peers().peer_info(PeerId(3)).unwrap().min_ttl, Some(500));
    assert_eq!(m.peers().peer_info(PeerId(1)).unwrap().min_ttl, None);
}

#[test]
fn discovery_over_target_dials_nothing() {
    let mut m = PeerManager::new(1, 9000);
    m.connect_ingoing(PeerId(1), 0);
    m.connect_ingoing(PeerId(2), 0);
    m.peers_discovered(&vec![PeerId(3)], None);
    assert_eq!(m.pending_events(), 0);
    assert_eq!(m.peers().connected_or_dialing_peers(), 2);
}

#[test]
fn dialing_counts_once() {
    let mut db = PeerDB::new();
    assert!(db.dialing_peer(PeerId(1), 0));
    assert!(db.dialing_peer(PeerId(1), 1));
    assert_eq!(db.connected_or_dialing_peers(), 1);
    assert_eq!(db.connected_peers(), 0);
    assert!(db.is_connected_or_dialing(PeerId(1)));
}

#[test]
fn ping_timer_fires_once_per_interval() {
    let mut m = PeerManager::new(50, 9000);
    let p = PeerId(1);
    m.connect_ingoing(p, 100);
    assert_eq!(m.ping_peers().deadline(p), Some(130));
    let mut m = PeerManager::new(50, 9000);
    m.connect_ingoing(p, 0);
    assert_eq!(drain(&mut m, 29), Vec::<PeerManagerEvent>::new());
    assert_eq!(drain(&mut m, 30), vec![PeerManagerEvent::Ping(p)]);
    assert_eq!(drain(&mut m, 31), Vec::<PeerManagerEvent>::new());
    assert_eq!(drain(&mut m, 60), vec![PeerManagerEvent::Ping(p)]);
    // a late poll still gives one ping
    assert_eq!(drain(&mut m, 200), vec![PeerManagerEvent::Ping(p)]);
    assert_eq!(m.ping_peers().deadline(p), Some(230));
}

#[test]
fn timers_fire_in_deadline_order() {
    let mut m = PeerManager::new(50, 9000);
    m.connect_ingoing(PeerId(2), 0);
    m.connect_ingoing(PeerId(1), 0);
    m.connect_ingoing(PeerId(3), 5);
    assert_eq!(
        drain(&mut m, 40),
        vec![
            PeerManagerEvent::Ping(PeerId(2)),
            PeerManagerEvent::Ping(PeerId(1)),
            PeerManagerEvent::Ping(PeerId(3)),
        ]
    );
}

#[test]
fn expiring_set_reinsertion_resets_deadline() {
    let mut s = ExpiringSet::new(10);
    s.insert(PeerId(1), 0);
    s.insert(PeerId(2), 3);
    s.insert(PeerId(1), 5);
    assert_eq!(s.len(), 2);
    assert_eq!(s.deadline(PeerId(1)), Some(15));
    assert_eq!(s.pop_expired(13), vec![PeerId(2)]);
    assert_eq!(s.pop_expired(14), Vec::<PeerId>::new());
    assert_eq!(s.pop_expired(u64::MAX), vec![PeerId(1)]);
    assert_eq!(s.len(), 0);
    s.insert(PeerId(3), 4);
    s.remove(PeerId(3));
    assert!(!s.contains(PeerId(3)));
}

#[test]
fn expiring_set_saturates_and_keeps_clock() {
    let mut s = ExpiringSet::new(10);
    s.insert(PeerId(1), u64::MAX - 3);
    assert_eq!(s.deadline(PeerId(1)), Some(u64::MAX));
    // an earlier clock reading does not move deadlines back
    s.insert(PeerId(2), 0);
    assert_eq!(s.deadline(PeerId(2)), Some(u64::MAX));
    assert_eq!(s.pop_expired(u64::MAX), vec![PeerId(1), PeerId(2)]);
}

#[test]
fn rpc_errors_map_to_actions() {
    let all = [
        Protocol::Status,
        Protocol::Goodbye,
        Protocol::BlocksByRange,
        Protocol::BlocksByRoot,
        Protocol::Ping,
        Protocol::MetaData,
    ];
    for p in all {
        assert_eq!(rpc_error_action(p, &RPCError::IncompleteStream), Some(PeerAction::MidToleranceError));
        assert_eq!(rpc_error_action(p, &RPCError::InternalError), None);
        assert_eq!(rpc_error_action(p, &RPCError::HandlerRejected), None);
        assert_eq!(rpc_error_action(p, &RPCError::InvalidData), Some(PeerAction::Fatal));
        assert_eq!(rpc_error_action(p, &RPCError::IoError), Some(PeerAction::HighToleranceError));
        assert_eq!(
            rpc_error_action(p, &RPCError::ErrorResponse(RPCResponseErrorCode::Unknown)),
            Some(PeerAction::HighToleranceError)
        );
        assert_eq!(
            rpc_error_action(p, &RPCError::ErrorResponse(RPCResponseErrorCode::ServerError)),
            Some(PeerAction::MidToleranceError)
        );
        assert_eq!(
            rpc_error_action(p, &RPCError::ErrorResponse(RPCResponseErrorCode::InvalidRequest)),
            Some(PeerAction::LowToleranceError)
        );
        assert_eq!(rpc_error_action(p, &RPCError::SSZDecodeError), Some(PeerAction::Fatal));
        assert_eq!(rpc_error_action(p, &RPCError::NegotiationTimeout), Some(PeerAction::HighToleranceError));
    }
    let unsupported = RPCError::UnsupportedProtocol;
    assert_eq!(rpc_error_action(Protocol::Ping, &unsupported), Some(PeerAction::Fatal));
    assert_eq!(rpc_error_action(Protocol::MetaData, &unsupported), Some(PeerAction::LowToleranceError));
    assert_eq!(rpc_error_action(Protocol::Status, &unsupported), Some(PeerAction::LowToleranceError));
    assert_eq!(rpc_error_action(Protocol::BlocksByRange, &unsupported), None);
    assert_eq!(rpc_error_action(Protocol::BlocksByRoot, &unsupported), None);
    assert_eq!(rpc_error_action(Protocol::Goodbye, &unsupported), None);
    let timeout = RPCError::StreamTimeout;
    assert_eq!(rpc_error_action(Protocol::Ping, &timeout), Some(PeerAction::LowToleranceError));
    assert_eq!(rpc_error_action(Protocol::BlocksByRange, &timeout), Some(PeerAction::MidToleranceError));
    assert_eq!(rpc_error_action(Protocol::BlocksByRoot, &timeout), Some(PeerAction::MidToleranceError));
    assert_eq!(rpc_error_action(Protocol::Goodbye, &timeout), None);
    assert_eq!(rpc_error_action(Protocol::MetaData, &timeout), None);
    assert_eq!(rpc_error_action(Protocol::Status, &timeout), None);
}

#[test]
fn our_own_rpc_errors_cost_nothing() {
    let mut m = PeerManager::new(50, 9000);
    let p = PeerId(1);
    m.connect_ingoing(p, 0);
    m.handle_rpc_error(p, Protocol::Ping, &RPCError::InternalError, 1);
    m.handle_rpc_error(p, Protocol::Goodbye, &RPCError::StreamTimeout, 1);
    assert_eq!(reputation(&m, p), 80);
    m.handle_rpc_error(p, Protocol::BlocksByRange, &RPCError::StreamTimeout, 1);
    assert_eq!(reputation(&m, p), 72);
}

#[test]
fn addresses_drop_udp_entries() {
    let tcp = Multiaddr { components: vec![AddrComponent::Ip4(0x7f000001), AddrComponent::Tcp(9000)] };
    let udp = Multiaddr { components: vec![AddrComponent::Ip4(0x7f000001), AddrComponent::Udp(9000)] };
    let tcp6 = Multiaddr { components: vec![AddrComponent::Ip6(1), AddrComponent::Tcp(9001)] };
    assert!(PeerManager::addresses_of_peer(None).is_empty());
    assert_eq!(
        PeerManager::addresses_of_peer(Some(vec![tcp.clone(), udp, tcp6.clone()])),
        vec![tcp, tcp6]
    );
}

#[test]
fn identify_records_client_and_addresses() {
    let mut m = PeerManager::new(50, 9000);
    let p = PeerId(1);
    let tcp = Multiaddr { components: vec![AddrComponent::Ip4(0x7f000001), AddrComponent::Tcp(9000)] };
    m.connect_ingoing(p, 0);
    m.identify(
        p,
        IdentifyInfo { agent_version: "eth2-client/v1.0.0".to_string(), listen_addrs: vec![tcp.clone()] },
    );
    let info = m.peers().peer_info(p).unwrap();
    assert_eq!(info.client, "eth2-client/v1.0.0");
    assert_eq!(info.listening_addresses, vec![tcp]);
}

#[test]
fn identify_from_unknown_peer_is_ignored() {
    let mut m = PeerManager::new(50, 9000);
    m.identify(PeerId(8), IdentifyInfo { agent_version: "x".to_string(), listen_addrs: vec![] });
    assert!(m.peers().peer_info(PeerId(8)).is_none());
}

#[test]
fn socket_update_announces_tcp_address() {
    let mut m = PeerManager::new(50, 9000);
    let socket = SocketAddr { ip: IpAddr::V4(0x0a000001), port: 9100 };
    let ev = m.poll(0, 0, vec![DiscoveryEvent::SocketUpdated(socket)]);
    assert_eq!(
        ev,
        Some(PeerManagerEvent::SocketUpdated(Multiaddr {
            components: vec![AddrComponent::Ip4(0x0a000001), AddrComponent::Tcp(9000)]
        }))
    );
}

#[test]
fn subnet_discovery_extends_pins() {
    let mut m = PeerManager::new(50, 9000);
    let on = PeerId(1);
    let off = PeerId(2);
    m.connect_ingoing(on, 0);
    m.connect_ingoing(off, 0);
    m.meta_data_response(on, MetaData { seq_number: 1, attnets: 1 << 3 });
    m.meta_data_response(off, MetaData { seq_number: 1, attnets: 1 << 4 });
    m.take_discovery_requests();
    m.discover_subnet_peers(3, Some(100));
    m.discover_subnet_peers(3, Some(50));
    assert_eq!(m.peers().peer_info(on).unwrap().min_ttl, Some(100));
    assert_eq!(m.peers().peer_info(off).unwrap().min_ttl, None);
    assert_eq!(
        m.take_discovery_requests(),
        vec![
            DiscoveryRequest::SubnetPeers { subnet: 3, min_ttl: Some(100) },
            DiscoveryRequest::SubnetPeers { subnet: 3, min_ttl: Some(50) },
        ]
    );
}

#[test]
fn metadata_subnet_bits() {
    let meta = MetaData { seq_number: 0, attnets: 0b1010 };
    assert!(meta.on_subnet(1));
    assert!(!meta.on_subnet(2));
    assert!(meta.on_subnet(3));
    assert!(!meta.on_subnet(64));
}

#[test]
fn ban_drops_reputation_to_zero() {
    let mut db = PeerDB::new();
    db.ban(PeerId(1), 4);
    assert_eq!(db.reputation(PeerId(1)), 0);
    assert_eq!(db.connection_status(PeerId(1)), Some(PeerConnectionStatus::Banned { since: 4 }));
    db.update_min_ttl(PeerId(1), 9);
    db.update_min_ttl(PeerId(1), 7);
    assert_eq!(db.peer_info(PeerId(1)).unwrap().min_ttl, Some(9));
}

#[test]
fn stale_dial_is_dropped_at_heartbeat() {
    let mut m = PeerManager::new(50, 9000);
    let p = PeerId(1);
    assert!(m.dialing_peer(p, 0));
    m.heartbeat(120);
    assert_eq!(m.peers().connection_status(p), Some(PeerConnectionStatus::Dialing { since: 0 }));
    assert!(m.ping_peers().contains(p));
    m.heartbeat(121);
    assert_eq!(
        m.peers().connection_status(p),
        Some(PeerConnectionStatus::Disconnected { since: 121 })
    );
    assert!(!m.ping_peers().contains(p));
    assert!(!m.status_peers().contains(p));
    assert_eq!(m.peers().connected_or_dialing_peers(), 0);
}
