use c2n::network::sim::SimNetwork;
use c2n::network::sim::SimNetworkClient;
use c2n::network::sim::SimNetworkConfig;
use c2n::network::Network;
use c2n::network::NetworkError;
use c2n::network::NetworkEvent;
use c2n::network::ProtocolMessage;
use c2n::node::Node;
use c2n::node::NodeBuilder;
use c2n::node::NodeState;
use c2n::node::PollReport;
use c2n::node_config::NodeConfig;
use c2n::node_config::NodeConfigBuilder;
use c2n::node_events::NodeEvent;
use c2n::peer_list_manager::simple::PeerInfo;
use c2n::peer_list_manager::simple::PeerState;
use c2n::peer_list_manager::simple::SimplePeerListManager;
use c2n::peer_list_manager::PeerListManager;
use c2n::peer_list_manager::PeerListManagerEvent;
use c2n::primitives::Pubkey;
use c2n::rng::RngSeed;
use c2n::rng::SimRng;
use c2n::storage::sim::SimStorage;

fn node_key(tag: u8) -> Pubkey {
    let mut bytes = [0u8; 32];
    bytes[1] = tag;
    Pubkey::from_bytes(bytes)
}

fn node_fabric(fail_numerator: u32) -> SimNetwork {
    SimNetwork::build_with_config(
        SimRng::new(RngSeed(11)),
        SimNetworkConfig {
            connection_delay_min: 100,
            connection_delay_max: 2000,
            fail_numerator,
            fail_denominator: 1,
        },
    )
}

fn node_config(tag: u8, bootnodes: &[u8]) -> NodeConfig {
    let mut builder = NodeConfigBuilder::new()
        .with_identity(node_key(tag))
        .with_address(format!("/memory/{}", tag));
    for bootnode in bootnodes {
        builder = builder.with_bootnode((node_key(*bootnode), format!("/memory/{}", bootnode)));
    }
    builder.build()
}

fn node_on(fabric: &mut SimNetwork, tag: u8, bootnodes: &[u8]) -> Node {
    let config = node_config(tag, bootnodes);
    let client =
        SimNetworkClient::build(SimRng::new(RngSeed(100 + tag as u64)), fabric, config.node_address());
    Node::builder()
        .network(client)
        .storage(SimStorage::build(SimRng::new(RngSeed(200 + tag as u64))))
        .peer_list_manager(SimplePeerListManager::build(SimRng::new(RngSeed(300 + tag as u64))))
        .with_node_config(config)
        .build()
}

/// A node 1 that has booted from node 2 and is connected to it; node 2 is
/// connected back. Both have read all that the handshake brought.
fn node_pair(fabric: &mut SimNetwork) -> (Node, Node) {
    let mut b = node_on(fabric, 2, &[]);
    let mut a = node_on(fabric, 1, &[2]);
    assert_eq!(b.poll(fabric, 0), Ok(Some(NodeEvent::Noop)));
    assert_eq!(a.poll(fabric, 0), Ok(Some(NodeEvent::Noop)));
    fabric.step(500);
    fabric.step(1999);
    assert_eq!(
        b.poll(fabric, 1999),
        Ok(Some(NodeEvent::InboundEstablished { peer_id: node_key(1) }))
    );
    assert_eq!(a.poll(fabric, 1999), Ok(Some(NodeEvent::Noop)));
    assert_eq!(a.poll(fabric, 1999), Ok(Some(NodeEvent::Noop)));
    assert_eq!(a.poll(fabric, 1999), Ok(None));
    assert_eq!(b.poll(fabric, 1999), Ok(None));
    (a, b)
}

#[test]
fn node_builder_needs_all_four_parts() {
    let mut fabric = node_fabric(0);
    let config = node_config(1, &[]);
    let client = SimNetworkClient::build(SimRng::new(RngSeed(1)), &mut fabric, config.node_address());
    let builder = NodeBuilder::new();
    assert!(!builder.is_ready());
    let builder = builder.network(client);
    assert!(!builder.is_ready());
    let builder = builder.storage(SimStorage::build(SimRng::new(RngSeed(2))));
    assert!(!builder.is_ready());
    let builder = builder.peer_list_manager(SimplePeerListManager::build(SimRng::new(RngSeed(3))));
    assert!(!builder.is_ready());
    let builder = builder.with_node_config(config);
    assert!(builder.is_ready());
    let node = builder.build();
    assert_eq!(*node.identity(), node_key(1));
    assert!(!NodeBuilder::default().is_ready());
}

#[test]
fn node_builder_wants_the_endpoint_of_the_configured_identity() {
    let mut fabric = node_fabric(0);
    let config = node_config(1, &[]);
    let client = SimNetworkClient::build(
        SimRng::new(RngSeed(1)),
        &mut fabric,
        (node_key(2), String::from("/memory/2")),
    );
    let builder = Node::builder()
        .network(client)
        .storage(SimStorage::build(SimRng::new(RngSeed(2))))
        .peer_list_manager(SimplePeerListManager::build(SimRng::new(RngSeed(3))))
        .with_node_config(config);
    assert!(!builder.is_ready());
}

#[test]
fn new_node_is_booting_and_bars_itself() {
    let mut fabric = node_fabric(0);
    let node = node_on(&mut fabric, 1, &[2]);
    assert_eq!(node.state(), NodeState::Booting);
    assert_eq!(NodeState::default(), NodeState::Booting);
    assert_eq!(*node.identity(), node_key(1));
    assert_eq!(node.config().address, "/memory/1");
    assert_eq!(node.config().bootnodes.len(), 1);
    assert!(node.connections().is_empty());
    assert!(node.peer_list_manager().is_excluded(node_key(1)));
    assert!(node.peer_list_manager().tracked_peers().is_empty());
    assert!(!node.network().is_connected(node_key(2)));
    assert!(!Node::config_builder().is_complete());
}

#[test]
fn building_a_node_drops_its_own_identity_from_the_manager() {
    let mut fabric = node_fabric(0);
    let config = node_config(1, &[]);
    let client = SimNetworkClient::build(SimRng::new(RngSeed(1)), &mut fabric, config.node_address());
    let mut manager = SimplePeerListManager::build(SimRng::new(RngSeed(3)));
    manager.register_peer(node_key(1));
    manager.register_peer(node_key(2));
    let node = Node::builder()
        .network(client)
        .storage(SimStorage::build(SimRng::new(RngSeed(2))))
        .peer_list_manager(manager)
        .with_node_config(config)
        .build();
    assert_eq!(node.peer_list_manager().tracked_peers(), vec![node_key(2)]);
}

#[test]
fn node_cannot_boot_from_a_bootnode_that_the_fabric_does_not_know() {
    let mut fabric = node_fabric(0);
    let node = node_on(&mut fabric, 1, &[2]);
    assert!(!node.ready_to_boot(&fabric));
    let _bootnode = node_on(&mut fabric, 2, &[]);
    assert!(node.ready_to_boot(&fabric));
}

#[test]
fn booting_node_dials_its_bootnodes_and_starts_connecting() {
    let mut fabric = node_fabric(0);
    let _b = node_on(&mut fabric, 2, &[]);
    let _c = node_on(&mut fabric, 3, &[]);
    let mut a = node_on(&mut fabric, 1, &[2, 3]);
    assert!(a.ready_to_boot(&fabric));
    assert_eq!(a.poll(&mut fabric, 0), Ok(Some(NodeEvent::Noop)));
    assert_eq!(a.state(), NodeState::Connecting);
    assert_eq!(fabric.pending_dials(), 2);
    assert!(a.peer_list_manager().tracked_peers().is_empty());
    assert_eq!(a.poll(&mut fabric, 10), Ok(None));
    assert_eq!(a.state(), NodeState::Connecting);
    assert_eq!(fabric.pending_dials(), 2);
}

#[test]
fn bootnode_without_bootnodes_dials_nobody() {
    let mut fabric = node_fabric(0);
    let mut b = node_on(&mut fabric, 2, &[]);
    assert_eq!(b.poll(&mut fabric, 0), Ok(Some(NodeEvent::Noop)));
    assert_eq!(b.state(), NodeState::Connecting);
    assert_eq!(fabric.pending_dials(), 0);
}

#[test]
fn node_that_is_its_own_bootnode_dials_itself_and_never_tracks_itself() {
    let mut fabric = node_fabric(0);
    let _b = node_on(&mut fabric, 2, &[]);
    let mut a = node_on(&mut fabric, 1, &[1, 2]);
    assert!(a.ready_to_boot(&fabric));
    assert_eq!(a.poll(&mut fabric, 0), Ok(Some(NodeEvent::Noop)));
    assert_eq!(fabric.pending_dials(), 2);
    fabric.step(2000);
    assert_eq!(fabric.pending_dials(), 0);
    assert_eq!(fabric.unread_events(node_key(1)), 3);
    let mut inbound_from_itself = 0;
    for _ in 0..3 {
        let reported = a.poll(&mut fabric, 0);
        if reported == Ok(Some(NodeEvent::InboundEstablished { peer_id: node_key(1) })) {
            inbound_from_itself += 1;
        } else {
            assert_eq!(reported, Ok(Some(NodeEvent::Noop)));
        }
        assert!(!a.peer_list_manager().is_tracked(node_key(1)));
        assert!(!a.connections().contains(&node_key(1)));
    }
    assert_eq!(inbound_from_itself, 1);
    assert_eq!(a.connections(), vec![node_key(2)]);
    assert_eq!(a.peer_list_manager().tracked_peers(), vec![node_key(2)]);
    assert!(a.network().is_connected(node_key(1)));
    // What the node gossiped to itself arrives and teaches it nothing.
    assert_eq!(fabric.unread_messages(node_key(1)), 1);
    assert_eq!(a.poll(&mut fabric, 0), Ok(Some(NodeEvent::Noop)));
    assert_eq!(a.poll(&mut fabric, 0), Ok(None));
    assert_eq!(a.peer_list_manager().tracked_peers(), vec![node_key(2)]);
}

#[test]
fn node_cannot_boot_from_itself_before_it_is_registered_elsewhere() {
    let mut fabric = node_fabric(0);
    let a = node_on(&mut fabric, 1, &[1]);
    assert!(a.ready_to_boot(&fabric));
    let other = SimNetwork::build(SimRng::new(RngSeed(1)));
    assert!(!a.ready_to_boot(&other));
}

#[test]
fn handshake_connects_both_nodes() {
    let mut fabric = node_fabric(0);
    let (a, b) = node_pair(&mut fabric);
    assert_eq!(a.connections(), vec![node_key(2)]);
    assert_eq!(b.connections(), vec![node_key(1)]);
    assert!(a.network().is_connected(node_key(2)));
    assert!(b.network().is_connected(node_key(1)));
    assert_eq!(fabric.pending_dials(), 0);
    assert_eq!(fabric.unread_messages(node_key(1)), 0);
    assert_eq!(fabric.unread_messages(node_key(2)), 0);
}

#[test]
fn inbound_connection_is_answered_with_the_connected_peers() {
    let mut fabric = node_fabric(0);
    let mut b = node_on(&mut fabric, 2, &[]);
    let mut a = node_on(&mut fabric, 1, &[2]);
    let mut probe = SimNetworkClient::build(
        SimRng::new(RngSeed(5)),
        &mut fabric,
        (node_key(9), String::from("/memory/9")),
    );
    assert_eq!(b.poll(&mut fabric, 0), Ok(Some(NodeEvent::Noop)));
    assert_eq!(a.poll(&mut fabric, 0), Ok(Some(NodeEvent::Noop)));
    fabric.step(2000);
    assert_eq!(
        b.poll(&mut fabric, 0),
        Ok(Some(NodeEvent::InboundEstablished { peer_id: node_key(1) }))
    );
    assert_eq!(fabric.unread_messages(node_key(1)), 1);
    assert_eq!(fabric.schedule_dial(node_key(9), node_key(2), 100, false), Ok(()));
    fabric.step(3000);
    assert_eq!(
        b.poll(&mut fabric, 0),
        Ok(Some(NodeEvent::InboundEstablished { peer_id: node_key(9) }))
    );
    assert_eq!(
        probe.poll(&mut fabric),
        Some(NetworkEvent::OutboundEstablished { peer_id: node_key(2) })
    );
    assert_eq!(
        probe.poll(&mut fabric),
        Some(NetworkEvent::MessageReceived {
            peer_id: node_key(2),
            message: ProtocolMessage::PeerList { peers: vec![node_key(1), node_key(9)] },
        })
    );
}

#[test]
fn outbound_failure_leaves_the_peer_tracked_as_disconnected() {
    let mut fabric = node_fabric(0);
    let mut a = node_on(&mut fabric, 1, &[]);
    assert_eq!(
        a.on_network_event(&mut fabric, &NetworkEvent::OutboundFailure { peer_id: node_key(2) }),
        NodeEvent::Noop
    );
    assert_eq!(
        a.peer_list_manager().peer_info(node_key(2)),
        Some(PeerInfo { reputation: 0, state: PeerState::Disconnected, dial_attempts: 0 })
    );
    assert!(a.connections().is_empty());
}

#[test]
fn outbound_failure_of_oneself_is_ignored() {
    let mut fabric = node_fabric(0);
    let mut a = node_on(&mut fabric, 1, &[]);
    assert_eq!(
        a.on_network_event(&mut fabric, &NetworkEvent::OutboundFailure { peer_id: node_key(1) }),
        NodeEvent::Noop
    );
    assert!(a.peer_list_manager().tracked_peers().is_empty());
}

#[test]
fn lost_peer_is_reported_and_held_as_disconnected() {
    let mut fabric = node_fabric(0);
    let (mut a, _b) = node_pair(&mut fabric);
    assert_eq!(
        a.on_network_event(&mut fabric, &NetworkEvent::PeerDisconnected { peer_id: node_key(2) }),
        NodeEvent::PeerDisconnected { peer_id: node_key(2) }
    );
    assert!(a.connections().is_empty());
    assert_eq!(a.peer_list_manager().tracked_peers(), vec![node_key(2)]);
}

#[test]
fn peer_list_message_registers_its_peers_but_not_the_node_itself() {
    let mut fabric = node_fabric(0);
    let (mut a, _b) = node_pair(&mut fabric);
    let message = ProtocolMessage::PeerList {
        peers: vec![node_key(5), node_key(1), node_key(2), node_key(6), node_key(5)],
    };
    assert_eq!(
        a.on_network_event(
            &mut fabric,
            &NetworkEvent::MessageReceived { peer_id: node_key(2), message }
        ),
        NodeEvent::Noop
    );
    assert_eq!(
        a.peer_list_manager().tracked_peers(),
        vec![node_key(2), node_key(5), node_key(6)]
    );
    assert_eq!(a.connections(), vec![node_key(2)]);
    assert_eq!(
        a.peer_list_manager().peer_info(node_key(5)).map(|info| info.state),
        Some(PeerState::Disconnected)
    );
}

#[test]
fn data_message_changes_nothing() {
    let mut fabric = node_fabric(0);
    let (mut a, _b) = node_pair(&mut fabric);
    assert_eq!(
        a.on_network_event(
            &mut fabric,
            &NetworkEvent::MessageReceived {
                peer_id: node_key(9),
                message: ProtocolMessage::Data { bytes: vec![7] },
            }
        ),
        NodeEvent::Noop
    );
    assert_eq!(a.peer_list_manager().tracked_peers(), vec![node_key(2)]);
    assert_eq!(a.connections(), vec![node_key(2)]);
    assert_eq!(fabric.pending_dials(), 0);
}

#[test]
fn data_message_travels_through_the_fabric_to_the_node() {
    let mut fabric = node_fabric(0);
    let (mut a, _b) = node_pair(&mut fabric);
    let mut sender = SimNetworkClient::build(
        SimRng::new(RngSeed(5)),
        &mut fabric,
        (node_key(9), String::from("/memory/9")),
    );
    assert_eq!(fabric.schedule_dial(node_key(9), node_key(1), 100, false), Ok(()));
    fabric.step(2099);
    assert_eq!(
        sender.poll(&mut fabric),
        Some(NetworkEvent::OutboundEstablished { peer_id: node_key(1) })
    );
    assert_eq!(
        sender.send(&mut fabric, node_key(1), ProtocolMessage::Data { bytes: vec![1, 2] }),
        Ok(())
    );
    assert_eq!(
        a.poll(&mut fabric, 1999),
        Ok(Some(NodeEvent::InboundEstablished { peer_id: node_key(9) }))
    );
    assert_eq!(a.connections(), vec![node_key(2), node_key(9)]);
    assert_eq!(fabric.unread_messages(node_key(1)), 1);
    assert_eq!(a.poll(&mut fabric, 1999), Ok(Some(NodeEvent::Noop)));
    assert_eq!(fabric.unread_messages(node_key(1)), 0);
    assert_eq!(a.connections(), vec![node_key(2), node_key(9)]);
    assert_eq!(a.poll(&mut fabric, 1999), Ok(None));
}

#[test]
fn dial_that_the_manager_asks_for_is_scheduled() {
    let mut fabric = node_fabric(0);
    let (mut a, _b) = node_pair(&mut fabric);
    let _c = node_on(&mut fabric, 3, &[]);
    assert_eq!(a.on_plm_event(&mut fabric, PeerListManagerEvent::Dial(node_key(3))), Ok(()));
    assert_eq!(fabric.pending_dials(), 1);
    assert!(a.peer_list_manager().tracked_peers() == vec![node_key(2)]);
}

#[test]
fn dial_to_a_peer_that_the_fabric_does_not_know_is_peer_not_found() {
    let mut fabric = node_fabric(0);
    let (mut a, _b) = node_pair(&mut fabric);
    assert_eq!(
        a.on_plm_event(&mut fabric, PeerListManagerEvent::Dial(node_key(7))),
        Err(NetworkError::PeerNotFound)
    );
    assert_eq!(fabric.pending_dials(), 0);
}

#[test]
fn node_reports_a_dial_that_cannot_be_made() {
    let mut fabric = node_fabric(0);
    let (mut a, _b) = node_pair(&mut fabric);
    let message = ProtocolMessage::PeerList { peers: vec![node_key(7)] };
    a.on_network_event(&mut fabric, &NetworkEvent::MessageReceived { peer_id: node_key(2), message });
    assert_eq!(a.poll(&mut fabric, 2500), Ok(Some(NodeEvent::Noop)));
    assert_eq!(fabric.unread_messages(node_key(2)), 1);
    assert!(a.peer_list_manager().is_tracked(node_key(7)));
    assert_eq!(a.poll(&mut fabric, 3000), Err(NetworkError::PeerNotFound));
    // The dial is given up: the manager has dropped the peer.
    assert_eq!(a.peer_list_manager().peer_info(node_key(7)), None);
    assert_eq!(a.peer_list_manager().tracked_peers(), vec![node_key(2)]);
    assert_eq!(a.connections(), vec![node_key(2)]);
    assert_eq!(fabric.pending_dials(), 0);
    assert_eq!(a.poll(&mut fabric, 4000), Ok(None));
}

#[test]
fn dial_to_a_connected_peer_changes_nothing() {
    let mut fabric = node_fabric(0);
    let (mut a, _b) = node_pair(&mut fabric);
    assert_eq!(a.on_plm_event(&mut fabric, PeerListManagerEvent::Dial(node_key(2))), Ok(()));
    assert_eq!(a.connections(), vec![node_key(2)]);
    assert_eq!(fabric.pending_dials(), 0);
    a.on_network_event(&mut fabric, &NetworkEvent::PeerDisconnected { peer_id: node_key(2) });
    assert!(a.connections().is_empty());
    assert_eq!(a.on_plm_event(&mut fabric, PeerListManagerEvent::Dial(node_key(2))), Ok(()));
    assert!(a.connections().is_empty());
    assert_eq!(
        a.peer_list_manager().peer_info(node_key(2)).map(|info| info.state),
        Some(PeerState::Disconnected)
    );
    assert_eq!(fabric.pending_dials(), 0);
}

#[test]
fn outbound_failure_leaves_a_connected_peer_connected() {
    let mut fabric = node_fabric(0);
    let (mut a, _b) = node_pair(&mut fabric);
    assert_eq!(
        a.on_network_event(&mut fabric, &NetworkEvent::OutboundFailure { peer_id: node_key(2) }),
        NodeEvent::Noop
    );
    assert_eq!(a.connections(), vec![node_key(2)]);
    assert_eq!(
        a.peer_list_manager().peer_info(node_key(2)).map(|info| info.state),
        Some(PeerState::Connected)
    );
}

#[test]
fn outbound_failure_sets_a_dialed_peer_back_to_disconnected() {
    let mut fabric = node_fabric(1);
    let (mut a, _c) = (node_on(&mut fabric, 1, &[]), node_on(&mut fabric, 3, &[]));
    assert_eq!(a.poll(&mut fabric, 0), Ok(Some(NodeEvent::Noop)));
    let message = ProtocolMessage::PeerList { peers: vec![node_key(3)] };
    a.on_network_event(&mut fabric, &NetworkEvent::MessageReceived { peer_id: node_key(3), message });
    assert_eq!(a.poll(&mut fabric, 1000), Ok(Some(NodeEvent::Noop)));
    assert_eq!(fabric.pending_dials(), 1);
    assert!(matches!(
        a.peer_list_manager().peer_info(node_key(3)).map(|info| info.state),
        Some(PeerState::Dialing(_))
    ));
    fabric.step(3000);
    assert_eq!(a.poll(&mut fabric, 1001), Ok(Some(NodeEvent::Noop)));
    assert_eq!(
        a.peer_list_manager().peer_info(node_key(3)),
        Some(PeerInfo { reputation: 0, state: PeerState::Disconnected, dial_attempts: 1 })
    );
}

#[test]
fn connections_change_on_network_events_alone() {
    let mut fabric = node_fabric(0);
    let (mut a, _b) = node_pair(&mut fabric);
    let _c = node_on(&mut fabric, 3, &[]);
    let before = a.connections();
    for event in [
        PeerListManagerEvent::SyncPeerList(node_key(2)),
        PeerListManagerEvent::Dial(node_key(2)),
        PeerListManagerEvent::Dial(node_key(3)),
        PeerListManagerEvent::Dial(node_key(7)),
        PeerListManagerEvent::Disconnect(node_key(2)),
        PeerListManagerEvent::PeerRemoved(node_key(2)),
    ] {
        let _ = a.on_plm_event(&mut fabric, event);
        assert_eq!(a.connections(), before);
    }
    for event in [
        NetworkEvent::OutboundFailure { peer_id: node_key(2) },
        NetworkEvent::OutboundFailure { peer_id: node_key(3) },
        NetworkEvent::MessageReceived {
            peer_id: node_key(2),
            message: ProtocolMessage::PeerList { peers: vec![node_key(3), node_key(5)] },
        },
        NetworkEvent::MessageReceived {
            peer_id: node_key(2),
            message: ProtocolMessage::Data { bytes: vec![1] },
        },
    ] {
        a.on_network_event(&mut fabric, &event);
        assert_eq!(a.connections(), before);
    }
    a.on_network_event(&mut fabric, &NetworkEvent::OutboundEstablished { peer_id: node_key(3) });
    assert_eq!(a.connections(), vec![node_key(2), node_key(3)]);
    a.on_network_event(&mut fabric, &NetworkEvent::PeerDisconnected { peer_id: node_key(2) });
    assert_eq!(a.connections(), vec![node_key(3)]);
    a.on_network_event(&mut fabric, &NetworkEvent::OutboundEstablished { peer_id: node_key(1) });
    assert_eq!(a.connections(), vec![node_key(3)]);
}

#[test]
fn poll_report_tells_what_the_manager_asked_and_the_endpoint_reported() {
    let mut fabric = node_fabric(0);
    let mut b = node_on(&mut fabric, 2, &[]);
    let mut a = node_on(&mut fabric, 1, &[2]);
    let booted = b.poll_reported(&mut fabric, 0);
    assert_eq!(
        booted,
        PollReport { asked: None, heard: None, result: Ok(Some(NodeEvent::Noop)) }
    );
    assert_eq!(a.poll_reported(&mut fabric, 0).result, Ok(Some(NodeEvent::Noop)));
    assert_eq!(
        a.poll_reported(&mut fabric, 10),
        PollReport { asked: None, heard: None, result: Ok(None) }
    );
    fabric.step(2000);
    assert_eq!(
        a.poll_reported(&mut fabric, 20),
        PollReport {
            asked: None,
            heard: Some(NetworkEvent::OutboundEstablished { peer_id: node_key(2) }),
            result: Ok(Some(NodeEvent::Noop)),
        }
    );
    assert_eq!(
        b.poll_reported(&mut fabric, 20),
        PollReport {
            asked: None,
            heard: Some(NetworkEvent::InboundEstablished { peer_id: node_key(1) }),
            result: Ok(Some(NodeEvent::InboundEstablished { peer_id: node_key(1) })),
        }
    );
    assert_eq!(
        a.poll_reported(&mut fabric, 2000),
        PollReport {
            asked: Some(PeerListManagerEvent::SyncPeerList(node_key(2))),
            heard: Some(NetworkEvent::MessageReceived {
                peer_id: node_key(2),
                message: ProtocolMessage::PeerList { peers: vec![node_key(1)] },
            }),
            result: Ok(Some(NodeEvent::Noop)),
        }
    );
    let message = ProtocolMessage::PeerList { peers: vec![node_key(7)] };
    a.on_network_event(&mut fabric, &NetworkEvent::MessageReceived { peer_id: node_key(2), message });
    assert_eq!(
        a.poll_reported(&mut fabric, 3000),
        PollReport {
            asked: Some(PeerListManagerEvent::Dial(node_key(7))),
            heard: None,
            result: Err(NetworkError::PeerNotFound),
        }
    );
}

#[test]
fn gossip_sends_the_connected_peers() {
    let mut fabric = node_fabric(0);
    let (mut a, _b) = node_pair(&mut fabric);
    assert_eq!(
        a.on_plm_event(&mut fabric, PeerListManagerEvent::SyncPeerList(node_key(2))),
        Ok(())
    );
    assert_eq!(fabric.unread_messages(node_key(2)), 1);
    assert_eq!(
        a.on_plm_event(&mut fabric, PeerListManagerEvent::SyncPeerList(node_key(8))),
        Ok(())
    );
    assert_eq!(fabric.unread_messages(node_key(8)), 0);
}

#[test]
fn informational_manager_events_change_nothing() {
    let mut fabric = node_fabric(0);
    let (mut a, _b) = node_pair(&mut fabric);
    for event in [
        PeerListManagerEvent::PeerAdded(node_key(3), 0),
        PeerListManagerEvent::PeerRemoved(node_key(2)),
        PeerListManagerEvent::PeerReputationUpdated(node_key(2), 4),
        PeerListManagerEvent::Disconnect(node_key(2)),
    ] {
        assert_eq!(a.on_plm_event(&mut fabric, event), Ok(()));
    }
    assert_eq!(a.connections(), vec![node_key(2)]);
    assert!(a.network().is_connected(node_key(2)));
    assert_eq!(fabric.pending_dials(), 0);
    assert_eq!(fabric.unread_messages(node_key(2)), 0);
}

#[test]
fn connecting_node_gossips_when_its_timer_fires() {
    let mut fabric = node_fabric(0);
    let (mut a, mut b) = node_pair(&mut fabric);
    assert_eq!(a.poll(&mut fabric, 2000), Ok(Some(NodeEvent::Noop)));
    assert_eq!(fabric.unread_messages(node_key(2)), 1);
    assert_eq!(b.poll(&mut fabric, 1999), Ok(Some(NodeEvent::Noop)));
    assert_eq!(fabric.unread_messages(node_key(2)), 0);
    assert_eq!(b.peer_list_manager().tracked_peers(), vec![node_key(1)]);
}

#[test]
fn failed_bootnode_dial_is_tried_again_after_the_dial_interval() {
    let mut fabric = node_fabric(1);
    let mut b = node_on(&mut fabric, 2, &[]);
    let mut a = node_on(&mut fabric, 1, &[2]);
    assert_eq!(b.poll(&mut fabric, 0), Ok(Some(NodeEvent::Noop)));
    assert_eq!(a.poll(&mut fabric, 0), Ok(Some(NodeEvent::Noop)));
    fabric.step(2000);
    assert_eq!(fabric.unread_events(node_key(2)), 0);
    assert_eq!(a.poll(&mut fabric, 2000), Ok(Some(NodeEvent::Noop)));
    assert_eq!(
        a.peer_list_manager().peer_info(node_key(2)),
        Some(PeerInfo { reputation: 0, state: PeerState::Disconnected, dial_attempts: 0 })
    );
    assert_eq!(fabric.pending_dials(), 0);
    assert_eq!(a.poll(&mut fabric, 2010), Ok(None));
    assert_eq!(a.poll(&mut fabric, 2999), Ok(None));
    assert_eq!(fabric.pending_dials(), 0);
    assert_eq!(a.poll(&mut fabric, 3000), Ok(Some(NodeEvent::Noop)));
    assert_eq!(fabric.pending_dials(), 1);
    assert_eq!(
        a.peer_list_manager().peer_info(node_key(2)).map(|info| info.dial_attempts),
        Some(1)
    );
    assert!(a.connections().is_empty());
    assert!(b.connections().is_empty());
    assert!(b.peer_list_manager().tracked_peers().is_empty());
}
