use c2n::network::memory::MemoryNetwork;
use c2n::network::sim::SimNetwork;
use c2n::network::sim::SimNetworkClient;
use c2n::network::sim::SimNetworkConfig;
use c2n::network::Network;
use c2n::network::NetworkError;
use c2n::network::NetworkEvent;
use c2n::network::ProtocolMessage;
use c2n::primitives::Pubkey;
use c2n::rng::RngSeed;
use c2n::rng::SimRng;

fn net_key(tag: u8) -> Pubkey {
    let mut bytes = [0u8; 32];
    bytes[0] = tag;
    Pubkey::from_bytes(bytes)
}

fn net_config(fail_numerator: u32, fail_denominator: u32) -> SimNetworkConfig {
    SimNetworkConfig {
        connection_delay_min: 100,
        connection_delay_max: 2000,
        fail_numerator,
        fail_denominator,
    }
}

fn net_fabric(seed: u64, fail_numerator: u32) -> SimNetwork {
    SimNetwork::build_with_config(SimRng::new(RngSeed(seed)), net_config(fail_numerator, 1))
}

fn net_client(fabric: &mut SimNetwork, tag: u8) -> SimNetworkClient {
    SimNetworkClient::build(
        SimRng::new(RngSeed(tag as u64)),
        fabric,
        (net_key(tag), format!("/memory/{}", tag)),
    )
}

/// Two endpoints with a connection from the first to the second, and all
/// events of the dial read.
fn net_connected_pair(seed: u64) -> (SimNetwork, SimNetworkClient, SimNetworkClient) {
    let mut fabric = net_fabric(seed, 0);
    let mut a = net_client(&mut fabric, 1);
    let mut b = net_client(&mut fabric, 2);
    assert_eq!(a.connect(&mut fabric, net_key(2)), Ok(()));
    fabric.step(2000);
    assert_eq!(
        a.poll(&mut fabric),
        Some(NetworkEvent::OutboundEstablished { peer_id: net_key(2) })
    );
    assert_eq!(
        b.poll(&mut fabric),
        Some(NetworkEvent::InboundEstablished { peer_id: net_key(1) })
    );
    (fabric, a, b)
}

#[test]
fn default_settings_are_100_to_2000_ms_and_one_failure_in_ten() {
    let config = SimNetworkConfig::default();
    assert_eq!(config.connection_delay_min, 100);
    assert_eq!(config.connection_delay_max, 2000);
    assert_eq!(config.fail_numerator, 1);
    assert_eq!(config.fail_denominator, 10);
    assert!(config.is_valid());
    let fabric = SimNetwork::build(SimRng::new(RngSeed(0)));
    assert_eq!(fabric.config(), config);
    assert_eq!(fabric.now(), 0);
    assert_eq!(fabric.pending_dials(), 0);
}

#[test]
fn settings_with_an_empty_delay_range_or_a_bad_fraction_are_not_valid() {
    let mut config = net_config(1, 10);
    config.connection_delay_min = 2000;
    assert!(!config.is_valid());
    assert!(!net_config(1, 0).is_valid());
    assert!(!net_config(3, 2).is_valid());
    assert!(net_config(0, 1).is_valid());
    assert!(net_config(1, 1).is_valid());
}

#[test]
fn step_on_a_fabric_without_clients_only_moves_the_clock() {
    let mut fabric = SimNetwork::build(SimRng::new(RngSeed(0)));
    fabric.step(5000);
    assert_eq!(fabric.now(), 5000);
    assert_eq!(fabric.pending_dials(), 0);
    assert!(!fabric.is_registered(net_key(1)));
    assert_eq!(fabric.unread_events(net_key(1)), 0);
    assert_eq!(fabric.unread_messages(net_key(1)), 0);
}

#[test]
fn registered_peers_lists_every_endpoint_once() {
    let mut fabric = net_fabric(0, 0);
    assert!(fabric.registered_peers().is_empty());
    let _a = net_client(&mut fabric, 3);
    let b = net_client(&mut fabric, 1);
    let _c = net_client(&mut fabric, 2);
    fabric.register_client(&b);
    assert_eq!(fabric.registered_peers(), vec![net_key(3), net_key(1), net_key(2)]);
}

#[test]
fn endpoint_keeps_its_address() {
    let (mut fabric, mut a, _b) = net_connected_pair(5);
    a.add_peer(net_key(3), (net_key(3), String::from("/memory/3")));
    let _ = a.connect(&mut fabric, net_key(2));
    let _ = a.send(&mut fabric, net_key(2), ProtocolMessage::Data { bytes: vec![1] });
    let _ = a.disconnect(&mut fabric, net_key(2));
    let _ = a.poll(&mut fabric);
    assert_eq!(*a.address(), (net_key(1), String::from("/memory/1")));
    assert_eq!(a.peer_id(), net_key(1));
}

#[test]
fn building_a_client_registers_it() {
    let mut fabric = net_fabric(0, 0);
    assert!(!fabric.is_registered(net_key(1)));
    let client = net_client(&mut fabric, 1);
    assert!(fabric.is_registered(net_key(1)));
    assert_eq!(client.peer_id(), net_key(1));
    assert_eq!(client.address().1, "/memory/1");
    assert!(!client.is_connected(net_key(2)));
    assert_eq!(fabric.unread_events(net_key(1)), 0);
}

#[test]
fn successful_dial_tells_both_ends_in_the_same_step() {
    let mut fabric = net_fabric(7, 0);
    let mut a = net_client(&mut fabric, 1);
    let mut b = net_client(&mut fabric, 2);
    assert_eq!(a.connect(&mut fabric, net_key(2)), Ok(()));
    assert_eq!(fabric.pending_dials(), 1);
    assert_eq!(a.poll(&mut fabric), None);
    assert_eq!(b.poll(&mut fabric), None);
    fabric.step(2000);
    assert_eq!(fabric.pending_dials(), 0);
    assert_eq!(fabric.unread_events(net_key(1)), 1);
    assert_eq!(fabric.unread_events(net_key(2)), 1);
    assert_eq!(
        a.poll(&mut fabric),
        Some(NetworkEvent::OutboundEstablished { peer_id: net_key(2) })
    );
    assert_eq!(
        b.poll(&mut fabric),
        Some(NetworkEvent::InboundEstablished { peer_id: net_key(1) })
    );
    assert!(a.is_connected(net_key(2)));
    assert!(b.is_connected(net_key(1)));
    assert_eq!(a.poll(&mut fabric), None);
    assert_eq!(b.poll(&mut fabric), None);
}

#[test]
fn failed_dial_tells_the_dialer_alone() {
    let mut fabric = net_fabric(7, 1);
    let mut a = net_client(&mut fabric, 1);
    let mut b = net_client(&mut fabric, 2);
    assert_eq!(a.connect(&mut fabric, net_key(2)), Ok(()));
    fabric.step(2000);
    assert_eq!(fabric.pending_dials(), 0);
    assert_eq!(fabric.unread_events(net_key(2)), 0);
    assert_eq!(
        a.poll(&mut fabric),
        Some(NetworkEvent::OutboundFailure { peer_id: net_key(2) })
    );
    assert_eq!(b.poll(&mut fabric), None);
    assert!(!a.is_connected(net_key(2)));
    assert!(!b.is_connected(net_key(1)));
}

#[test]
fn dial_ripens_no_sooner_than_100_ms_and_before_2000_ms() {
    for seed in 0..50u64 {
        let mut fabric = net_fabric(seed, 0);
        let mut a = net_client(&mut fabric, 1);
        let _b = net_client(&mut fabric, 2);
        fabric.step(500);
        assert_eq!(a.connect(&mut fabric, net_key(2)), Ok(()));
        fabric.step(599);
        assert_eq!(fabric.pending_dials(), 1, "seed {}", seed);
        fabric.step(2499);
        assert_eq!(fabric.pending_dials(), 0, "seed {}", seed);
    }
}

#[test]
fn dial_delays_vary_with_the_seed() {
    let mut ripened_at: Vec<u64> = Vec::new();
    for seed in 0..50u64 {
        let mut fabric = net_fabric(seed, 0);
        let mut a = net_client(&mut fabric, 1);
        let _b = net_client(&mut fabric, 2);
        assert_eq!(a.connect(&mut fabric, net_key(2)), Ok(()));
        let mut now = 0;
        while fabric.pending_dials() > 0 {
            now += 1;
            fabric.step(now);
        }
        assert!(now >= 100 && now < 2000);
        if !ripened_at.contains(&now) {
            ripened_at.push(now);
        }
    }
    assert!(ripened_at.len() > 10);
}

#[test]
fn one_dial_in_ten_fails_with_the_default_settings() {
    let mut failures = 0;
    for seed in 0..400u64 {
        let mut fabric = SimNetwork::build(SimRng::new(RngSeed(seed)));
        let mut a = net_client(&mut fabric, 1);
        let _b = net_client(&mut fabric, 2);
        assert_eq!(a.connect(&mut fabric, net_key(2)), Ok(()));
        fabric.step(2000);
        if a.poll(&mut fabric) == Some(NetworkEvent::OutboundFailure { peer_id: net_key(2) }) {
            failures += 1;
        }
    }
    assert!(failures > 10 && failures < 100, "{} failures", failures);
}

#[test]
fn scheduled_dial_ripens_exactly_after_its_delay() {
    let mut fabric = net_fabric(0, 0);
    let _a = net_client(&mut fabric, 1);
    let _b = net_client(&mut fabric, 2);
    fabric.step(40);
    assert_eq!(fabric.schedule_dial(net_key(1), net_key(2), 150, false), Ok(()));
    fabric.step(189);
    assert_eq!(fabric.pending_dials(), 1);
    assert_eq!(fabric.unread_events(net_key(1)), 0);
    fabric.step(190);
    assert_eq!(fabric.pending_dials(), 0);
    assert_eq!(fabric.unread_events(net_key(1)), 1);
    assert_eq!(fabric.unread_events(net_key(2)), 1);
}

#[test]
fn dials_resolve_in_the_order_of_their_ripening() {
    let mut fabric = net_fabric(0, 0);
    let _a = net_client(&mut fabric, 1);
    let mut b = net_client(&mut fabric, 2);
    let _c = net_client(&mut fabric, 3);
    let _d = net_client(&mut fabric, 4);
    assert_eq!(fabric.schedule_dial(net_key(1), net_key(2), 300, false), Ok(()));
    assert_eq!(fabric.schedule_dial(net_key(3), net_key(2), 100, false), Ok(()));
    assert_eq!(fabric.schedule_dial(net_key(4), net_key(2), 300, false), Ok(()));
    fabric.step(1000);
    assert_eq!(
        b.poll(&mut fabric),
        Some(NetworkEvent::InboundEstablished { peer_id: net_key(3) })
    );
    assert_eq!(
        b.poll(&mut fabric),
        Some(NetworkEvent::InboundEstablished { peer_id: net_key(1) })
    );
    assert_eq!(
        b.poll(&mut fabric),
        Some(NetworkEvent::InboundEstablished { peer_id: net_key(4) })
    );
    assert_eq!(b.poll(&mut fabric), None);
}

#[test]
fn step_leaves_unripe_dials_pending() {
    let mut fabric = net_fabric(0, 0);
    let _a = net_client(&mut fabric, 1);
    let mut b = net_client(&mut fabric, 2);
    let _c = net_client(&mut fabric, 3);
    assert_eq!(fabric.schedule_dial(net_key(1), net_key(2), 500, false), Ok(()));
    assert_eq!(fabric.schedule_dial(net_key(3), net_key(2), 200, true), Ok(()));
    fabric.step(200);
    assert_eq!(fabric.pending_dials(), 1);
    assert_eq!(fabric.unread_events(net_key(3)), 1);
    assert_eq!(b.poll(&mut fabric), None);
    fabric.step(500);
    assert_eq!(fabric.pending_dials(), 0);
    assert_eq!(
        b.poll(&mut fabric),
        Some(NetworkEvent::InboundEstablished { peer_id: net_key(1) })
    );
}

#[test]
fn schedule_dial_to_an_unknown_peer_is_peer_not_found() {
    let mut fabric = net_fabric(0, 0);
    let _a = net_client(&mut fabric, 1);
    assert_eq!(
        fabric.schedule_dial(net_key(1), net_key(9), 100, false),
        Err(NetworkError::PeerNotFound)
    );
    assert_eq!(
        fabric.schedule_dial(net_key(9), net_key(1), 100, false),
        Err(NetworkError::PeerNotFound)
    );
    assert_eq!(fabric.pending_dials(), 0);
}

#[test]
fn connect_to_an_unknown_peer_is_peer_not_found() {
    let mut fabric = net_fabric(0, 0);
    let mut a = net_client(&mut fabric, 1);
    assert_eq!(a.connect(&mut fabric, net_key(9)), Err(NetworkError::PeerNotFound));
    assert_eq!(fabric.connect(net_key(8), net_key(1)), Err(NetworkError::PeerNotFound));
    assert_eq!(fabric.pending_dials(), 0);
}

#[test]
fn connect_to_a_connected_peer_is_already_connected() {
    let (mut fabric, mut a, mut b) = net_connected_pair(3);
    assert_eq!(
        a.connect(&mut fabric, net_key(2)),
        Err(NetworkError::AlreadyConnected(net_key(2)))
    );
    assert_eq!(
        b.connect(&mut fabric, net_key(1)),
        Err(NetworkError::AlreadyConnected(net_key(1)))
    );
    assert_eq!(fabric.pending_dials(), 0);
}

#[test]
fn connect_twice_before_the_first_dial_ripens_schedules_two_dials() {
    let mut fabric = net_fabric(0, 0);
    let mut a = net_client(&mut fabric, 1);
    let _b = net_client(&mut fabric, 2);
    assert_eq!(a.connect(&mut fabric, net_key(2)), Ok(()));
    assert_eq!(a.connect(&mut fabric, net_key(2)), Ok(()));
    assert_eq!(fabric.pending_dials(), 2);
}

#[test]
fn send_without_a_connection_is_not_connected() {
    let mut fabric = net_fabric(0, 0);
    let mut a = net_client(&mut fabric, 1);
    let _b = net_client(&mut fabric, 2);
    let message = ProtocolMessage::Data { bytes: vec![1, 2, 3] };
    assert_eq!(a.send(&mut fabric, net_key(2), message), Err(NetworkError::NotConnected));
    assert_eq!(fabric.unread_messages(net_key(2)), 0);
}

#[test]
fn messages_arrive_in_the_order_in_which_they_were_sent() {
    let (mut fabric, mut a, mut b) = net_connected_pair(5);
    let first = ProtocolMessage::PeerList { peers: vec![net_key(7), net_key(8)] };
    let second = ProtocolMessage::Data { bytes: vec![9, 9] };
    let third = ProtocolMessage::PeerList { peers: vec![] };
    assert_eq!(a.send(&mut fabric, net_key(2), first), Ok(()));
    assert_eq!(a.send(&mut fabric, net_key(2), second), Ok(()));
    assert_eq!(a.send(&mut fabric, net_key(2), third), Ok(()));
    assert_eq!(fabric.unread_messages(net_key(2)), 3);
    assert_eq!(
        b.poll(&mut fabric),
        Some(NetworkEvent::MessageReceived {
            peer_id: net_key(1),
            message: ProtocolMessage::PeerList { peers: vec![net_key(7), net_key(8)] },
        })
    );
    assert_eq!(
        b.poll(&mut fabric),
        Some(NetworkEvent::MessageReceived {
            peer_id: net_key(1),
            message: ProtocolMessage::Data { bytes: vec![9, 9] },
        })
    );
    assert_eq!(
        b.poll(&mut fabric),
        Some(NetworkEvent::MessageReceived {
            peer_id: net_key(1),
            message: ProtocolMessage::PeerList { peers: vec![] },
        })
    );
    assert_eq!(b.poll(&mut fabric), None);
    assert_eq!(a.poll(&mut fabric), None);
}

#[test]
fn connection_carries_messages_both_ways() {
    let (mut fabric, mut a, mut b) = net_connected_pair(5);
    assert_eq!(
        b.send(&mut fabric, net_key(1), ProtocolMessage::Data { bytes: vec![4] }),
        Ok(())
    );
    assert_eq!(
        a.poll(&mut fabric),
        Some(NetworkEvent::MessageReceived {
            peer_id: net_key(2),
            message: ProtocolMessage::Data { bytes: vec![4] },
        })
    );
    assert_eq!(b.poll(&mut fabric), None);
}

#[test]
fn events_are_read_before_messages() {
    let (mut fabric, mut a, mut b) = net_connected_pair(5);
    let _c = net_client(&mut fabric, 3);
    assert_eq!(
        a.send(&mut fabric, net_key(2), ProtocolMessage::Data { bytes: vec![1] }),
        Ok(())
    );
    assert_eq!(fabric.schedule_dial(net_key(3), net_key(2), 100, false), Ok(()));
    fabric.step(5000);
    assert_eq!(
        b.poll(&mut fabric),
        Some(NetworkEvent::InboundEstablished { peer_id: net_key(3) })
    );
    assert_eq!(
        b.poll(&mut fabric),
        Some(NetworkEvent::MessageReceived {
            peer_id: net_key(1),
            message: ProtocolMessage::Data { bytes: vec![1] },
        })
    );
    assert_eq!(b.poll(&mut fabric), None);
}

#[test]
fn registering_an_identity_again_starts_with_empty_queues() {
    let (mut fabric, mut a, b) = net_connected_pair(5);
    assert_eq!(
        a.send(&mut fabric, net_key(2), ProtocolMessage::Data { bytes: vec![1] }),
        Ok(())
    );
    assert_eq!(fabric.unread_messages(net_key(2)), 1);
    fabric.register_client(&b);
    assert!(fabric.is_registered(net_key(2)));
    assert_eq!(fabric.unread_messages(net_key(2)), 0);
    assert_eq!(fabric.unread_events(net_key(2)), 0);
}

#[test]
fn dial_to_oneself_is_resolved_like_any_other() {
    let mut fabric = net_fabric(0, 0);
    let mut a = net_client(&mut fabric, 1);
    assert_eq!(fabric.schedule_dial(net_key(1), net_key(1), 100, false), Ok(()));
    fabric.step(100);
    assert_eq!(
        a.poll(&mut fabric),
        Some(NetworkEvent::OutboundEstablished { peer_id: net_key(1) })
    );
    assert_eq!(
        a.poll(&mut fabric),
        Some(NetworkEvent::InboundEstablished { peer_id: net_key(1) })
    );
    assert_eq!(a.poll(&mut fabric), None);
}

#[test]
fn add_peer_and_disconnect_change_nothing() {
    let (mut fabric, mut a, _b) = net_connected_pair(5);
    a.add_peer(net_key(3), (net_key(3), String::from("/memory/3")));
    assert!(!a.is_connected(net_key(3)));
    assert_eq!(a.disconnect(&mut fabric, net_key(2)), Ok(()));
    assert!(a.is_connected(net_key(2)));
    assert_eq!(fabric.pending_dials(), 0);
}

#[test]
fn error_messages_name_the_error() {
    assert_eq!(NetworkError::AlreadyConnected(net_key(1)).message(), "already connected");
    assert_eq!(NetworkError::PeerNotFound.message(), "peer not found");
    assert_eq!(NetworkError::NotConnected.message(), "not connected");
}

#[test]
fn memory_network_accepts_everything_and_reports_nothing() {
    let mut network = MemoryNetwork::new();
    let mut fabric = ();
    network.add_peer(net_key(1), (net_key(1), String::from("/memory/1")));
    assert_eq!(network.connect(&mut fabric, net_key(1)), Ok(()));
    assert_eq!(
        network.send(&mut fabric, net_key(1), ProtocolMessage::Data { bytes: vec![1] }),
        Ok(())
    );
    assert_eq!(network.disconnect(&mut fabric, net_key(1)), Ok(()));
    assert_eq!(network.poll(&mut fabric), None);
    let mut other = MemoryNetwork::default();
    assert_eq!(other.poll(&mut fabric), None);
}
