use c2n::peer_list_manager::simple::DialInfo;
use c2n::peer_list_manager::simple::PeerInfo;
use c2n::peer_list_manager::simple::PeerState;
use c2n::peer_list_manager::simple::SimplePeerListManager;
use c2n::peer_list_manager::PeerListManager;
use c2n::peer_list_manager::PeerListManagerConfig;
use c2n::peer_list_manager::PeerListManagerEvent;
use c2n::primitives::Pubkey;
use c2n::rng::RngSeed;
use c2n::rng::SimRng;
use c2n::timer::IntervalTimer;

fn plm_key(tag: u8) -> Pubkey {
    let mut bytes = [0u8; 32];
    bytes[31] = tag;
    Pubkey::from_bytes(bytes)
}

fn plm_new(seed: u64) -> SimplePeerListManager {
    SimplePeerListManager::build(SimRng::new(RngSeed(seed)))
}

fn plm_with_connected(seed: u64, tags: &[u8]) -> SimplePeerListManager {
    let mut manager = plm_new(seed);
    for tag in tags {
        manager.register_peer_connected(plm_key(*tag));
    }
    manager
}

fn plm_keys(tags: &[u8]) -> Vec<Pubkey> {
    tags.iter().map(|tag| plm_key(*tag)).collect()
}

#[test]
fn default_manager_settings() {
    let config = PeerListManagerConfig::default();
    assert_eq!(config.max_peers, 10);
    assert_eq!(config.exchange_peers, 4);
    assert_eq!(config.exchange_peers_interval, 2000);
    assert_eq!(config.dial_interval, 1000);
    assert_eq!(config.churn_threshold, 2);
    assert_eq!(config.churn_interval, 10000);
    assert_eq!(config.dial_max_in_flight, 2);
}

#[test]
fn new_manager_first_dials_after_one_second_and_gossips_after_two() {
    let mut dialing = plm_new(0);
    dialing.register_peer(plm_key(1));
    assert_eq!(dialing.poll(999), None);
    assert_eq!(dialing.poll(1000), Some(PeerListManagerEvent::Dial(plm_key(1))));
    let mut gossiping = plm_with_connected(0, &[1]);
    assert_eq!(gossiping.poll(1999), None);
    assert_eq!(gossiping.poll(2000), Some(PeerListManagerEvent::SyncPeerList(plm_key(1))));
}

#[test]
fn new_manager_tracks_nobody() {
    let mut manager = plm_new(0);
    assert!(manager.tracked_peers().is_empty());
    assert!(manager.connections().is_empty());
    assert!(manager.connected_peers().is_empty());
    assert!(!manager.is_tracked(plm_key(1)));
    assert!(!manager.is_excluded(plm_key(1)));
    assert_eq!(manager.peer_info(plm_key(1)), None);
    assert_eq!(manager.get_random_connected_peer(), None);
}

#[test]
fn registered_peer_starts_disconnected_with_reputation_zero() {
    let mut manager = plm_new(0);
    manager.register_peer(plm_key(1));
    assert_eq!(
        manager.peer_info(plm_key(1)),
        Some(PeerInfo { reputation: 0, state: PeerState::Disconnected, dial_attempts: 0 })
    );
    assert_eq!(manager.tracked_peers(), plm_keys(&[1]));
    assert!(manager.connections().is_empty());
}

#[test]
fn register_peer_twice_is_the_same_as_once() {
    let mut once = plm_new(0);
    once.register_peer(plm_key(1));
    once.register_peer(plm_key(2));
    let mut twice = plm_new(0);
    twice.register_peer(plm_key(1));
    twice.register_peer(plm_key(2));
    twice.register_peer(plm_key(1));
    twice.register_peer(plm_key(2));
    assert_eq!(twice.tracked_peers(), once.tracked_peers());
    assert_eq!(twice.tracked_peers(), plm_keys(&[1, 2]));
    assert_eq!(twice.peer_info(plm_key(1)), once.peer_info(plm_key(1)));
}

#[test]
fn register_peer_keeps_the_state_of_a_known_peer() {
    let mut manager = plm_with_connected(0, &[1]);
    manager.update_peer_reputation(&plm_key(1), 5);
    manager.register_peer(plm_key(1));
    assert_eq!(
        manager.peer_info(plm_key(1)),
        Some(PeerInfo { reputation: 5, state: PeerState::Connected, dial_attempts: 0 })
    );
}

#[test]
fn excluded_peer_is_not_registered() {
    let mut manager = plm_new(0);
    manager.exclude_peer(plm_key(1));
    manager.register_peer(plm_key(1));
    assert!(manager.is_excluded(plm_key(1)));
    assert!(!manager.is_tracked(plm_key(1)));
    assert!(manager.tracked_peers().is_empty());
}

#[test]
fn excluding_a_tracked_peer_drops_it() {
    let mut manager = plm_with_connected(0, &[1, 2, 3]);
    manager.exclude_peer(plm_key(2));
    assert_eq!(manager.tracked_peers(), plm_keys(&[1, 3]));
    assert_eq!(manager.connections(), plm_keys(&[1, 3]));
    manager.register_peer(plm_key(2));
    manager.register_peer_connected(plm_key(2));
    assert_eq!(manager.tracked_peers(), plm_keys(&[1, 3]));
    assert_eq!(manager.connections(), plm_keys(&[1, 3]));
}

#[test]
fn connecting_an_excluded_peer_changes_nothing() {
    let mut manager = plm_new(0);
    manager.exclude_peer(plm_key(1));
    manager.register_peer_connected(plm_key(1));
    manager.register_peer_disconnected(plm_key(1));
    assert!(!manager.is_tracked(plm_key(1)));
    assert!(manager.connections().is_empty());
}

#[test]
fn connected_peer_is_registered_and_connected() {
    let mut manager = plm_new(0);
    manager.register_peer_connected(plm_key(1));
    assert_eq!(
        manager.peer_info(plm_key(1)),
        Some(PeerInfo { reputation: 0, state: PeerState::Connected, dial_attempts: 0 })
    );
    assert_eq!(manager.connections(), plm_keys(&[1]));
}

#[test]
fn connected_then_disconnected_peer_stays_tracked_as_disconnected() {
    let mut manager = plm_new(0);
    manager.register_peer_connected(plm_key(1));
    manager.register_peer_disconnected(plm_key(1));
    assert!(manager.is_tracked(plm_key(1)));
    assert_eq!(
        manager.peer_info(plm_key(1)),
        Some(PeerInfo { reputation: 0, state: PeerState::Disconnected, dial_attempts: 0 })
    );
    assert!(manager.connections().is_empty());
    assert_eq!(manager.tracked_peers(), plm_keys(&[1]));
}

#[test]
fn disconnecting_an_unknown_peer_changes_nothing() {
    let mut manager = plm_with_connected(0, &[1]);
    manager.register_peer_disconnected(plm_key(2));
    assert_eq!(manager.tracked_peers(), plm_keys(&[1]));
    assert_eq!(manager.connections(), plm_keys(&[1]));
}

#[test]
fn removed_peer_is_forgotten() {
    let mut manager = plm_with_connected(0, &[1, 2, 3]);
    manager.remove_peer(&plm_key(1));
    assert_eq!(manager.tracked_peers(), plm_keys(&[2, 3]));
    manager.remove_peer(&plm_key(9));
    assert_eq!(manager.tracked_peers(), plm_keys(&[2, 3]));
    manager.register_peer(plm_key(1));
    assert_eq!(manager.tracked_peers(), plm_keys(&[2, 3, 1]));
    assert_eq!(manager.connections(), plm_keys(&[2, 3]));
}

#[test]
fn reputation_adds_up() {
    let mut manager = plm_new(0);
    manager.register_peer(plm_key(1));
    manager.update_peer_reputation(&plm_key(1), 7);
    manager.update_peer_reputation(&plm_key(1), -10);
    assert_eq!(manager.peer_info(plm_key(1)).map(|info| info.reputation), Some(-3));
    manager.update_peer_reputation(&plm_key(2), 4);
    assert!(!manager.is_tracked(plm_key(2)));
}

#[test]
fn connections_follow_the_order_of_registration() {
    let mut manager = plm_new(0);
    manager.register_peer(plm_key(5));
    manager.register_peer_connected(plm_key(3));
    manager.register_peer(plm_key(4));
    manager.register_peer_connected(plm_key(1));
    manager.register_peer_connected(plm_key(5));
    assert_eq!(manager.tracked_peers(), plm_keys(&[5, 3, 4, 1]));
    assert_eq!(manager.connections(), plm_keys(&[5, 3, 1]));
    assert_eq!(manager.connected_peers(), plm_keys(&[5, 3, 1]));
}

#[test]
fn get_random_peers_zero_is_empty() {
    let mut manager = plm_with_connected(0, &[1, 2, 3]);
    assert!(manager.get_random_peers(0).is_empty());
    let mut empty = plm_new(0);
    assert!(empty.get_random_peers(0).is_empty());
    assert!(empty.get_random_peers(4).is_empty());
}

#[test]
fn get_random_peers_with_fewer_connected_returns_all_connected() {
    let mut manager = plm_with_connected(0, &[1, 2, 3]);
    manager.register_peer(plm_key(4));
    assert_eq!(manager.get_random_peers(3), plm_keys(&[1, 2, 3]));
    assert_eq!(manager.get_random_peers(4), plm_keys(&[1, 2, 3]));
    assert_eq!(manager.get_random_peers(100), plm_keys(&[1, 2, 3]));
}

#[test]
fn get_random_peers_draws_distinct_connected_peers() {
    for seed in 0..40u64 {
        let mut manager = plm_with_connected(seed, &[1, 2, 3, 4, 5, 6, 7, 8]);
        manager.register_peer(plm_key(20));
        let connected = manager.connections();
        let sample = manager.get_random_peers(4);
        assert_eq!(sample.len(), 4);
        for (i, peer) in sample.iter().enumerate() {
            assert!(connected.contains(peer));
            assert!(!sample[..i].contains(peer));
        }
        assert_eq!(manager.connections(), connected);
    }
}

#[test]
fn get_random_peers_reaches_every_connected_peer() {
    let mut seen = Vec::new();
    for seed in 0..200u64 {
        let mut manager = plm_with_connected(seed, &[1, 2, 3, 4, 5]);
        for peer in manager.get_random_peers(2) {
            if !seen.contains(&peer) {
                seen.push(peer);
            }
        }
    }
    assert_eq!(seen.len(), 5);
}

#[test]
fn get_random_connected_peer_is_connected() {
    for seed in 0..40u64 {
        let mut manager = plm_with_connected(seed, &[1, 2, 3]);
        manager.register_peer(plm_key(9));
        let picked = manager.get_random_connected_peer();
        assert!(matches!(picked, Some(peer) if plm_keys(&[1, 2, 3]).contains(&peer)));
    }
}

#[test]
fn poll_before_any_timer_fires_is_pending() {
    let mut manager = plm_with_connected(0, &[1]);
    manager.register_peer(plm_key(2));
    assert_eq!(manager.poll(0), None);
    assert_eq!(manager.poll(999), None);
    assert_eq!(manager.peer_info(plm_key(2)).map(|info| info.state), Some(PeerState::Disconnected));
}

#[test]
fn poll_asks_for_gossip_every_two_seconds() {
    let mut manager = plm_with_connected(0, &[1]);
    assert_eq!(manager.poll(1999), None);
    assert_eq!(manager.poll(2000), Some(PeerListManagerEvent::SyncPeerList(plm_key(1))));
    assert_eq!(manager.poll(2010), None);
    assert_eq!(manager.poll(3999), None);
    assert_eq!(manager.poll(4000), Some(PeerListManagerEvent::SyncPeerList(plm_key(1))));
    assert_eq!(manager.poll(5990), None);
    assert_eq!(manager.poll(6005), Some(PeerListManagerEvent::SyncPeerList(plm_key(1))));
    assert_eq!(manager.poll(8004), None);
    assert_eq!(manager.poll(8005), Some(PeerListManagerEvent::SyncPeerList(plm_key(1))));
}

#[test]
fn poll_asks_for_a_dial_to_the_first_disconnected_peer() {
    let mut manager = plm_new(0);
    manager.register_peer_connected(plm_key(1));
    manager.register_peer(plm_key(2));
    manager.register_peer(plm_key(3));
    assert_eq!(manager.poll(999), None);
    assert_eq!(manager.poll(1000), Some(PeerListManagerEvent::Dial(plm_key(2))));
    assert_eq!(
        manager.peer_info(plm_key(2)),
        Some(PeerInfo {
            reputation: 0,
            state: PeerState::Dialing(DialInfo { last_dial: Some(1000), attempts: 1 }),
            dial_attempts: 1,
        })
    );
    assert_eq!(manager.poll(1500), None);
    assert_eq!(manager.poll(2000), Some(PeerListManagerEvent::SyncPeerList(plm_key(1))));
    assert_eq!(manager.poll(2010), Some(PeerListManagerEvent::Dial(plm_key(3))));
    assert_eq!(
        manager.peer_info(plm_key(3)).map(|info| info.state),
        Some(PeerState::Dialing(DialInfo { last_dial: Some(2010), attempts: 1 }))
    );
}

#[test]
fn poll_with_gossip_timer_fired_and_nobody_connected_goes_on_to_dial() {
    let mut manager = plm_new(0);
    manager.register_peer(plm_key(2));
    assert_eq!(manager.poll(2500), Some(PeerListManagerEvent::Dial(plm_key(2))));
    assert_eq!(manager.poll(3400), None);
    assert_eq!(manager.poll(4500), None);
}

#[test]
fn no_more_than_two_dials_are_under_way() {
    let mut manager = plm_new(0);
    manager.register_peer(plm_key(1));
    manager.register_peer(plm_key(2));
    manager.register_peer(plm_key(3));
    assert_eq!(manager.poll(1000), Some(PeerListManagerEvent::Dial(plm_key(1))));
    assert_eq!(manager.poll(2000), Some(PeerListManagerEvent::Dial(plm_key(2))));
    assert_eq!(manager.poll(3000), None);
    assert_eq!(manager.poll(4000), None);
    manager.register_peer_connected(plm_key(1));
    assert_eq!(manager.poll(5000), Some(PeerListManagerEvent::Dial(plm_key(3))));
    assert_eq!(manager.poll(6000), Some(PeerListManagerEvent::SyncPeerList(plm_key(1))));
}

#[test]
fn failed_peer_is_dialed_again_with_one_more_attempt() {
    let mut manager = plm_new(0);
    manager.register_peer(plm_key(1));
    assert_eq!(manager.poll(1000), Some(PeerListManagerEvent::Dial(plm_key(1))));
    manager.register_peer_disconnected(plm_key(1));
    assert_eq!(
        manager.peer_info(plm_key(1)),
        Some(PeerInfo { reputation: 0, state: PeerState::Disconnected, dial_attempts: 1 })
    );
    assert_eq!(manager.poll(1999), None);
    assert_eq!(manager.poll(2000), Some(PeerListManagerEvent::Dial(plm_key(1))));
    assert_eq!(
        manager.peer_info(plm_key(1)),
        Some(PeerInfo {
            reputation: 0,
            state: PeerState::Dialing(DialInfo { last_dial: Some(2000), attempts: 2 }),
            dial_attempts: 2,
        })
    );
}

#[test]
fn timer_fires_once_its_interval_has_passed() {
    let mut timer = IntervalTimer::new(100, 50);
    assert!(!timer.has_fired(0));
    assert!(!timer.has_fired(149));
    assert!(timer.has_fired(150));
    assert!(timer.has_fired(10_000));
    timer.reset(150);
    assert_eq!(timer, IntervalTimer { armed_at: 150, interval: 50 });
    assert!(!timer.has_fired(199));
    assert!(timer.has_fired(200));
    let late = IntervalTimer::new(u64::MAX, u64::MAX);
    assert!(!late.has_fired(u64::MAX));
}
