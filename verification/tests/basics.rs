use c2n::address::memory_address;
use c2n::b58::Base58Encode;
use c2n::node_config::NodeConfig;
use c2n::node_config::NodeConfigBuilder;
use c2n::peer_list_manager::PeerListManagerConfig;
use c2n::primitives::find_key;
use c2n::primitives::Pubkey;
use c2n::rng::GeneratesRngSeed;
use c2n::rng::RngSeed;
use c2n::rng::SimRng;
use c2n::storage::sim::SimStorage;
use c2n::storage::Storage;

fn base_key(tag: u8) -> Pubkey {
    Pubkey::from_bytes([tag; 32])
}

#[test]
fn key_round_trips_through_its_bytes() {
    let mut bytes = [0u8; 32];
    bytes[0] = 7;
    bytes[31] = 9;
    let key = Pubkey::from_bytes(bytes);
    assert_eq!(key.to_bytes(), bytes);
}

#[test]
fn keys_are_equal_exactly_when_all_bytes_agree() {
    let mut bytes = [3u8; 32];
    let key = Pubkey::from_bytes(bytes);
    assert!(key == Pubkey::from_bytes([3u8; 32]));
    for i in 0..32 {
        bytes[i] = 4;
        assert!(key != Pubkey::from_bytes(bytes), "byte {}", i);
        bytes[i] = 3;
    }
}

#[test]
fn key_becomes_a_node_address() {
    let address = base_key(1).into_node_address(String::from("/memory/4"));
    assert_eq!(address, (base_key(1), String::from("/memory/4")));
}

#[test]
fn find_key_gives_the_first_position() {
    let keys = vec![base_key(1), base_key(2), base_key(1), base_key(3)];
    assert_eq!(find_key(&keys, base_key(1)), Some(0));
    assert_eq!(find_key(&keys, base_key(3)), Some(3));
    assert_eq!(find_key(&keys, base_key(4)), None);
    assert_eq!(find_key(&Vec::new(), base_key(1)), None);
}

#[test]
fn unique_keys_differ_and_repeat_with_the_seed() {
    let mut rng = SimRng::new(RngSeed(0));
    let first = Pubkey::unique(&mut rng);
    let second = Pubkey::unique(&mut rng);
    assert!(first != second);
    assert!(first != Pubkey::from_bytes([0u8; 32]));
    let mut again = SimRng::new(RngSeed(0));
    assert!(Pubkey::unique(&mut again) == first);
    assert!(Pubkey::unique(&mut again) == second);
    let mut other = SimRng::new(RngSeed(1));
    assert!(Pubkey::unique(&mut other) != first);
}

#[test]
fn split_generators_repeat_with_the_seed_and_differ_from_each_other() {
    let mut parent = SimRng::new(RngSeed(42));
    let mut child_a = parent.next_rng_seed();
    let mut child_b = parent.next_rng_seed();
    let a = Pubkey::unique(&mut child_a);
    let b = Pubkey::unique(&mut child_b);
    let p = Pubkey::unique(&mut parent);
    assert!(a != b);
    assert!(a != p);
    let mut parent_again = SimRng::new(RngSeed(42));
    let mut child_again = parent_again.next_rng_seed();
    assert!(Pubkey::unique(&mut child_again) == a);
}

#[test]
fn next_seed_reads_the_stream_of_the_generator() {
    let mut one = SimRng::new(RngSeed(5));
    let mut two = SimRng::new(RngSeed(5));
    let first = one.next_seed().0;
    assert_eq!(two.next_seed().0, first);
    let second = one.next_seed().0;
    assert_ne!(first, second);
    let mut child = SimRng::new(RngSeed(first));
    let mut split = SimRng::new(RngSeed(5)).next_rng_seed();
    assert!(Pubkey::unique(&mut child) == Pubkey::unique(&mut split));
}

#[test]
fn base58_of_known_bytes() {
    let bytes: [u8; 8] = [0x04, 0x30, 0x5e, 0x2b, 0x24, 0x73, 0xf0, 0x58];
    assert_eq!(bytes[..].bs58_encode(), "he11owor1d");
    let empty: [u8; 0] = [];
    assert_eq!(empty[..].bs58_encode(), "");
    assert_eq!([0u8, 0, 1][..].bs58_encode(), "112");
}

#[test]
fn base58_of_a_key() {
    let zero = Pubkey::from_bytes([0u8; 32]);
    assert_eq!(zero.bs58_encode(), "11111111111111111111111111111111");
    let mut bytes = [0u8; 32];
    bytes[31] = 58;
    assert_eq!(
        Pubkey::from_bytes(bytes).bs58_encode(),
        "111111111111111111111111111111121"
    );
    assert_eq!(
        Pubkey::from_bytes([255u8; 32]).bs58_encode(),
        "JEKNVnkbo3jma5nREBBJCDoXFVeKkD56V3xKrvRmWxFG"
    );
}

#[test]
fn memory_addresses_are_the_prefix_and_the_index_in_decimal() {
    assert_eq!(memory_address(0), "/memory/0");
    assert_eq!(memory_address(7), "/memory/7");
    assert_eq!(memory_address(10), "/memory/10");
    assert_eq!(memory_address(409), "/memory/409");
    assert_eq!(memory_address(1234567890), "/memory/1234567890");
    assert_eq!(memory_address(usize::MAX), format!("/memory/{}", usize::MAX));
}

#[test]
fn config_builder_collects_the_parts() {
    let builder = NodeConfigBuilder::new();
    assert!(!builder.is_complete());
    let builder = builder.with_identity(base_key(1));
    assert!(!builder.is_complete());
    let builder = builder
        .with_address(String::from("/memory/1"))
        .with_bootnode((base_key(2), String::from("/memory/2")))
        .with_bootnode((base_key(3), String::from("/memory/3")));
    assert!(builder.is_complete());
    let config = builder.build();
    assert_eq!(*config.identity(), base_key(1));
    assert_eq!(config.address, "/memory/1");
    assert_eq!(
        *config.bootnodes(),
        vec![
            (base_key(2), String::from("/memory/2")),
            (base_key(3), String::from("/memory/3")),
        ]
    );
    assert_eq!(config.node_address(), (base_key(1), String::from("/memory/1")));
    assert_eq!(config.peer_list_manager, PeerListManagerConfig::default());
}

#[test]
fn config_builder_needs_identity_and_address() {
    assert!(!NodeConfig::builder().is_complete());
    assert!(!NodeConfigBuilder::default().with_address(String::from("/memory/0")).is_complete());
    assert!(!NodeConfigBuilder::default().with_identity(base_key(1)).is_complete());
    assert!(NodeConfigBuilder::default()
        .with_identity(base_key(1))
        .with_address(String::from("/memory/0"))
        .is_complete());
}

#[test]
fn config_builder_keeps_a_bootnode_once() {
    let config = NodeConfigBuilder::new()
        .with_identity(base_key(1))
        .with_address(String::from("/memory/1"))
        .with_bootnode((base_key(2), String::from("/memory/2")))
        .with_bootnode((base_key(2), String::from("/memory/2")))
        .with_bootnode((base_key(2), String::from("/memory/9")))
        .with_bootnode((base_key(3), String::from("/memory/2")))
        .build();
    assert_eq!(
        config.bootnodes,
        vec![
            (base_key(2), String::from("/memory/2")),
            (base_key(2), String::from("/memory/9")),
            (base_key(3), String::from("/memory/2")),
        ]
    );
}

#[test]
fn config_builder_draws_a_unique_identity() {
    let mut rng = SimRng::new(RngSeed(9));
    let config = NodeConfigBuilder::new()
        .with_unique_identity(&mut rng)
        .with_address(String::from("/memory/0"))
        .build();
    let mut again = SimRng::new(RngSeed(9));
    assert!(*config.identity() == Pubkey::unique(&mut again));
    assert!(config.bootnodes().is_empty());
}

#[test]
fn later_identity_replaces_the_earlier_one() {
    let config = NodeConfigBuilder::new()
        .with_identity(base_key(1))
        .with_identity(base_key(2))
        .with_address(String::from("/memory/1"))
        .with_address(String::from("/memory/2"))
        .build();
    assert_eq!(config.identity, base_key(2));
    assert_eq!(config.address, "/memory/2");
}

#[test]
fn sim_storage_keeps_nothing() {
    let mut storage = SimStorage::build(SimRng::new(RngSeed(0)));
    storage.write(String::from("block 1"));
    assert_eq!(storage.read(), "");
    assert!(storage.poll());
}
