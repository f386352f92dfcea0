use vstd::prelude::*;
use vstd::std_specs::cmp::PartialEqSpecImpl;

use crate::rng::SimRng;
use crate::rng::draw_key_bytes;
use crate::types::NodeAddress;

verus! {

/// A 32-byte identifier of a peer. Two keys are the same peer exactly when
/// all 32 bytes agree.
#[derive(Copy, Clone, Debug, Eq, Hash)]
pub struct Pubkey {
    key: [u8; 32],
}

impl View for Pubkey {
    type V = Seq<u8>;

    closed spec fn view(&self) -> Seq<u8> {
        self.key@
    }
}

impl PartialEq for Pubkey {
    fn eq(&self, other: &Pubkey) -> (same: bool) {
        let mut i: usize = 0;
        while i < 32
            invariant
                i <= 32,
                forall|j: int| 0 <= j < i ==> self.key[j] == other.key[j],
            decreases 32 - i,
        {
            if self.key[i] != other.key[i] {
                return false;
            }
            i += 1;
        }
        assert(self.key =~= other.key);
        true
    }
}

impl PartialEqSpecImpl for Pubkey {
    open spec fn obeys_eq_spec() -> bool {
        true
    }

    open spec fn eq_spec(&self, other: &Pubkey) -> bool {
        *self == *other
    }
}

impl Pubkey {
    /// A fresh key of 32 random bytes drawn from `rng`.
    pub fn unique(rng: &mut SimRng) -> Pubkey {
        Pubkey { key: draw_key_bytes(rng) }
    }

    /// The key made of exactly these bytes.
    pub fn from_bytes(key: [u8; 32]) -> (id: Pubkey)
        ensures
            id@ == key@,
    {
        Pubkey { key }
    }

    /// The 32 bytes of the key.
    pub fn to_bytes(&self) -> (bytes: [u8; 32])
        ensures
            bytes@ == self@,
    {
        self.key
    }
}

impl Pubkey {
    /// Pairs the key with the path of its endpoint.
    pub fn into_node_address(&self, addr: String) -> (address: NodeAddress)
        ensures
            address == (*self, addr),
    {
        (*self, addr)
    }
}

/// Where `key` first stands in `keys`, if it stands there at all.
pub fn find_key(keys: &Vec<Pubkey>, key: Pubkey) -> (at: Option<usize>)
    ensures
        match at {
            Some(i) => {
                &&& i < keys.len()
                &&& keys[i as int] == key
                &&& forall|j: int| 0 <= j < i ==> keys[j] != key
            },
            None => !keys@.contains(key),
        },
{
    let mut i: usize = 0;
    while i < keys.len()
        invariant
            i <= keys.len(),
            forall|j: int| 0 <= j < i ==> keys[j] != key,
        decreases keys.len() - i,
    {
        if keys[i] == key {
            return Some(i);
        }
        i += 1;
    }
    None
}

/// A list with one more key at its end holds, as a set, what it held and
/// that key.
pub proof fn lemma_push_joins_the_set(keys: Seq<Pubkey>, key: Pubkey)
    ensures
        keys.push(key).to_set() == keys.to_set().insert(key),
        keys.contains(key) ==> keys.to_set().insert(key) == keys.to_set(),
{
    let longer = keys.push(key);
    assert forall|other: Pubkey| longer.contains(other) <==> (keys.contains(other) || other
        == key) by {
        if longer.contains(other) {
            let k = choose|k: int| 0 <= k < longer.len() && longer[k] == other;
            if k < keys.len() {
                assert(keys[k] == other);
            }
        }
        if keys.contains(other) {
            let k = choose|k: int| 0 <= k < keys.len() && keys[k] == other;
            assert(longer[k] == other);
        }
        if other == key {
            assert(longer[keys.len() as int] == other);
        }
    }
    assert(longer.to_set() =~= keys.to_set().insert(key));
    if keys.contains(key) {
        assert(keys.to_set().insert(key) =~= keys.to_set());
    }
}

/// Two keys are equal exactly when their bytes are.
pub proof fn lemma_key_determines_identity(a: Pubkey, b: Pubkey)
    ensures
        a@ == b@ <==> a == b,
{
    if a@ == b@ {
        assert(forall|i: int| 0 <= i < 32 ==> a.key[i] == a@[i] && b.key[i] == b@[i]);
        assert(a.key =~= b.key);
    }
}

} // verus!
