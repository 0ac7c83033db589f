use vstd::prelude::*;
use crate::network::Network;
use crate::words::splits_into;

verus! {

#[verifier::external_type_specification]
#[verifier::external_body]
pub struct ExKeypair(helium_crypto::ed25519::Keypair);

/// The length of a stored ed25519 private key.
pub const PRIVATE_KEY_LEN: usize = 65;

/// The name that the word-derivation scheme gives an address.
pub uninterp spec fn animal_name_of(address: Seq<char>) -> Seq<char>;

/// Relies on helium_crypto::ed25519::Keypair::generate, seeded from the operating
/// system's random source (rand::rngs::OsRng), for the given network.
#[verifier::external_body]
fn generate_keypair(network: Network) -> (r: helium_crypto::ed25519::Keypair) {
    let network = match network {
        Network::MainNet => helium_crypto::Network::MainNet,
        Network::TestNet => helium_crypto::Network::TestNet,
    };
    helium_crypto::ed25519::Keypair::generate(network, &mut rand::rngs::OsRng)
}

/// The address string of a keypair's public key.
pub uninterp spec fn address_of(keypair: helium_crypto::ed25519::Keypair) -> Seq<char>;

/// The bytes a keypair's private material is stored as.
pub uninterp spec fn private_material_of(keypair: helium_crypto::ed25519::Keypair) -> Seq<u8>;

/// The bytes a keypair's public material is stored as.
pub uninterp spec fn public_material_of(keypair: helium_crypto::ed25519::Keypair) -> Seq<u8>;

/// Relies on the `Display` of helium_crypto::PublicKey: the key's address string, which
/// depends on the keypair alone.
#[verifier::external_body]
fn derive_address(keypair: &helium_crypto::ed25519::Keypair) -> (r: String)
    ensures
        r@ == address_of(*keypair),
{
    keypair.public_key.to_string()
}

/// Relies on angry_purple_tiger's `FromStr` and `Display` of `AnimalName`: parsing never
/// fails, the name depends on the address text alone, and it is three words of its lists,
/// none of which holds a hyphen, joined by hyphens.
#[verifier::external_body]
fn animal_name(address: &str) -> (r: String)
    ensures
        r@ == animal_name_of(address@),
        exists|a: Seq<char>, c: Seq<char>, n: Seq<char>| splits_into(r@, a, c, n),
{
    match address.parse::<angry_purple_tiger::AnimalName>() {
        Ok(name) => name.to_string(),
        Err(never) => match never {},
    }
}

/// Relies on helium_crypto::ed25519::Keypair::to_vec: the key's private material, a
/// key-tag byte and the 64-byte secret key.
#[verifier::external_body]
fn private_key_bytes(keypair: &helium_crypto::ed25519::Keypair) -> (r: Vec<u8>)
    ensures
        r@ == private_material_of(*keypair),
        r@.len() == PRIVATE_KEY_LEN,
{
    keypair.to_vec()
}

/// Relies on helium_crypto::PublicKey::to_vec: the public material of the keypair's
/// `public_key`, a key-tag byte followed by the key.
#[verifier::external_body]
fn public_key_bytes(keypair: &helium_crypto::ed25519::Keypair) -> (r: Vec<u8>)
    ensures
        r@ == public_material_of(*keypair),
{
    keypair.public_key.to_vec()
}

/// The human-readable name of an address: three hyphen-joined words chosen by the
/// address text alone.
pub fn derive_name(address: &str) -> (r: String)
    ensures
        r@ == animal_name_of(address@),
        exists|a: Seq<char>, c: Seq<char>, n: Seq<char>| splits_into(r@, a, c, n),
{
    animal_name(address)
}

/// Two derivations from the same address give the same name.
pub proof fn lemma_derive_name_pure(address: Seq<char>, first: Seq<char>, second: Seq<char>)
    requires
        first == animal_name_of(address),
        second == animal_name_of(address),
    ensures
        first == second,
{
}

/// The bytes a key is stored as: its private material followed by its public material.
pub fn key_file_bytes(private: &Vec<u8>, public: &Vec<u8>) -> (r: Vec<u8>)
    ensures
        r@ == private@ + public@,
{
    let mut out: Vec<u8> = Vec::new();
    let mut i: usize = 0;
    while i < private.len()
        invariant
            i <= private.len(),
            out@ == private@.subrange(0, i as int),
        decreases private.len() - i,
    {
        out.push(private[i]);
        i = i + 1;
    }
    let mut j: usize = 0;
    while j < public.len()
        invariant
            j <= public.len(),
            out@ == private@ + public@.subrange(0, j as int),
        decreases public.len() - j,
    {
        out.push(public[j]);
        j = j + 1;
    }
    assert(private@.subrange(0, private@.len() as int) == private@);
    assert(public@.subrange(0, public@.len() as int) == public@);
    out
}

/// A generated keypair with its address and the name derived from that address.
pub struct Key {
    pub keypair: helium_crypto::ed25519::Keypair,
    pub address: String,
    pub name: String,
}

impl Key {
    /// A fresh random key for `network`, with its address and name.
    pub fn generate(network: Network) -> (r: Key)
        ensures
            r.address@ == address_of(r.keypair),
            r.name@ == animal_name_of(r.address@),
            exists|a: Seq<char>, c: Seq<char>, n: Seq<char>| splits_into(r.name@, a, c, n),
    {
        let keypair = generate_keypair(network);
        let address = derive_address(&keypair);
        let name = derive_name(address.as_str());
        Key { keypair, address, name }
    }

    /// The bytes the key is stored as: private material, then public material.
    pub fn to_bytes(&self) -> (r: Vec<u8>)
        ensures
            r@ == private_material_of(self.keypair) + public_material_of(self.keypair),
            r@.len() >= PRIVATE_KEY_LEN,
    {
        let private = private_key_bytes(&self.keypair);
        let public = public_key_bytes(&self.keypair);
        key_file_bytes(&private, &public)
    }
}

} // verus!
