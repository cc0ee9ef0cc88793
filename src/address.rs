use vstd::prelude::*;

verus! {

/// Network an address belongs to.
#[derive(Clone, Copy, Debug, PartialEq, Eq, Structural)]
pub enum Prefix {
    Mainnet,
    Testnet,
    Simnet,
    Devnet,
}

/// Kind of key or script an address pays to.
#[derive(Clone, Copy, Debug, PartialEq, Eq, Structural)]
pub enum Version {
    /// A 32-byte Schnorr public key.
    PubKey,
    /// A 33-byte ECDSA public key.
    PubKeyECDSA,
    /// A 32-byte script hash.
    ScriptHash,
}

impl Version {
    pub open spec fn spec_public_key_len(self) -> nat {
        match self {
            Version::PubKey => 32,
            Version::PubKeyECDSA => 33,
            Version::ScriptHash => 32,
        }
    }

    /// Length of the payload an address of this version carries.
    pub fn public_key_len(&self) -> (r: usize)
        ensures
            r == self.spec_public_key_len(),
    {
        match self {
            Version::PubKey => 32,
            Version::PubKeyECDSA => 33,
            Version::ScriptHash => 32,
        }
    }
}

/// A destination address: network, version and payload (a key or a hash).
#[derive(Clone, Debug)]
pub struct Address {
    pub prefix: Prefix,
    pub version: Version,
    pub payload: Vec<u8>,
}

impl View for Address {
    type V = (Prefix, Version, Seq<u8>);

    open spec fn view(&self) -> (Prefix, Version, Seq<u8>) {
        (self.prefix, self.version, self.payload@)
    }
}

impl Address {
    /// The payload has the length its version calls for.
    pub open spec fn spec_is_valid(&self) -> bool {
        self.payload@.len() == self.version.spec_public_key_len()
    }

    pub fn is_valid(&self) -> (r: bool)
        ensures
            r == self.spec_is_valid(),
    {
        self.payload.len() == self.version.public_key_len()
    }

    /// A copy of this address with the same network, version and payload.
    pub fn duplicate(&self) -> (r: Address)
        ensures
            r@ == self@,
    {
        let mut payload: Vec<u8> = Vec::new();
        let mut i: usize = 0;
        while i < self.payload.len()
            invariant
                i <= self.payload@.len(),
                payload@ == self.payload@.subrange(0, i as int),
            decreases self.payload@.len() - i,
        {
            payload.push(self.payload[i]);
            i += 1;
        }
        Address { prefix: self.prefix, version: self.version, payload }
    }

    /// Whether two addresses have the same network, version and payload.
    pub fn same_as(&self, other: &Address) -> (r: bool)
        ensures
            r == (self@ == other@),
    {
        if self.prefix != other.prefix || self.version != other.version
            || self.payload.len() != other.payload.len() {
            return false;
        }
        let mut i: usize = 0;
        while i < self.payload.len()
            invariant
                i <= self.payload@.len(),
                self.payload@.len() == other.payload@.len(),
                self.payload@.subrange(0, i as int) == other.payload@.subrange(0, i as int),
            decreases self.payload@.len() - i,
        {
            if self.payload[i] != other.payload[i] {
                assert(self.payload@[i as int] != other.payload@[i as int]);
                return false;
            }
            assert(self.payload@.subrange(0, i + 1) == self.payload@.subrange(0, i as int).push(
                self.payload@[i as int],
            ));
            assert(other.payload@.subrange(0, i + 1) == other.payload@.subrange(0, i as int).push(
                other.payload@[i as int],
            ));
            i += 1;
        }
        assert(self.payload@ == self.payload@.subrange(0, i as int));
        assert(other.payload@ == other.payload@.subrange(0, i as int));
        true
    }
}

/// A locking script together with its script version.
#[derive(Clone, Debug)]
pub struct ScriptPublicKey {
    pub version: u16,
    pub script: Vec<u8>,
}

/// Opcode pushing the next 32 bytes.
pub const OP_DATA_32: u8 = 0x20;

/// Opcode pushing the next 33 bytes.
pub const OP_DATA_33: u8 = 0x21;

/// Opcode checking a Schnorr signature.
pub const OP_CHECK_SIG: u8 = 0xac;

/// Opcode checking an ECDSA signature.
pub const OP_CHECK_SIG_ECDSA: u8 = 0xab;

/// Opcode hashing the top stack item with BLAKE2b.
pub const OP_BLAKE2B: u8 = 0xaa;

/// Opcode comparing the two top stack items.
pub const OP_EQUAL: u8 = 0x87;

/// The standard locking script that pays to an address with the given version
/// and payload.
pub open spec fn pay_to_address_spec(version: Version, payload: Seq<u8>) -> Seq<u8> {
    match version {
        Version::PubKey => seq![OP_DATA_32] + payload + seq![OP_CHECK_SIG],
        Version::PubKeyECDSA => seq![OP_DATA_33] + payload + seq![OP_CHECK_SIG_ECDSA],
        Version::ScriptHash => seq![OP_BLAKE2B, OP_DATA_32] + payload + seq![OP_EQUAL],
    }
}

/// Relies on kaspa_txscript::pay_to_address_script (and kaspa_addresses::Address::new):
/// script version 0 and the standard script for the address's version, which is
/// `OP_DATA_32 <key> OP_CHECKSIG`, `OP_DATA_33 <key> OP_CHECKSIGECDSA` or
/// `OP_BLAKE2B OP_DATA_32 <hash> OP_EQUAL`. Both functions assert the payload length.
#[verifier::external_body]
pub(crate) fn pay_to_address_script(address: &Address) -> (r: ScriptPublicKey)
    requires
        address.spec_is_valid(),
    ensures
        r.version == 0,
        r.script@ == pay_to_address_spec(address.version, address.payload@),
{
    let prefix = match address.prefix {
        Prefix::Mainnet => kaspa_addresses::Prefix::Mainnet,
        Prefix::Testnet => kaspa_addresses::Prefix::Testnet,
        Prefix::Simnet => kaspa_addresses::Prefix::Simnet,
        Prefix::Devnet => kaspa_addresses::Prefix::Devnet,
    };
    let version = match address.version {
        Version::PubKey => kaspa_addresses::Version::PubKey,
        Version::PubKeyECDSA => kaspa_addresses::Version::PubKeyECDSA,
        Version::ScriptHash => kaspa_addresses::Version::ScriptHash,
    };
    let spk = kaspa_txscript::pay_to_address_script(&kaspa_addresses::Address::new(prefix, version, &address.payload));
    ScriptPublicKey { version: spk.version(), script: spk.script().to_vec() }
}

} // verus!
