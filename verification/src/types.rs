//! The plain values that the node and its messages are made of.

use crate::crypto::{
    sha512_digest, CryptoContext, BOX_PUBLIC_KEY_LEN, BOX_SECRET_KEY_LEN, SIGN_PUBLIC_KEY_LEN,
    SIGN_SECRET_KEY_LEN,
};
use crate::random::random_bytes;
use vstd::prelude::*;

verus! {

/// The length of a name in bytes.
pub const NAME_LEN: usize = 64;

/// The length of a public encryption key in bytes.
pub const PUBLIC_KEY_LEN: usize = 32;

/// The length of a public signing key in bytes.
pub const PUBLIC_SIGN_KEY_LEN: usize = 32;

/// The length of a signature in bytes.
pub const SIGNATURE_LEN: usize = 64;

/// A sequence of bytes as it travels on the wire.
pub type Bytes = Vec<u8>;

/// Correlates a request with its responses.
pub type MessageId = u32;

/// Tells whether two byte vectors hold the same bytes.
pub fn same_bytes(a: &Vec<u8>, b: &Vec<u8>) -> (r: bool)
    ensures
        r == (a@ == b@),
{
    let r = a == b;
    proof {
        assert(r == (a@ =~= b@));
    }
    r
}

/// A copy of a byte vector.
pub fn copy_bytes(a: &Vec<u8>) -> (r: Vec<u8>)
    ensures
        r@ == a@,
{
    let r = a.clone();
    proof {
        assert(r@ =~= a@);
    }
    r
}

/// The identifier of a peer, or of a place in the identifier space. It stands for its bytes.
#[derive(Debug, PartialEq, Eq, PartialOrd, Ord, Hash)]
pub struct NameType(pub Vec<u8>);

/// An identifier that a query is about.
pub type DhtId = NameType;

impl View for NameType {
    type V = Seq<u8>;

    open spec fn view(&self) -> Seq<u8> {
        self.0@
    }
}

impl Clone for NameType {
    fn clone(&self) -> (r: NameType)
        ensures
            r@ == self@,
    {
        NameType(copy_bytes(&self.0))
    }
}

impl NameType {
    /// The identifier that stands for `bytes`.
    pub fn new(bytes: Vec<u8>) -> (r: NameType)
        ensures
            r@ == bytes@,
    {
        NameType(bytes)
    }

    /// A random identifier of `NAME_LEN` bytes.
    pub fn generate_random() -> (r: NameType)
        ensures
            r@.len() == NAME_LEN,
    {
        NameType(random_bytes(NAME_LEN))
    }

    /// Tells whether two identifiers are the same.
    pub fn same_as(&self, other: &NameType) -> (r: bool)
        ensures
            r == (self@ == other@),
    {
        same_bytes(&self.0, &other.0)
    }
}

/// What a public credential stands for: the peer's name and the public keys that it
/// answers to, with the token that binds them.
pub struct PublicPmidView {
    pub name: Seq<u8>,
    pub public_key: Seq<u8>,
    pub public_sign_key: Seq<u8>,
    pub validation_token: Seq<u8>,
}

/// The public credential of a peer. A recipient checks a claimed group member against it
/// without asking again.
#[derive(Debug, PartialEq, Eq)]
pub struct PublicPmid {
    /// The peer's name.
    pub name: NameType,
    /// The key that messages to the peer are encrypted to.
    pub public_key: Vec<u8>,
    /// The key that the peer's signatures are checked against.
    pub public_sign_key: Vec<u8>,
    /// The peer's signature over its keys.
    pub validation_token: Vec<u8>,
}

/// The credential under which a peer's identity is cached.
pub type PublicId = PublicPmid;

impl View for PublicPmid {
    type V = PublicPmidView;

    open spec fn view(&self) -> PublicPmidView {
        PublicPmidView {
            name: self.name@,
            public_key: self.public_key@,
            public_sign_key: self.public_sign_key@,
            validation_token: self.validation_token@,
        }
    }
}

impl Clone for PublicPmid {
    fn clone(&self) -> (r: PublicPmid)
        ensures
            r@ == self@,
    {
        PublicPmid {
            name: self.name.clone(),
            public_key: copy_bytes(&self.public_key),
            public_sign_key: copy_bytes(&self.public_sign_key),
            validation_token: copy_bytes(&self.validation_token),
        }
    }
}

/// The credential's fields have the lengths of a name, of the two keys and of a signature.
pub open spec fn full_size(c: PublicPmidView) -> bool {
    &&& c.name.len() == NAME_LEN
    &&& c.public_key.len() == PUBLIC_KEY_LEN
    &&& c.public_sign_key.len() == PUBLIC_SIGN_KEY_LEN
    &&& c.validation_token.len() == SIGNATURE_LEN
}

impl PublicPmid {
    /// A credential of random bytes, each field at its full length.
    pub fn generate_random() -> (r: PublicPmid)
        ensures
            full_size(r@),
    {
        PublicPmid {
            name: NameType::generate_random(),
            public_key: random_bytes(PUBLIC_KEY_LEN),
            public_sign_key: random_bytes(PUBLIC_SIGN_KEY_LEN),
            validation_token: random_bytes(SIGNATURE_LEN),
        }
    }
}

/// What a sequence of credentials stands for.
pub open spec fn pmid_views(group: Seq<PublicPmid>) -> Seq<PublicPmidView> {
    group.map_values(|p: PublicPmid| p@)
}

/// The protocol that a connection runs over.
#[derive(Clone, Copy, Debug, PartialEq, Eq, Hash, Structural)]
pub enum Protocol {
    /// A stream over TCP.
    Tcp,
    /// A stream over UTP.
    Utp,
}

/// The address of a host.
#[derive(Clone, Copy, Debug, PartialEq, Eq, Hash, Structural)]
pub enum IpAddress {
    /// The four bytes of an IPv4 address, the first byte uppermost.
    V4(u32),
    /// An IPv6 address, with the flow information and scope that go with it.
    V6 {
        /// The sixteen bytes of the address, the first byte uppermost.
        address: u128,
        flowinfo: u32,
        scope_id: u32,
    },
}

/// Where a peer can be reached: a protocol, a host and a port.
#[derive(Clone, Copy, Debug, PartialEq, Eq, Hash, Structural)]
pub struct Endpoint {
    pub protocol: Protocol,
    pub address: IpAddress,
    pub port: u16,
}

/// The name that goes with a pair of public keys: the SHA-512 digest of the signing key
/// followed by the encryption key.
pub open spec fn derived_name(public_sign_key: Seq<u8>, public_key: Seq<u8>) -> Seq<u8> {
    sha512_digest(public_sign_key + public_key)
}

/// What an identity stands for.
pub struct IdView {
    pub public_sign_key: Seq<u8>,
    pub secret_sign_key: Seq<u8>,
    pub public_key: Seq<u8>,
    pub secret_key: Seq<u8>,
    pub name: Seq<u8>,
}

/// The full identity of a node: its signing keys, its encryption keys, and the name that
/// is derived from the public ones.
pub struct Id {
    sign_keys: (Vec<u8>, Vec<u8>),
    encrypt_keys: (Vec<u8>, Vec<u8>),
    name: NameType,
}

impl View for Id {
    type V = IdView;

    closed spec fn view(&self) -> IdView {
        IdView {
            public_sign_key: self.sign_keys.0@,
            secret_sign_key: self.sign_keys.1@,
            public_key: self.encrypt_keys.0@,
            secret_key: self.encrypt_keys.1@,
            name: self.name@,
        }
    }
}

/// The name of the identity is the one that goes with its public keys.
pub open spec fn named_by_keys(id: IdView) -> bool {
    id.name == derived_name(id.public_sign_key, id.public_key)
}

/// The keys of the identity have the lengths of the keys that the cryptographic subsystem
/// hands out.
pub open spec fn full_keys(id: IdView) -> bool {
    &&& id.public_sign_key.len() == SIGN_PUBLIC_KEY_LEN
    &&& id.secret_sign_key.len() == SIGN_SECRET_KEY_LEN
    &&& id.public_key.len() == BOX_PUBLIC_KEY_LEN
    &&& id.secret_key.len() == BOX_SECRET_KEY_LEN
}

impl Id {
    /// A fresh identity, with keys drawn by the cryptographic subsystem.
    pub fn new(crypto: &CryptoContext) -> (id: Id)
        ensures
            full_keys(id@),
            named_by_keys(id@),
            id@.name.len() == NAME_LEN,
    {
        let sign_keys = crypto.sign_keypair();
        let encrypt_keys = crypto.box_keypair();
        Id::with_keys(crypto, sign_keys, encrypt_keys)
    }

    /// The identity that is made of the given pairs of keys, each public key first.
    pub fn with_keys(
        crypto: &CryptoContext,
        sign_keys: (Vec<u8>, Vec<u8>),
        encrypt_keys: (Vec<u8>, Vec<u8>),
    ) -> (id: Id)
        ensures
            id@.public_sign_key == sign_keys.0@,
            id@.secret_sign_key == sign_keys.1@,
            id@.public_key == encrypt_keys.0@,
            id@.secret_key == encrypt_keys.1@,
            named_by_keys(id@),
            id@.name.len() == NAME_LEN,
    {
        let mut both = copy_bytes(&sign_keys.0);
        let ghost first = both@;
        both.extend_from_slice(encrypt_keys.0.as_slice());
        proof {
            assert(both@ =~= first + encrypt_keys.0@);
        }
        let name = NameType::new(crypto.sha512(&both));
        Id { sign_keys, encrypt_keys, name }
    }

    /// The name of the identity.
    pub fn get_name(&self) -> (name: NameType)
        ensures
            name@ == self@.name,
    {
        self.name.clone()
    }

    /// The key that the identity's signatures are checked against.
    pub fn public_sign_key(&self) -> (key: &Vec<u8>)
        ensures
            key@ == self@.public_sign_key,
    {
        &self.sign_keys.0
    }

    /// The key that the identity signs with.
    pub fn secret_sign_key(&self) -> (key: &Vec<u8>)
        ensures
            key@ == self@.secret_sign_key,
    {
        &self.sign_keys.1
    }

    /// The key that messages to the identity are encrypted to.
    pub fn public_key(&self) -> (key: &Vec<u8>)
        ensures
            key@ == self@.public_key,
    {
        &self.encrypt_keys.0
    }

    /// The key that the identity decrypts with.
    pub fn secret_key(&self) -> (key: &Vec<u8>)
        ensures
            key@ == self@.secret_key,
    {
        &self.encrypt_keys.1
    }
}

impl Clone for Id {
    fn clone(&self) -> (r: Id)
        ensures
            r@ == self@,
    {
        Id {
            sign_keys: (copy_bytes(&self.sign_keys.0), copy_bytes(&self.sign_keys.1)),
            encrypt_keys: (copy_bytes(&self.encrypt_keys.0), copy_bytes(&self.encrypt_keys.1)),
            name: self.name.clone(),
        }
    }
}

/// What the fingerprint of a message stands for.
pub struct FilterTypeView {
    pub sender: Seq<u8>,
    pub message_id: MessageId,
    pub digest: Seq<u8>,
}

/// The fingerprint by which a message is known to the replay filter: who sent it, under
/// which message id, and the digest of what it says.
#[derive(Debug, PartialEq, Eq, Hash)]
pub struct FilterType {
    pub sender: NameType,
    pub message_id: MessageId,
    pub digest: Vec<u8>,
}

impl View for FilterType {
    type V = FilterTypeView;

    open spec fn view(&self) -> FilterTypeView {
        FilterTypeView {
            sender: self.sender@,
            message_id: self.message_id,
            digest: self.digest@,
        }
    }
}

/// The fingerprint of the message with the given sender, message id and content.
pub open spec fn fingerprint_of(
    sender: Seq<u8>,
    message_id: MessageId,
    content: Seq<u8>,
) -> FilterTypeView {
    FilterTypeView { sender, message_id, digest: sha512_digest(content) }
}

impl FilterType {
    /// The fingerprint of a message. It depends on the sender, the message id and the
    /// content alone: a message that is sent again has the fingerprint it had before,
    /// however its frame was written.
    pub fn new(
        crypto: &CryptoContext,
        sender: &NameType,
        message_id: MessageId,
        content: &Vec<u8>,
    ) -> (r: FilterType)
        ensures
            r@ == fingerprint_of(sender@, message_id, content@),
    {
        FilterType { sender: sender.clone(), message_id, digest: crypto.sha512(content) }
    }
}

} // verus!
