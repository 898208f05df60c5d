//! The envelope in which every message travels: a nonce followed by the
//! message in a NaCl box, sealed for one recipient by one sender.

use crate::text::{append_bytes, copy_range};
use sodiumoxide::crypto::box_::{gen_keypair, gen_nonce, open, seal, Nonce, PublicKey, SecretKey};
use vstd::prelude::*;

verus! {

/// The number of bytes of a nonce.
pub const NONCE_LENGTH: usize = 24;

/// The number of bytes of a key, public or secret.
pub const KEY_LENGTH: usize = 32;

/// The number of bytes by which a box is longer than what is in it.
pub const MAC_LENGTH: usize = 16;

/// The largest packet that goes on the wire.
pub const MAX_PACKET: usize = 1500;

/// The longest message that fits into a packet.
pub const MAX_MESSAGE: usize = 1460;

/// Why no envelope was made or none was opened.
#[derive(Debug, PartialEq, Eq, Clone, Copy)]
pub enum EnvelopeError {
    /// The key of the other side has not the length of a key.
    InvalidKey,
    /// The message is too long for one packet.
    PacketTooLarge,
    /// The packet is shorter than a nonce.
    Truncated,
    /// The box is not one that the sender sealed for this recipient with
    /// this nonce.
    BoxAuthFailure,
}

/// What `sodiumoxide` finds in a box with a nonce, the public key of the
/// sender and the secret key of the recipient; nothing where the box fails
/// verification. A name only.
pub uninterp spec fn spec_box_open(
    sealed: Seq<u8>,
    nonce: Seq<u8>,
    sender_public: Seq<u8>,
    recipient_secret: Seq<u8>,
) -> Option<Seq<u8>>;

/// The public key that `sodiumoxide` computes for a secret key. A name only.
pub uninterp spec fn spec_public_key(secret: Seq<u8>) -> Seq<u8>;

/// `sodiumoxide::crypto::box_::seal`, on a nonce and keys given as bytes.
/// Believed, not proved: the box is sixteen bytes longer than the message,
/// and a recipient who holds the secret key that belongs to
/// `recipient_public` opens it with the same nonce and the public key of the
/// sender to the message. Of a box for a key to which no secret key belongs
/// nothing is said but its length.
#[verifier::external_body]
fn box_seal(message: &[u8], nonce: &[u8], recipient_public: &[u8], sender_secret: &[u8]) -> (out:
    Vec<u8>)
    requires
        nonce@.len() == NONCE_LENGTH,
        recipient_public@.len() == KEY_LENGTH,
        sender_secret@.len() == KEY_LENGTH,
    ensures
        out@.len() == message@.len() + MAC_LENGTH,
        forall|recipient_secret: Seq<u8>|
            recipient_secret.len() == KEY_LENGTH && spec_public_key(recipient_secret)
                == recipient_public@ ==> #[trigger] spec_box_open(
                out@,
                nonce@,
                spec_public_key(sender_secret@),
                recipient_secret,
            ) == Some(message@),
{
    let nonce = Nonce::from_slice(nonce).unwrap();
    let public = PublicKey::from_slice(recipient_public).unwrap();
    let secret = SecretKey::from_slice(sender_secret).unwrap();
    seal(message, &nonce, &public, &secret)
}

/// `sodiumoxide::crypto::box_::open`, on a nonce and keys given as bytes.
/// Believed, not proved: what comes out is a function of the four arguments,
/// and a message that comes out is sixteen bytes shorter than the box.
#[verifier::external_body]
fn box_open(sealed: &[u8], nonce: &[u8], sender_public: &[u8], recipient_secret: &[u8]) -> (out:
    Option<Vec<u8>>)
    requires
        nonce@.len() == NONCE_LENGTH,
        sender_public@.len() == KEY_LENGTH,
        recipient_secret@.len() == KEY_LENGTH,
    ensures
        match out {
            Some(message) => spec_box_open(sealed@, nonce@, sender_public@, recipient_secret@)
                == Some(message@) && message@.len() + MAC_LENGTH == sealed@.len(),
            None => spec_box_open(sealed@, nonce@, sender_public@, recipient_secret@) is None,
        },
{
    let nonce = Nonce::from_slice(nonce).unwrap();
    let public = PublicKey::from_slice(sender_public).unwrap();
    let secret = SecretKey::from_slice(recipient_secret).unwrap();
    match open(sealed, &nonce, &public, &secret) {
        Ok(message) => Some(message),
        Err(()) => None,
    }
}

/// `sodiumoxide::crypto::box_::gen_keypair`: a fresh secret key and the
/// public key that belongs to it, as bytes. Believed, not proved; which keys
/// come is left open.
#[verifier::external_body]
fn fresh_keypair() -> (out: (Vec<u8>, Vec<u8>))
    ensures
        out.0@.len() == KEY_LENGTH,
        out.1@.len() == KEY_LENGTH,
        out.0@ == spec_public_key(out.1@),
{
    let (public, secret) = gen_keypair();
    (public.0.to_vec(), secret.0.to_vec())
}

/// `sodiumoxide::crypto::box_::gen_nonce`: a fresh nonce, as bytes. Believed,
/// not proved; which nonce comes is left open.
#[verifier::external_body]
fn fresh_nonce() -> (out: Vec<u8>)
    ensures
        out@.len() == NONCE_LENGTH,
{
    gen_nonce().0.to_vec()
}

/// `SecretKey::public_key` of `sodiumoxide`, on a key given as bytes.
/// Believed, not proved: the public key is a function of the secret key.
#[verifier::external_body]
fn derive_public_key(secret: &[u8]) -> (out: Vec<u8>)
    requires
        secret@.len() == KEY_LENGTH,
    ensures
        out@ == spec_public_key(secret@),
        out@.len() == KEY_LENGTH,
{
    SecretKey::from_slice(secret).unwrap().public_key().0.to_vec()
}

/// The number that bytes stand for, the lowest byte first.
pub open spec fn le_value(bytes: Seq<u8>) -> nat
    decreases bytes.len(),
{
    if bytes.len() == 0 {
        0
    } else {
        bytes[0] as nat + 256 * le_value(bytes.drop_first())
    }
}

/// Every byte is 255: the largest number of that many bytes.
pub open spec fn all_max(bytes: Seq<u8>) -> bool {
    forall|i: int| 0 <= i < bytes.len() ==> #[trigger] bytes[i] == 255
}

/// The bytes after counting one up, the lowest byte first; from the largest
/// number the count goes round to zero.
pub open spec fn spec_increment(bytes: Seq<u8>) -> Seq<u8>
    decreases bytes.len(),
{
    if bytes.len() == 0 {
        bytes
    } else if bytes[0] < 255 {
        seq![(bytes[0] + 1) as u8] + bytes.drop_first()
    } else {
        seq![0u8] + spec_increment(bytes.drop_first())
    }
}

/// Counting up keeps the length and adds one to the number, but from the
/// largest number, where it gives zero. So a nonce that is counted up comes
/// back only after as many packets as there are nonces.
pub proof fn lemma_increment(bytes: Seq<u8>)
    ensures
        spec_increment(bytes).len() == bytes.len(),
        !all_max(bytes) ==> le_value(spec_increment(bytes)) == le_value(bytes) + 1,
        all_max(bytes) ==> le_value(spec_increment(bytes)) == 0,
    decreases bytes.len(),
{
    if bytes.len() > 0 {
        let rest = bytes.drop_first();
        lemma_increment(rest);
        let next = spec_increment(bytes);
        if bytes[0] < 255 {
            assert(next.drop_first() =~= rest);
        } else {
            assert(next.drop_first() =~= spec_increment(rest));
            if all_max(bytes) {
                assert forall|i: int| 0 <= i < rest.len() implies #[trigger] rest[i] == 255 by {
                    assert(bytes[i + 1] == 255);
                }
            } else {
                let i = choose|i: int| 0 <= i < bytes.len() && #[trigger] bytes[i] != 255;
                assert(rest[i - 1] != 255);
            }
        }
    }
}

/// Counts a number of bytes one up, the lowest byte first.
pub fn increment_le(bytes: &mut Vec<u8>)
    ensures
        final(bytes)@ == spec_increment(old(bytes)@),
{
    let mut i: usize = 0;
    let ghost start = bytes@;
    assert(start.skip(0) =~= start);
    while i < bytes.len()
        invariant
            i <= bytes.len(),
            bytes@.len() == start.len(),
            start == old(bytes)@,
            bytes@.skip(i as int) == start.skip(i as int),
            spec_increment(start) == bytes@.take(i as int) + spec_increment(start.skip(i as int)),
        decreases bytes.len() - i,
    {
        let ghost here = start.skip(i as int);
        let ghost before = bytes@;
        assert(here[0] == start[i as int] && before.skip(i as int)[0] == before[i as int]);
        assert(here.drop_first() =~= start.skip(i + 1));
        if bytes[i] < 255 {
            let b: u8 = bytes[i];
            bytes.set(i, b + 1);
            proof {
                assert(bytes@ =~= before.take(i as int) + (seq![(b + 1) as u8] + here.drop_first()))
                    by {
                    assert forall|k: int| i < k < bytes@.len() implies bytes@[k] == start[k] by {
                        assert(before.skip(i as int)[k - i] == start.skip(i as int)[k - i]);
                    }
                }
            }
            return ;
        }
        bytes.set(i, 0);
        proof {
            assert(bytes@.skip(i + 1) =~= start.skip(i + 1)) by {
                assert forall|k: int| i < k < bytes@.len() implies bytes@[k] == start[k] by {
                    assert(before.skip(i as int)[k - i] == start.skip(i as int)[k - i]);
                }
            }
            assert(bytes@.take(i + 1) =~= before.take(i as int) + seq![0u8]);
            assert(before.take(i as int) + (seq![0u8] + spec_increment(start.skip(i + 1)))
                =~= bytes@.take(i + 1) + spec_increment(start.skip(i + 1)));
        }
        i += 1;
    }
    proof {
        assert(bytes@.take(i as int) =~= bytes@);
        assert(spec_increment(start.skip(i as int)) =~= Seq::<u8>::empty());
    }
}

/// What a recipient finds in a packet: the packet must hold a nonce, and the
/// box behind it must open with that nonce.
pub open spec fn spec_open_packet(
    packet: Seq<u8>,
    sender_public: Seq<u8>,
    recipient_secret: Seq<u8>,
) -> Result<Seq<u8>, EnvelopeError> {
    if sender_public.len() != KEY_LENGTH {
        Err(EnvelopeError::InvalidKey)
    } else if packet.len() < NONCE_LENGTH {
        Err(EnvelopeError::Truncated)
    } else {
        match spec_box_open(
            packet.skip(NONCE_LENGTH as int),
            packet.take(NONCE_LENGTH as int),
            sender_public,
            recipient_secret,
        ) {
            Some(message) => Ok(message),
            None => Err(EnvelopeError::BoxAuthFailure),
        }
    }
}

/// The keys of a node and the nonce of its next packet.
pub struct Nacl {
    /// The secret key of the node.
    secret_key: Vec<u8>,
    /// The public key that belongs to it.
    public_key: Vec<u8>,
    /// The nonce that the next packet gets.
    nonce: Vec<u8>,
}

impl Nacl {
    /// The secret key of the node.
    pub closed spec fn secret(&self) -> Seq<u8> {
        self.secret_key@
    }

    /// The public key of the node.
    pub closed spec fn public(&self) -> Seq<u8> {
        self.public_key@
    }

    /// The nonce that the next packet gets.
    pub closed spec fn next_nonce(&self) -> Seq<u8> {
        self.nonce@
    }

    /// What holds of every value: keys and nonce have their lengths, and the
    /// public key belongs to the secret key.
    pub closed spec fn wf(&self) -> bool {
        &&& self.secret_key@.len() == KEY_LENGTH
        &&& self.public_key@.len() == KEY_LENGTH
        &&& self.nonce@.len() == NONCE_LENGTH
        &&& self.public_key@ == spec_public_key(self.secret_key@)
    }

    /// The lengths of keys and nonce, and how the keys belong together.
    pub proof fn lemma_wf(&self)
        requires
            self.wf(),
        ensures
            self.secret().len() == KEY_LENGTH,
            self.public().len() == KEY_LENGTH,
            self.next_nonce().len() == NONCE_LENGTH,
            self.public() == spec_public_key(self.secret()),
    {
    }

    /// Fresh keys and a fresh nonce.
    pub fn new() -> (out: Self)
        ensures
            out.wf(),
    {
        let (public_key, secret_key) = fresh_keypair();
        let nonce = fresh_nonce();
        Nacl { secret_key, public_key, nonce }
    }

    /// The keys that belong to a given secret key, with a fresh nonce.
    /// Nothing where the bytes have not the length of a key.
    pub fn from_secret_key(secret_key: Vec<u8>) -> (out: Option<Self>)
        ensures
            out is Some <==> secret_key@.len() == KEY_LENGTH,
            out matches Some(nacl) ==> nacl.wf() && nacl.secret() == secret_key@,
    {
        if secret_key.len() != KEY_LENGTH {
            return None;
        }
        let public_key = derive_public_key(secret_key.as_slice());
        let nonce = fresh_nonce();
        Some(Nacl { secret_key, public_key, nonce })
    }

    /// The public key of the node.
    pub fn get_public_key(&self) -> (out: Vec<u8>)
        ensures
            out@ == self.public(),
    {
        let out = copy_range(self.public_key.as_slice(), 0, self.public_key.len());
        assert(out@ =~= self.public_key@);
        out
    }

    /// The secret key of the node.
    pub fn get_secret_key(&self) -> (out: Vec<u8>)
        ensures
            out@ == self.secret(),
    {
        let out = copy_range(self.secret_key.as_slice(), 0, self.secret_key.len());
        assert(out@ =~= self.secret_key@);
        out
    }

    /// Seals a message for the holder of a public key: the packet is the
    /// nonce followed by the box, and the nonce of the node is counted one
    /// up. The holder of the secret key that belongs to `recipient_public`
    /// opens the packet, with the public key of this node, to the message.
    /// A key of the wrong length is refused, then a message with which the
    /// packet would be longer than 1500 bytes; nothing changes then.
    pub fn seal(&mut self, message: &[u8], recipient_public: &[u8]) -> (out: Result<
        Vec<u8>,
        EnvelopeError,
    >)
        requires
            old(self).wf(),
        ensures
            final(self).wf(),
            final(self).secret() == old(self).secret(),
            final(self).public() == old(self).public(),
            out is Ok <==> recipient_public@.len() == KEY_LENGTH && message@.len() <= MAX_MESSAGE,
            out matches Ok(packet) ==> {
                &&& packet@.take(NONCE_LENGTH as int) == old(self).next_nonce()
                &&& packet@.len() == NONCE_LENGTH + message@.len() + MAC_LENGTH
                &&& packet@.len() <= MAX_PACKET
                &&& final(self).next_nonce() == spec_increment(old(self).next_nonce())
                &&& forall|recipient_secret: Seq<u8>|
                    recipient_secret.len() == KEY_LENGTH && spec_public_key(recipient_secret)
                        == recipient_public@ ==> #[trigger] spec_open_packet(
                        packet@,
                        old(self).public(),
                        recipient_secret,
                    ) == Ok::<Seq<u8>, EnvelopeError>(message@)
            },
            out matches Err(e) ==> {
                &&& e == (if recipient_public@.len() != KEY_LENGTH {
                    EnvelopeError::InvalidKey
                } else {
                    EnvelopeError::PacketTooLarge
                })
                &&& final(self).next_nonce() == old(self).next_nonce()
            },
    {
        if recipient_public.len() != KEY_LENGTH {
            return Err(EnvelopeError::InvalidKey);
        }
        if message.len() > MAX_MESSAGE {
            return Err(EnvelopeError::PacketTooLarge);
        }
        let sealed = box_seal(
            message,
            self.nonce.as_slice(),
            recipient_public,
            self.secret_key.as_slice(),
        );
        let mut packet: Vec<u8> = Vec::new();
        append_bytes(&mut packet, self.nonce.as_slice());
        append_bytes(&mut packet, sealed.as_slice());
        proof {
            let nonce = self.nonce@;
            assert(packet@.take(NONCE_LENGTH as int) =~= nonce);
            assert(packet@.skip(NONCE_LENGTH as int) =~= sealed@);
            assert forall|recipient_secret: Seq<u8>|
                recipient_secret.len() == KEY_LENGTH && spec_public_key(recipient_secret)
                    == recipient_public@ implies #[trigger] spec_open_packet(
                packet@,
                self.public_key@,
                recipient_secret,
            ) == Ok::<Seq<u8>, EnvelopeError>(message@) by {
                assert(spec_box_open(
                    sealed@,
                    nonce,
                    spec_public_key(self.secret_key@),
                    recipient_secret,
                ) == Some(message@));
            }
            lemma_increment(nonce);
        }
        increment_le(&mut self.nonce);
        Ok(packet)
    }

    /// Opens a packet from the holder of a public key.
    pub fn open(&self, packet: &[u8], sender_public: &[u8]) -> (out: Result<Vec<u8>, EnvelopeError>)
        requires
            self.wf(),
        ensures
            match out {
                Ok(message) => spec_open_packet(packet@, sender_public@, self.secret()) == Ok::<
                    Seq<u8>,
                    EnvelopeError,
                >(message@),
                Err(e) => spec_open_packet(packet@, sender_public@, self.secret()) == Err::<
                    Seq<u8>,
                    EnvelopeError,
                >(e),
            },
    {
        if sender_public.len() != KEY_LENGTH {
            return Err(EnvelopeError::InvalidKey);
        }
        if packet.len() < NONCE_LENGTH {
            return Err(EnvelopeError::Truncated);
        }
        let nonce = copy_range(packet, 0, NONCE_LENGTH);
        let sealed = copy_range(packet, NONCE_LENGTH, packet.len());
        assert(nonce@ =~= packet@.take(NONCE_LENGTH as int));
        assert(sealed@ =~= packet@.skip(NONCE_LENGTH as int));
        match box_open(
            sealed.as_slice(),
            nonce.as_slice(),
            sender_public,
            self.secret_key.as_slice(),
        ) {
            Some(message) => Ok(message),
            None => Err(EnvelopeError::BoxAuthFailure),
        }
    }
}

} // verus!
