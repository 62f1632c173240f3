//! The crypto binding: a message authentication code over the final message
//! of the handshake, keyed by the session keys and covering the hash of the
//! server's certificate. It ties the authenticated user to the TLS session.

use crate::crypto;
use crate::packet;
use crate::packet::{AttrType, AttrView, MsgType};
use crate::wire;
use vstd::prelude::*;
use vstd::utf8::encode_utf8;

verus! {

/// What is hashed into the key of the code.
pub const SEED: &'static str = "SSTP inner method derived CMK";

/// Where the code stands in the final message.
pub const MAC_OFFSET: usize = 80;

/// The hash that a server chose for the binding.
#[derive(Debug, Clone, Copy, PartialEq, Eq, Structural)]
pub enum HashAlgo {
    Sha1,
    Sha256,
}

impl HashAlgo {
    /// The length of a code under this hash.
    pub open spec fn digest_len(self) -> u8 {
        match self {
            HashAlgo::Sha1 => 20,
            HashAlgo::Sha256 => 32,
        }
    }

    /// The number of this hash on the wire.
    pub open spec fn code(self) -> u8 {
        match self {
            HashAlgo::Sha1 => 1,
            HashAlgo::Sha256 => 2,
        }
    }

    /// The name of this hash.
    pub open spec fn label(self) -> &'static str {
        match self {
            HashAlgo::Sha1 => "Sha1",
            HashAlgo::Sha256 => "Sha256",
        }
    }

    /// The length of a code under this hash.
    fn digest_len_byte(self) -> (n: u8)
        ensures
            n == self.digest_len(),
    {
        match self {
            HashAlgo::Sha1 => 20,
            HashAlgo::Sha256 => 32,
        }
    }

    /// The number of this hash on the wire.
    fn wire_byte(self) -> (n: u8)
        ensures
            n == self.code(),
    {
        match self {
            HashAlgo::Sha1 => 0x01,
            HashAlgo::Sha256 => 0x02,
        }
    }

    /// The name of this hash.
    pub fn name(self) -> (s: &'static str)
        ensures
            s == self.label(),
    {
        match self {
            HashAlgo::Sha1 => "Sha1",
            HashAlgo::Sha256 => "Sha256",
        }
    }

    /// The code of bytes under a key.
    pub open spec fn hmac(self, key: Seq<u8>, data: Seq<u8>) -> Seq<u8> {
        match self {
            HashAlgo::Sha1 => crypto::hmac_sha1_of(key, data),
            HashAlgo::Sha256 => crypto::hmac_sha256_of(key, data),
        }
    }
}

/// The key of the code, derived from the session keys of the client.
pub open spec fn compound_key(algo: HashAlgo, send_key: Seq<u8>, recv_key: Seq<u8>) -> Seq<u8> {
    algo.hmac(send_key + recv_key, encode_utf8(SEED@) + seq![algo.digest_len(), 0u8, 1u8])
}

/// The code of a message.
pub open spec fn compound_mac_of(
    algo: HashAlgo,
    send_key: Seq<u8>,
    recv_key: Seq<u8>,
    message: Seq<u8>,
) -> Seq<u8> {
    algo.hmac(compound_key(algo, send_key, recv_key), message)
}

fn hmac(algo: HashAlgo, key: &[u8], data: &[u8]) -> (out: Vec<u8>)
    ensures
        out@ == algo.hmac(key@, data@),
        out@.len() == algo.digest_len(),
{
    match algo {
        HashAlgo::Sha1 => {
            let tag = crypto::hmac_sha1(key, data);
            vstd::slice::slice_to_vec(tag.as_slice())
        },
        HashAlgo::Sha256 => {
            let tag = crypto::hmac_sha256(key, data);
            vstd::slice::slice_to_vec(tag.as_slice())
        },
    }
}

/// Computes the code of a message, as long as the hash makes it.
pub fn compound_mac(
    algo: HashAlgo,
    send_key: &[u8; 16],
    recv_key: &[u8; 16],
    message: &[u8],
) -> (out: Vec<u8>)
    ensures
        out@ == compound_mac_of(algo, send_key@, recv_key@, message@),
        out@.len() == algo.digest_len(),
{
    let mut base: Vec<u8> = Vec::new();
    wire::append(&mut base, send_key.as_slice());
    wire::append(&mut base, recv_key.as_slice());
    let mut input: Vec<u8> = Vec::new();
    wire::append(&mut input, SEED.as_bytes());
    input.push(algo.digest_len_byte());
    input.push(0);
    input.push(1);
    proof {
        assert(base@ =~= send_key@ + recv_key@);
        assert(input@ =~= encode_utf8(SEED@) + seq![algo.digest_len(), 0u8, 1u8]);
    }
    let key = hmac(algo, base.as_slice(), input.as_slice());
    hmac(algo, key.as_slice(), message)
}

/// The binding: three reserved bytes, the number of the hash, the nonce of the
/// server, the hash of its certificate, and the code.
pub open spec fn binding(
    algo: HashAlgo,
    nonce: Seq<u8>,
    cert_hash: Seq<u8>,
    mac: Seq<u8>,
) -> Seq<u8> {
    seq![0u8, 0u8, 0u8, algo.code()] + nonce + cert_hash + mac
}

/// The final message of the handshake around a code field.
pub open spec fn connected_wire(
    algo: HashAlgo,
    nonce: Seq<u8>,
    cert_hash: Seq<u8>,
    mac: Seq<u8>,
) -> Seq<u8> {
    packet::ctrl_wire(
        MsgType::Connected,
        seq![
            AttrView {
                attr_type: AttrType::CryptoBind,
                data: binding(algo, nonce, cert_hash, mac),
            },
        ],
    )
}

/// The final message of the handshake. The code is computed with its own field
/// all zero; a short code leaves zeros behind it.
pub open spec fn bound_message(
    algo: HashAlgo,
    nonce: Seq<u8>,
    cert_hash: Seq<u8>,
    send_key: Seq<u8>,
    recv_key: Seq<u8>,
) -> Seq<u8> {
    let mac = compound_mac_of(
        algo,
        send_key,
        recv_key,
        connected_wire(algo, nonce, cert_hash, crypto::zeros(32)),
    );
    connected_wire(
        algo,
        nonce,
        cert_hash,
        mac + crypto::zeros((32 - algo.digest_len()) as nat),
    )
}

proof fn lemma_connected_layout(algo: HashAlgo, nonce: Seq<u8>, cert_hash: Seq<u8>, mac: Seq<u8>)
    requires
        nonce.len() == 32,
        cert_hash.len() == 32,
        mac.len() == 32,
    ensures
        connected_wire(algo, nonce, cert_hash, mac).len() == 112,
        connected_wire(algo, nonce, cert_hash, mac) == seq![
            0x10u8,
            1u8,
            0u8,
            112u8,
            0u8,
            4u8,
            0u8,
            1u8,
            0u8,
            3u8,
            0u8,
            104u8,
            0u8,
            0u8,
            0u8,
            algo.code(),
        ] + nonce + cert_hash + mac,
{
    let a = AttrView {
        attr_type: AttrType::CryptoBind,
        data: binding(algo, nonce, cert_hash, mac),
    };
    assert(a.data.len() == 100);
    assert(seq![a].drop_first() =~= Seq::empty());
    assert(packet::attrs_wire(seq![a].drop_first()) =~= Seq::empty());
    assert(packet::attrs_wire(seq![a]) =~= packet::attr_wire(a));
    assert(connected_wire(algo, nonce, cert_hash, mac) =~= seq![
        0x10u8,
        1u8,
        0u8,
        112u8,
        0u8,
        4u8,
        0u8,
        1u8,
        0u8,
        3u8,
        0u8,
        104u8,
        0u8,
        0u8,
        0u8,
        algo.code(),
    ] + nonce + cert_hash + mac);
}

/// Writes a code into its field of the final message.
pub fn place_mac(pkt: &mut Vec<u8>, mac: &[u8])
    requires
        old(pkt)@.len() >= MAC_OFFSET + mac@.len(),
    ensures
        final(pkt)@ == old(pkt)@.take(MAC_OFFSET as int) + mac@ + old(pkt)@.skip(
            MAC_OFFSET + mac@.len(),
        ),
{
    let ghost before = pkt@;
    let total: usize = pkt.len();
    let mut i: usize = 0;
    while i < mac.len()
        invariant
            i <= mac@.len(),
            total == before.len(),
            before == old(pkt)@,
            before.len() >= MAC_OFFSET + mac@.len(),
            pkt@.len() == before.len(),
            forall|j: int| 0 <= j < MAC_OFFSET ==> pkt@[j] == before[j],
            forall|j: int| MAC_OFFSET <= j < MAC_OFFSET + i ==> pkt@[j] == mac@[j - MAC_OFFSET],
            forall|j: int| MAC_OFFSET + i <= j < before.len() ==> pkt@[j] == before[j],
        decreases mac@.len() - i,
    {
        pkt.set(MAC_OFFSET + i, mac[i]);
        i += 1;
    }
    proof {
        assert(pkt@ =~= before.take(MAC_OFFSET as int) + mac@ + before.skip(
            MAC_OFFSET + mac@.len(),
        ));
    }
}

/// Builds the final message of the handshake. A certificate hash shorter than
/// its field has zeros behind it.
pub fn build_connected_message(
    algo: HashAlgo,
    nonce: &[u8; 32],
    cert_hash32: &[u8; 32],
    send_key: &[u8; 16],
    recv_key: &[u8; 16],
) -> (pkt: Vec<u8>)
    ensures
        pkt@ == bound_message(algo, nonce@, cert_hash32@, send_key@, recv_key@),
        pkt@.len() == 112,
{
    let blank: [u8; 32] = [0u8; 32];
    let mut data: Vec<u8> = Vec::new();
    data.push(0);
    data.push(0);
    data.push(0);
    data.push(algo.wire_byte());
    wire::append(&mut data, nonce.as_slice());
    wire::append(&mut data, cert_hash32.as_slice());
    wire::append(&mut data, blank.as_slice());
    let attrs: [(AttrType, &[u8]); 1] = [(AttrType::CryptoBind, data.as_slice())];
    let mut pkt = packet::encode_ctrl(MsgType::Connected, attrs.as_slice());
    proof {
        assert(blank@ =~= crypto::zeros(32));
        assert(data@ =~= binding(algo, nonce@, cert_hash32@, crypto::zeros(32)));
        assert(packet::pairs_view(attrs@) =~= seq![
            AttrView { attr_type: AttrType::CryptoBind, data: data@ },
        ]);
        lemma_connected_layout(algo, nonce@, cert_hash32@, crypto::zeros(32));
    }
    let mac = compound_mac(algo, send_key, recv_key, pkt.as_slice());
    place_mac(&mut pkt, mac.as_slice());
    proof {
        let full = mac@ + crypto::zeros((32 - algo.digest_len()) as nat);
        lemma_connected_layout(algo, nonce@, cert_hash32@, full);
        assert(pkt@ =~= connected_wire(algo, nonce@, cert_hash32@, full));
    }
    pkt
}

/// Where each part of the final message stands: the number of the hash, the
/// nonce, the certificate hash and the code.
pub proof fn law_connected_layout(
    algo: HashAlgo,
    nonce: Seq<u8>,
    cert_hash: Seq<u8>,
    mac: Seq<u8>,
)
    requires
        nonce.len() == 32,
        cert_hash.len() == 32,
        mac.len() == 32,
    ensures
        ({
            let m = connected_wire(algo, nonce, cert_hash, mac);
            &&& m.len() == 112
            &&& m[15] == algo.code()
            &&& m.subrange(16, 48) == nonce
            &&& m.subrange(48, 80) == cert_hash
            &&& m.subrange(MAC_OFFSET as int, 112) == mac
        }),
{
    lemma_connected_layout(algo, nonce, cert_hash, mac);
    let m = connected_wire(algo, nonce, cert_hash, mac);
    assert(m.subrange(16, 48) =~= nonce);
    assert(m.subrange(48, 80) =~= cert_hash);
    assert(m.subrange(80, 112) =~= mac);
}

/// The numbers, lengths and functions of the two hashes.
pub proof fn law_hashes_have_their_numbers(key: Seq<u8>, data: Seq<u8>)
    ensures
        HashAlgo::Sha1.code() == 1 && HashAlgo::Sha1.digest_len() == 20,
        HashAlgo::Sha256.code() == 2 && HashAlgo::Sha256.digest_len() == 32,
        HashAlgo::Sha1.hmac(key, data) == crypto::hmac_sha1_of(key, data),
        HashAlgo::Sha256.hmac(key, data) == crypto::hmac_sha256_of(key, data),
{
}

/// The final message, byte for byte up to the code: header, one attribute, the
/// hash, the nonce of the server and the hash of its certificate. The code is
/// that of the same message with zeros in its place, under a key made of the
/// send key and then the receive key; a short code has zeros behind it.
pub proof fn law_code_covers_the_message(
    algo: HashAlgo,
    nonce: Seq<u8>,
    cert_hash: Seq<u8>,
    send_key: Seq<u8>,
    recv_key: Seq<u8>,
)
    requires
        nonce.len() == 32,
        cert_hash.len() == 32,
        forall|k: Seq<u8>, d: Seq<u8>| (#[trigger] crypto::hmac_sha1_of(k, d)).len() == 20,
        forall|k: Seq<u8>, d: Seq<u8>| (#[trigger] crypto::hmac_sha256_of(k, d)).len() == 32,
    ensures
        ({
            let m = bound_message(algo, nonce, cert_hash, send_key, recv_key);
            let front = m.subrange(0, 80);
            let seed = encode_utf8("SSTP inner method derived CMK"@);
            &&& m.len() == 112
            &&& m.subrange(0, 15) == seq![
                0x10u8,
                1,
                0,
                112,
                0,
                4,
                0,
                1,
                0,
                3,
                0,
                104,
                0,
                0,
                0,
            ]
            &&& m.subrange(16, 48) == nonce
            &&& m.subrange(48, 80) == cert_hash
            &&& algo == HashAlgo::Sha1 ==> m[15] == 1 && m.subrange(80, 112)
                == crypto::hmac_sha1_of(
                crypto::hmac_sha1_of(send_key + recv_key, seed + seq![20u8, 0, 1]),
                front + Seq::new(32, |i: int| 0u8),
            ) + Seq::new(12, |i: int| 0u8)
            &&& algo == HashAlgo::Sha256 ==> m[15] == 2 && m.subrange(80, 112)
                == crypto::hmac_sha256_of(
                crypto::hmac_sha256_of(send_key + recv_key, seed + seq![32u8, 0, 1]),
                front + Seq::new(32, |i: int| 0u8),
            )
        }),
{
    let m = bound_message(algo, nonce, cert_hash, send_key, recv_key);
    let blank = connected_wire(algo, nonce, cert_hash, crypto::zeros(32));
    let mac = compound_mac_of(algo, send_key, recv_key, blank);
    let full = mac + crypto::zeros((32 - algo.digest_len()) as nat);
    assert(mac.len() == algo.digest_len());
    lemma_connected_layout(algo, nonce, cert_hash, crypto::zeros(32));
    lemma_connected_layout(algo, nonce, cert_hash, full);
    let front = m.subrange(0, 80);
    assert(front + Seq::new(32, |i: int| 0u8) =~= blank);
    assert(m.subrange(16, 48) =~= nonce);
    assert(m.subrange(48, 80) =~= cert_hash);
    assert(m.subrange(80, 112) =~= full);
    if algo == HashAlgo::Sha256 {
        assert(full =~= mac);
    } else {
        assert(full =~= mac + Seq::new(12, |i: int| 0u8));
    }
}

} // verus!
