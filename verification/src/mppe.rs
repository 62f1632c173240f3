//! The session keys that both sides derive from an MS-CHAPv2 exchange
//! (RFC 3079).

use crate::crypto;
use crate::text;
use crate::wire;
use vstd::prelude::*;
use vstd::utf8::encode_utf8;

verus! {

/// What is hashed into the master key.
pub const MASTER_KEY_MAGIC: &'static str = "This is the MPPE Master Key";

/// What is hashed into the key for traffic from the client to the server.
pub const SESSION_KEY_MAGIC_CLIENT_SEND: &'static str =
    "On the client side, this is the send key; on the server side, it is the receive key.";

/// What is hashed into the key for traffic from the server to the client.
pub const SESSION_KEY_MAGIC_CLIENT_RECV: &'static str =
    "On the client side, this is the receive key; on the server side, it is the send key.";

/// Bytes with a zero behind each.
pub open spec fn doubled(bytes: Seq<u8>) -> Seq<u8> {
    Seq::new(
        2 * bytes.len(),
        |i: int|
            if i % 2 == 0 {
                bytes[i / 2]
            } else {
                0u8
            },
    )
}

/// The hash of the hash of a password. Each byte of the password is widened by
/// a zero, which is UTF-16 for ASCII passwords alone.
pub open spec fn hash_hash(password: Seq<char>) -> Seq<u8> {
    crypto::md4_of(crypto::md4_of(doubled(encode_utf8(password))))
}

/// The key that both session keys come from.
pub open spec fn master_key_of(hash: Seq<u8>, nt_response: Seq<u8>) -> Seq<u8> {
    crypto::sha1_of(hash + nt_response + encode_utf8(MASTER_KEY_MAGIC@)).take(16)
}

/// `n` bytes of value `0xf2`.
pub open spec fn filler(n: nat) -> Seq<u8> {
    Seq::new(n, |i: int| 0xf2u8)
}

/// The session key for one direction.
pub open spec fn session_key_of(master: Seq<u8>, sending: bool, is_server: bool) -> Seq<u8> {
    let magic = if sending != is_server {
        encode_utf8(SESSION_KEY_MAGIC_CLIENT_SEND@)
    } else {
        encode_utf8(SESSION_KEY_MAGIC_CLIENT_RECV@)
    };
    crypto::sha1_of(master + crypto::zeros(40) + magic + filler(40)).take(16)
}

/// The two keys of a side.
#[derive(Clone, Copy, PartialEq, Eq)]
pub struct MppeKeys {
    pub send_key: [u8; 16],
    pub recv_key: [u8; 16],
}

/// What a pair of keys is.
#[verifier::ext_equal]
pub struct MppeKeysView {
    pub send_key: Seq<u8>,
    pub recv_key: Seq<u8>,
}

impl View for MppeKeys {
    type V = MppeKeysView;

    open spec fn view(&self) -> MppeKeysView {
        MppeKeysView { send_key: self.send_key@, recv_key: self.recv_key@ }
    }
}

impl MppeKeys {
    /// A description for logs, the same for all keys.
    pub fn debug_text(&self) -> (s: String)
        ensures
            s@ == "MppeKeys { send_key: \"<redacted>\", recv_key: \"<redacted>\" }"@,
    {
        let mut s = String::new();
        text::push_str(
            &mut s,
            "MppeKeys { send_key: \"<redacted>\", recv_key: \"<redacted>\" }",
        );
        proof {
            assert(s@ =~= "MppeKeys { send_key: \"<redacted>\", recv_key: \"<redacted>\" }"@);
        }
        s
    }
}

/// The keys of a side.
pub open spec fn keys_of(password: Seq<char>, nt_response: Seq<u8>, is_server: bool) -> MppeKeysView {
    let master = master_key_of(hash_hash(password), nt_response);
    MppeKeysView {
        send_key: session_key_of(master, true, is_server),
        recv_key: session_key_of(master, false, is_server),
    }
}

/// Puts a zero behind each byte.
pub fn widen(bytes: &[u8]) -> (out: Vec<u8>)
    ensures
        out@ == doubled(bytes@),
{
    let mut out: Vec<u8> = Vec::new();
    let mut i: usize = 0;
    while i < bytes.len()
        invariant
            i <= bytes@.len(),
            out@ == doubled(bytes@.take(i as int)),
        decreases bytes@.len() - i,
    {
        out.push(bytes[i]);
        out.push(0);
        proof {
            assert(out@ =~= doubled(bytes@.take(i + 1)));
        }
        i += 1;
    }
    proof {
        assert(bytes@.take(i as int) =~= bytes@);
    }
    out
}

fn password_hash_hash(password: &str) -> (r: [u8; 16])
    ensures
        r@ == hash_hash(password@),
{
    let wide = widen(password.as_bytes());
    let hash = crypto::md4_digest(wide.as_slice());
    crypto::md4_digest(hash.as_slice())
}

fn master_key(hash: &[u8; 16], nt_response: &[u8; 24]) -> (r: [u8; 16])
    ensures
        r@ == master_key_of(hash@, nt_response@),
{
    let mut input: Vec<u8> = Vec::new();
    wire::append(&mut input, hash.as_slice());
    wire::append(&mut input, nt_response.as_slice());
    wire::append(&mut input, MASTER_KEY_MAGIC.as_bytes());
    proof {
        assert(input@ =~= hash@ + nt_response@ + encode_utf8(MASTER_KEY_MAGIC@));
    }
    let digest = crypto::sha1_digest(input.as_slice());
    crypto::first16(&digest)
}

fn session_key(master: &[u8; 16], sending: bool, is_server: bool) -> (r: [u8; 16])
    ensures
        r@ == session_key_of(master@, sending, is_server),
{
    let magic = if sending != is_server {
        SESSION_KEY_MAGIC_CLIENT_SEND
    } else {
        SESSION_KEY_MAGIC_CLIENT_RECV
    };
    let front: [u8; 40] = [0u8; 40];
    let back: [u8; 40] = [0xf2u8; 40];
    let mut input: Vec<u8> = Vec::new();
    wire::append(&mut input, master.as_slice());
    wire::append(&mut input, front.as_slice());
    wire::append(&mut input, magic.as_bytes());
    wire::append(&mut input, back.as_slice());
    proof {
        assert(front@ =~= crypto::zeros(40));
        assert(back@ =~= filler(40));
        assert(input@ =~= master@ + crypto::zeros(40) + encode_utf8(magic@) + filler(40));
    }
    let digest = crypto::sha1_digest(input.as_slice());
    crypto::first16(&digest)
}

/// Derives the keys of a side from the password and the response.
pub fn mppe_get_keys(password: &str, nt_response: &[u8; 24], is_server: bool) -> (k: MppeKeys)
    ensures
        k@ == keys_of(password@, nt_response@, is_server),
{
    let hash = password_hash_hash(password);
    let master = master_key(&hash, nt_response);
    let recv_key = session_key(&master, false, is_server);
    let send_key = session_key(&master, true, is_server);
    MppeKeys { send_key, recv_key }
}

/// What one side sends under, the other receives under.
pub proof fn law_sides_mirror(password: Seq<char>, nt_response: Seq<u8>)
    ensures
        keys_of(password, nt_response, false).send_key == keys_of(
            password,
            nt_response,
            true,
        ).recv_key,
        keys_of(password, nt_response, false).recv_key == keys_of(
            password,
            nt_response,
            true,
        ).send_key,
{
}

/// For ASCII passwords the widened bytes are the UTF-16 form that the
/// authentication hashes, so both start from the same password hash.
pub proof fn law_ascii_passwords_agree(password: Seq<char>)
    requires
        vstd::utf8::is_ascii_chars(password),
    ensures
        doubled(encode_utf8(password)) == crate::chap::utf16le(password),
        hash_hash(password) == crypto::md4_of(crate::chap::password_hash(password)),
    decreases password.len(),
{
    vstd::utf8::is_ascii_chars_encode_utf8(password);
    if password.len() > 0 {
        let front = password.drop_last();
        vstd::utf8::is_ascii_chars_encode_utf8(front);
        law_ascii_passwords_agree(front);
        let bytes = encode_utf8(password);
        assert(bytes.drop_last() =~= encode_utf8(front));
        assert(doubled(bytes) =~= doubled(encode_utf8(front)) + crate::chap::utf16le_char(
            password.last(),
        ));
    } else {
        assert(doubled(encode_utf8(password)) =~= crate::chap::utf16le(password));
    }
}

/// Each byte keeps its place, with a zero behind it.
pub proof fn law_bytes_are_widened(bytes: Seq<u8>, i: int)
    requires
        0 <= i < bytes.len(),
    ensures
        doubled(bytes).len() == 2 * bytes.len(),
        doubled(bytes)[2 * i] == bytes[i],
        doubled(bytes)[2 * i + 1] == 0,
{
}

/// The keys of RFC 3079, with both constants and both paddings written out: the
/// client sends under the key that the server receives under.
pub proof fn law_keys_come_from_the_response(password: Seq<char>, nt_response: Seq<u8>)
    ensures
        ({
            let hash = crypto::md4_of(crypto::md4_of(doubled(encode_utf8(password))));
            let master = crypto::sha1_of(
                hash + nt_response + encode_utf8("This is the MPPE Master Key"@),
            ).subrange(0, 16);
            let zeros = Seq::new(40, |i: int| 0u8);
            let pad = Seq::new(40, |i: int| 0xf2u8);
            let keys = keys_of(password, nt_response, false);
            &&& keys.send_key == crypto::sha1_of(
                master + zeros + encode_utf8(
                    "On the client side, this is the send key; on the server side, it is the receive key."@,
                ) + pad,
            ).subrange(0, 16)
            &&& keys.recv_key == crypto::sha1_of(
                master + zeros + encode_utf8(
                    "On the client side, this is the receive key; on the server side, it is the send key."@,
                ) + pad,
            ).subrange(0, 16)
        }),
{
    let hash = hash_hash(password);
    let digest = crypto::sha1_of(hash + nt_response + encode_utf8(MASTER_KEY_MAGIC@));
    assert(digest.take(16) =~= digest.subrange(0, 16));
    let master = master_key_of(hash, nt_response);
    let zeros = Seq::new(40, |i: int| 0u8);
    let pad = Seq::new(40, |i: int| 0xf2u8);
    assert(zeros =~= crypto::zeros(40));
    assert(pad =~= filler(40));
    let send = crypto::sha1_of(
        master + zeros + encode_utf8(SESSION_KEY_MAGIC_CLIENT_SEND@) + pad,
    );
    let recv = crypto::sha1_of(
        master + zeros + encode_utf8(SESSION_KEY_MAGIC_CLIENT_RECV@) + pad,
    );
    assert(send.take(16) =~= send.subrange(0, 16));
    assert(recv.take(16) =~= recv.subrange(0, 16));
}

} // verus!
