//! The cryptography of MS-CHAPv2 (RFC 2759): the response to a challenge, and
//! the proof by which a server shows that it knows the password too.

use crate::crypto;
use crate::text;
use crate::wire;
use vstd::prelude::*;
use vstd::utf8::encode_utf8;

verus! {

/// A character as UTF-16, each unit low byte first.
pub open spec fn utf16le_char(c: char) -> Seq<u8> {
    let n = c as nat;
    if n < 0x1_0000 {
        seq![(n % 256) as u8, (n / 256) as u8]
    } else {
        let hi = 0xd800 + (n - 0x1_0000) / 0x400;
        let lo = 0xdc00 + (n - 0x1_0000) % 0x400;
        seq![(hi % 256) as u8, (hi / 256) as u8, (lo % 256) as u8, (lo / 256) as u8]
    }
}

/// A text as UTF-16, each unit low byte first.
pub open spec fn utf16le(s: Seq<char>) -> Seq<u8>
    decreases s.len(),
{
    if s.len() == 0 {
        Seq::empty()
    } else {
        utf16le(s.drop_last()) + utf16le_char(s.last())
    }
}

/// Encodes a text as UTF-16, each unit low byte first.
pub fn encode_utf16le(s: &str) -> (out: Vec<u8>)
    ensures
        out@ == utf16le(s@),
{
    let chars = text::to_chars(s);
    let mut out: Vec<u8> = Vec::new();
    let mut i: usize = 0;
    while i < chars.len()
        invariant
            i <= chars@.len(),
            chars@ == s@,
            out@ == utf16le(s@.take(i as int)),
        decreases chars@.len() - i,
    {
        let n: u32 = chars[i] as u32;
        proof {
            vstd::utf8::char_is_scalar(chars@[i as int]);
            vstd::utf8::char_u32_cast(chars@[i as int], n);
        }
        if n < 0x1_0000 {
            out.push((n % 256) as u8);
            out.push((n / 256) as u8);
        } else {
            let hi: u32 = 0xd800 + (n - 0x1_0000) / 0x400;
            let lo: u32 = 0xdc00 + (n - 0x1_0000) % 0x400;
            out.push((hi % 256) as u8);
            out.push((hi / 256) as u8);
            out.push((lo % 256) as u8);
            out.push((lo / 256) as u8);
        }
        proof {
            assert(s@.take(i + 1).drop_last() =~= s@.take(i as int));
            assert(out@ =~= utf16le(s@.take(i as int)) + utf16le_char(s@[i as int]));
        }
        i += 1;
    }
    proof {
        assert(s@.take(i as int) =~= s@);
    }
    out
}

/// The hash of a password: MD4 over its UTF-16 form.
pub open spec fn password_hash(password: Seq<char>) -> Seq<u8> {
    crypto::md4_of(utf16le(password))
}

/// The part of a user name behind its last backslash.
pub open spec fn user_part(name: Seq<char>) -> Seq<char>
    decreases name.len(),
{
    if name.len() == 0 || name.last() == '\\' {
        Seq::empty()
    } else {
        user_part(name.drop_last()).push(name.last())
    }
}

/// What both challenges and the user name boil down to.
pub open spec fn hashed_challenge(
    peer_challenge: Seq<u8>,
    auth_challenge: Seq<u8>,
    username: Seq<char>,
) -> Seq<u8> {
    crypto::sha1_of(peer_challenge + auth_challenge + encode_utf8(user_part(username))).take(8)
}

/// The seven bits of `input` from bit `start` on, in the upper bits of a byte
/// whose lowest bit is clear. Bits are counted from the top of the first byte.
pub open spec fn seven_bits(input: Seq<u8>, start: nat) -> u8 {
    let word = (input[(start / 8) as int] * 256 + input[(start / 8 + 1) as int]) as u16;
    let low = (8 - start % 8) as u16;
    ((word >> low) & 0xfe) as u8
}

/// How many bits of a byte are set.
pub open spec fn ones(b: u8) -> nat
    decreases b,
{
    if b == 0 {
        0
    } else {
        (b % 2) as nat + ones(b / 2)
    }
}

/// A byte with its lowest bit set where the number of ones is even.
pub open spec fn odd_parity(b: u8) -> u8 {
    if ones(b) % 2 == 0 {
        b | 1
    } else {
        b
    }
}

/// The DES key made of the first fifty-six bits of `input`: seven bits in each
/// byte, and the lowest bit for odd parity.
pub open spec fn des_key(input: Seq<u8>) -> Seq<u8> {
    Seq::new(8, |i: int| odd_parity(seven_bits(input, (7 * i) as nat)))
}

/// The challenge under three DES keys cut out of the password hash.
pub open spec fn response_to(challenge: Seq<u8>, hash: Seq<u8>) -> Seq<u8> {
    let padded = hash + crypto::zeros(8);
    crypto::des_of(des_key(padded), challenge) + crypto::des_of(
        des_key(padded.skip(7)),
        challenge,
    ) + crypto::des_of(des_key(padded.skip(14)), challenge)
}

/// The response that shows knowledge of the password.
pub open spec fn nt_response_of(
    auth_challenge: Seq<u8>,
    peer_challenge: Seq<u8>,
    username: Seq<char>,
    password: Seq<char>,
) -> Seq<u8> {
    response_to(
        hashed_challenge(peer_challenge, auth_challenge, username),
        password_hash(password),
    )
}

/// The hash of a password: MD4 over its UTF-16 form.
fn nt_password_hash(password: &str) -> (r: [u8; 16])
    ensures
        r@ == password_hash(password@),
{
    let bytes = encode_utf16le(password);
    crypto::md4_digest(bytes.as_slice())
}

/// The part of a user name behind its last backslash.
pub fn user_of(username: &str) -> (r: String)
    ensures
        r@ == user_part(username@),
{
    let chars = text::to_chars(username);
    let mut start: usize = chars.len();
    let ghost all = username@;
    proof {
        assert(all.take(start as int) =~= all);
        assert(all.skip(start as int) =~= Seq::empty());
        assert(user_part(all) =~= user_part(all.take(start as int)) + all.skip(start as int));
    }
    while start > 0 && chars[start - 1] != '\\'
        invariant
            start <= chars@.len(),
            chars@ == all,
            user_part(all) == user_part(all.take(start as int)) + all.skip(start as int),
        decreases start,
    {
        proof {
            assert(all.take(start as int).drop_last() =~= all.take(start - 1));
            assert(all.take(start as int).last() == all[start - 1]);
            assert(user_part(all.take(start as int)) + all.skip(start as int) =~= user_part(
                all.take(start - 1),
            ) + all.skip(start - 1));
        }
        start -= 1;
    }
    let r = text::from_chars(&chars.as_slice()[start..chars.len()]);
    proof {
        assert(r@ =~= all.skip(start as int));
        if start > 0 {
            assert(all.take(start as int).last() == all[start - 1]);
        }
        assert(user_part(all.take(start as int)) =~= Seq::empty());
        assert(r@ =~= user_part(all));
    }
    r
}

/// What both challenges and the user name boil down to.
fn challenge_hash(
    peer_challenge: &[u8; 16],
    auth_challenge: &[u8; 16],
    username: &str,
) -> (r: [u8; 8])
    ensures
        r@ == hashed_challenge(peer_challenge@, auth_challenge@, username@),
{
    let user = user_of(username);
    let mut input: Vec<u8> = Vec::new();
    wire::append(&mut input, peer_challenge.as_slice());
    wire::append(&mut input, auth_challenge.as_slice());
    wire::append(&mut input, user.as_str().as_bytes());
    let digest = crypto::sha1_digest(input.as_slice());
    proof {
        assert(input@ =~= peer_challenge@ + auth_challenge@ + encode_utf8(user_part(username@)));
    }
    crypto::first8(&digest)
}

/// The seven bits of `input` from bit `start_bit` on.
fn get7bits(input: &[u8], start_bit: usize) -> (r: u8)
    requires
        start_bit / 8 + 1 < input@.len(),
    ensures
        r == seven_bits(input@, start_bit as nat),
{
    let at: usize = start_bit / 8;
    let word: u16 = input[at] as u16 * 256 + input[at + 1] as u16;
    let low: u16 = 8 - (start_bit % 8) as u16;
    ((word >> low) & 0xfe) as u8
}

/// How many bits of a byte are set.
pub fn count_ones(b: u8) -> (n: u8)
    ensures
        n == ones(b),
        n <= 8,
{
    let mut rest: u8 = b;
    let mut n: u8 = 0;
    let mut bound: u16 = 256;
    while rest != 0
        invariant
            rest < bound,
            ones(b) == n + ones(rest),
            n == 0 && bound == 256 || n <= 1 && bound == 128 || n <= 2 && bound == 64 || n <= 3
                && bound == 32 || n <= 4 && bound == 16 || n <= 5 && bound == 8 || n <= 6 && bound
                == 4 || n <= 7 && bound == 2 || n <= 8 && bound == 1,
        decreases rest,
    {
        n += rest % 2;
        rest = rest / 2;
        bound = bound / 2;
    }
    n
}

/// A byte with its lowest bit set where the number of ones is even.
fn set_odd_parity(b: u8) -> (r: u8)
    ensures
        r == odd_parity(b),
{
    if count_ones(b) % 2 == 0 {
        b | 1
    } else {
        b
    }
}

/// The DES key made of the first fifty-six bits of the input.
pub fn make_key(key_with_lookahead: &[u8]) -> (r: [u8; 8])
    requires
        key_with_lookahead@.len() >= 8,
    ensures
        r@ == des_key(key_with_lookahead@),
{
    let mut out: [u8; 8] = [0u8; 8];
    let mut i: usize = 0;
    while i < 8
        invariant
            i <= 8,
            key_with_lookahead@.len() >= 8,
            forall|j: int| 0 <= j < i ==> out@[j] == #[trigger] des_key(key_with_lookahead@)[j],
        decreases 8 - i,
    {
        out[i] = set_odd_parity(get7bits(key_with_lookahead, i * 7));
        i += 1;
    }
    proof {
        assert(out@ =~= des_key(key_with_lookahead@));
    }
    out
}

/// The challenge under three DES keys cut out of the password hash.
fn challenge_response(challenge: &[u8; 8], hash: &[u8; 16]) -> (r: [u8; 24])
    ensures
        r@ == response_to(challenge@, hash@),
{
    let mut padded: Vec<u8> = Vec::new();
    wire::append(&mut padded, hash.as_slice());
    let fill: [u8; 8] = [0u8; 8];
    wire::append(&mut padded, fill.as_slice());
    let k1 = make_key(padded.as_slice());
    let k2 = make_key(&padded.as_slice()[7..24]);
    let k3 = make_key(&padded.as_slice()[14..24]);
    proof {
        let all = hash@ + crypto::zeros(8);
        assert(padded@ =~= all);
        assert(padded@.subrange(7, 24) =~= all.skip(7));
        assert(padded@.subrange(14, 24) =~= all.skip(14));
    }
    let b1 = crypto::des_encrypt(&k1, challenge);
    let b2 = crypto::des_encrypt(&k2, challenge);
    let b3 = crypto::des_encrypt(&k3, challenge);
    join_blocks(&b1, &b2, &b3)
}

/// Three cipher blocks in a row.
pub fn join_blocks(b1: &[u8; 8], b2: &[u8; 8], b3: &[u8; 8]) -> (r: [u8; 24])
    ensures
        r@ == b1@ + b2@ + b3@,
{
    let mut r: [u8; 24] = [0u8; 24];
    let mut i: usize = 0;
    while i < 8
        invariant
            i <= 8,
            forall|j: int| 0 <= j < i ==> r@[j] == b1@[j],
            forall|j: int| 8 <= j < 8 + i ==> r@[j] == b2@[j - 8],
            forall|j: int| 16 <= j < 16 + i ==> r@[j] == b3@[j - 16],
        decreases 8 - i,
    {
        r[i] = b1[i];
        r[8 + i] = b2[i];
        r[16 + i] = b3[i];
        i += 1;
    }
    proof {
        assert(r@ =~= b1@ + b2@ + b3@);
    }
    r
}

/// The response that shows knowledge of the password.
pub fn generate_nt_response(
    auth_challenge: &[u8; 16],
    peer_challenge: &[u8; 16],
    username: &str,
    password: &str,
) -> (r: [u8; 24])
    ensures
        r@ == nt_response_of(auth_challenge@, peer_challenge@, username@, password@),
{
    let challenge = challenge_hash(peer_challenge, auth_challenge, username);
    let hash = nt_password_hash(password);
    challenge_response(&challenge, &hash)
}

/// What is hashed behind the response in the proof of a server.
pub open spec fn magic1() -> Seq<u8> {
    encode_utf8("Magic server to client signing constant"@)
}

/// What is hashed behind the challenge in the proof of a server.
pub open spec fn magic2() -> Seq<u8> {
    encode_utf8("Pad to make it do more than one iteration"@)
}

/// The digest by which a server proves that it knows the password.
pub open spec fn authenticator_digest(
    password: Seq<char>,
    nt_response: Seq<u8>,
    peer_challenge: Seq<u8>,
    auth_challenge: Seq<u8>,
    username: Seq<char>,
) -> Seq<u8> {
    let inner = crypto::sha1_of(
        crypto::md4_of(password_hash(password)) + nt_response + magic1(),
    );
    crypto::sha1_of(
        inner + hashed_challenge(peer_challenge, auth_challenge, username) + magic2(),
    )
}

/// The text form of a proof: `S=` and hexadecimal digits.
pub open spec fn authenticator_text(digest: Seq<u8>) -> Seq<char> {
    "S="@ + text::upper_hex(digest)
}

/// The text form of a proof: `S=` and hexadecimal digits.
pub fn format_authenticator(digest: &[u8; 20]) -> (s: String)
    ensures
        s@ == authenticator_text(digest@),
{
    let mut s = String::new();
    text::push_str(&mut s, "S=");
    text::push_upper_hex(&mut s, digest.as_slice());
    proof {
        assert(s@ =~= authenticator_text(digest@));
    }
    s
}

/// The proof that a server which knows the password sends on success.
pub fn generate_authenticator_response(
    password: &str,
    nt_response: &[u8; 24],
    peer_challenge: &[u8; 16],
    auth_challenge: &[u8; 16],
    username: &str,
) -> (s: String)
    ensures
        s@ == authenticator_text(
            authenticator_digest(
                password@,
                nt_response@,
                peer_challenge@,
                auth_challenge@,
                username@,
            ),
        ),
{
    let hash = nt_password_hash(password);
    let hash_hash = crypto::md4_digest(hash.as_slice());
    let mut input: Vec<u8> = Vec::new();
    wire::append(&mut input, hash_hash.as_slice());
    wire::append(&mut input, nt_response.as_slice());
    wire::append(&mut input, "Magic server to client signing constant".as_bytes());
    proof {
        assert(input@ =~= hash_hash@ + nt_response@ + magic1());
    }
    let inner = crypto::sha1_digest(input.as_slice());
    let challenge = challenge_hash(peer_challenge, auth_challenge, username);
    let mut outer: Vec<u8> = Vec::new();
    wire::append(&mut outer, inner.as_slice());
    wire::append(&mut outer, challenge.as_slice());
    wire::append(&mut outer, "Pad to make it do more than one iteration".as_bytes());
    proof {
        assert(outer@ =~= inner@ + challenge@ + magic2());
    }
    let digest = crypto::sha1_digest(outer.as_slice());
    format_authenticator(&digest)
}

/// A domain before the user name plays no part: what stands behind the last
/// backslash is all that counts.
pub proof fn law_domain_plays_no_part(
    domain: Seq<char>,
    user: Seq<char>,
    password: Seq<char>,
    auth_challenge: Seq<u8>,
    peer_challenge: Seq<u8>,
    nt_response: Seq<u8>,
)
    ensures
        user_part(domain + seq!['\\'] + user) == user_part(user),
        nt_response_of(auth_challenge, peer_challenge, domain + seq!['\\'] + user, password)
            == nt_response_of(auth_challenge, peer_challenge, user, password),
        authenticator_digest(
            password,
            nt_response,
            peer_challenge,
            auth_challenge,
            domain + seq!['\\'] + user,
        ) == authenticator_digest(password, nt_response, peer_challenge, auth_challenge, user),
    decreases user.len(),
{
    let full = domain + seq!['\\'] + user;
    if user.len() == 0 {
        assert(full.last() == '\\');
    } else {
        law_domain_plays_no_part(
            domain,
            user.drop_last(),
            password,
            auth_challenge,
            peer_challenge,
            nt_response,
        );
        assert(full.drop_last() =~= domain + seq!['\\'] + user.drop_last());
        assert(full.last() == user.last());
    }
}

/// A user name without a backslash is hashed whole.
pub proof fn law_plain_name_is_hashed_whole(user: Seq<char>)
    requires
        !user.contains('\\'),
    ensures
        user_part(user) == user,
    decreases user.len(),
{
    if user.len() > 0 {
        assert(user.contains(user.last()));
        assert forall|c: char| user.drop_last().contains(c) implies user.contains(c) by {
            let i = choose|i: int| 0 <= i < user.drop_last().len() && user.drop_last()[i] == c;
            assert(user[i] == c);
        }
        law_plain_name_is_hashed_whole(user.drop_last());
        assert(user =~= user.drop_last().push(user.last()));
    }
}

/// Every byte of a DES key has an odd number of ones.
pub proof fn law_key_bytes_have_odd_parity(input: Seq<u8>, i: int)
    requires
        0 <= i < 8,
    ensures
        ones(des_key(input)[i]) % 2 == 1,
{
    let word = (input[((7 * i) / 8) as int] * 256 + input[((7 * i) / 8 + 1) as int]) as u16;
    let low = (8 - (7 * i) % 8) as u16;
    let b = seven_bits(input, (7 * i) as nat);
    assert(((word >> low) & 0xfe) as u8 % 2 == 0) by (bit_vector);
    assert(b % 2 == 0 ==> b | 1 == b + 1) by (bit_vector);
    assert(b % 2 == 0);
    assert(ones((b + 1) as u8) == 1 + ones(b)) by {
        assert((b + 1) / 2 == b / 2);
        assert((b + 1) % 2 == 1);
        assert(ones(b) == ones(b / 2));
    }
}

/// A character below 65536 becomes one unit, its own number; any other becomes
/// a surrogate pair from which its number can be computed back.
pub proof fn law_units_give_the_character(c: char)
    ensures
        ({
            let b = utf16le_char(c);
            let n = c as int;
            &&& n < 0x1_0000 ==> b.len() == 2 && b[0] + 256 * b[1] == n
            &&& n >= 0x1_0000 ==> {
                let hi = b[0] + 256 * b[1] - 0xd800;
                let lo = b[2] + 256 * b[3] - 0xdc00;
                b.len() == 4 && 0 <= hi < 0x400 && 0 <= lo < 0x400 && 0x1_0000 + 0x400 * hi + lo
                    == n
            }
        }),
{
    vstd::utf8::char_is_scalar(c);
}

/// A text is encoded character by character.
pub proof fn law_text_is_encoded_in_order(s: Seq<char>, c: char)
    ensures
        utf16le(Seq::empty()) == Seq::<u8>::empty(),
        utf16le(s.push(c)) == utf16le(s) + utf16le_char(c),
{
    assert(s.push(c).drop_last() =~= s);
}

/// Of a name with a domain in front of it, the part behind the backslash is
/// hashed.
pub proof fn law_domain_is_cut_off(domain: Seq<char>, user: Seq<char>)
    requires
        !user.contains('\\'),
    ensures
        user_part(domain + seq!['\\'] + user) == user,
{
    law_domain_plays_no_part(domain, user, user, Seq::empty(), Seq::empty(), Seq::empty());
    law_plain_name_is_hashed_whole(user);
}

proof fn lemma_upper_bits(w: u16)
    by (bit_vector)
    ensures
        ((w >> 8) & 0xfe) == 2 * ((w / 512) % 128),
        ((w >> 7) & 0xfe) == 2 * ((w / 256) % 128),
        ((w >> 6) & 0xfe) == 2 * ((w / 128) % 128),
        ((w >> 5) & 0xfe) == 2 * ((w / 64) % 128),
        ((w >> 4) & 0xfe) == 2 * ((w / 32) % 128),
        ((w >> 3) & 0xfe) == 2 * ((w / 16) % 128),
        ((w >> 2) & 0xfe) == 2 * ((w / 8) % 128),
        ((w >> 1) & 0xfe) == 2 * ((w / 4) % 128),
{
}

proof fn lemma_parity_keeps_the_upper_bits(b: u8)
    requires
        b % 2 == 0,
    ensures
        odd_parity(b) / 2 == b / 2,
{
    assert(b % 2 == 0 ==> b | 1 == b + 1) by (bit_vector);
}

/// The first fifty-six bits of the input fill the upper seven bits of the
/// eight bytes of a key, in order.
pub proof fn law_key_holds_the_bits(i: Seq<u8>)
    requires
        i.len() >= 8,
    ensures
        ({
            let k = des_key(i);
            &&& k.len() == 8
            &&& k[0] / 2 == i[0] / 2
            &&& k[1] / 2 == (i[0] % 2) * 64 + i[1] / 4
            &&& k[2] / 2 == (i[1] % 4) * 32 + i[2] / 8
            &&& k[3] / 2 == (i[2] % 8) * 16 + i[3] / 16
            &&& k[4] / 2 == (i[3] % 16) * 8 + i[4] / 32
            &&& k[5] / 2 == (i[4] % 32) * 4 + i[5] / 64
            &&& k[6] / 2 == (i[5] % 64) * 2 + i[6] / 128
            &&& k[7] / 2 == i[6] % 128
        }),
{
    let k = des_key(i);
    assert(k[0] / 2 == i[0] / 2) by {
        lemma_key_byte(i, 0);
        lemma_cut(i[0], i[1]);
    }
    assert(k[1] / 2 == (i[0] % 2) * 64 + i[1] / 4) by {
        lemma_key_byte(i, 1);
        lemma_cut(i[0], i[1]);
    }
    assert(k[2] / 2 == (i[1] % 4) * 32 + i[2] / 8) by {
        lemma_key_byte(i, 2);
        lemma_cut(i[1], i[2]);
    }
    assert(k[3] / 2 == (i[2] % 8) * 16 + i[3] / 16) by {
        lemma_key_byte(i, 3);
        lemma_cut(i[2], i[3]);
    }
    assert(k[4] / 2 == (i[3] % 16) * 8 + i[4] / 32) by {
        lemma_key_byte(i, 4);
        lemma_cut(i[3], i[4]);
    }
    assert(k[5] / 2 == (i[4] % 32) * 4 + i[5] / 64) by {
        lemma_key_byte(i, 5);
        lemma_cut(i[4], i[5]);
    }
    assert(k[6] / 2 == (i[5] % 64) * 2 + i[6] / 128) by {
        lemma_key_byte(i, 6);
        lemma_cut(i[5], i[6]);
    }
    assert(k[7] / 2 == i[6] % 128) by {
        lemma_key_byte(i, 7);
        lemma_cut(i[6], i[7]);
    }
}

proof fn lemma_cut(a: u8, b: u8)
    by (bit_vector)
    ensures
        ((a * 256 + b) / 512) % 128 == a / 2,
        ((a * 256 + b) / 4) % 128 == (a % 2) * 64 + b / 4,
        ((a * 256 + b) / 8) % 128 == (a % 4) * 32 + b / 8,
        ((a * 256 + b) / 16) % 128 == (a % 8) * 16 + b / 16,
        ((a * 256 + b) / 32) % 128 == (a % 16) * 8 + b / 32,
        ((a * 256 + b) / 64) % 128 == (a % 32) * 4 + b / 64,
        ((a * 256 + b) / 128) % 128 == (a % 64) * 2 + b / 128,
        ((a * 256 + b) / 256) % 128 == a % 128,
{
}

proof fn lemma_key_byte(i: Seq<u8>, j: int)
    requires
        i.len() >= 8,
        0 <= j < 8,
    ensures
        ({
            let w = i[(7 * j) / 8] * 256 + i[(7 * j) / 8 + 1];
            let k = des_key(i)[j] / 2;
            &&& j == 0 ==> k == (w / 512) % 128
            &&& j == 1 ==> k == (w / 4) % 128
            &&& j == 2 ==> k == (w / 8) % 128
            &&& j == 3 ==> k == (w / 16) % 128
            &&& j == 4 ==> k == (w / 32) % 128
            &&& j == 5 ==> k == (w / 64) % 128
            &&& j == 6 ==> k == (w / 128) % 128
            &&& j == 7 ==> k == (w / 256) % 128
        }),
{
    let w = (i[(7 * j) / 8] * 256 + i[(7 * j) / 8 + 1]) as u16;
    lemma_upper_bits(w);
    let b = seven_bits(i, (7 * j) as nat);
    lemma_parity_keeps_the_upper_bits(b);
}

/// The ones of a byte are counted bit by bit.
pub proof fn law_ones_are_counted(b: u8)
    ensures
        ones(b) == b % 2 + (b / 2) % 2 + (b / 4) % 2 + (b / 8) % 2 + (b / 16) % 2 + (b / 32) % 2 + (
        b / 64) % 2 + (b / 128) % 2,
{
    let c1 = b / 2;
    let c2 = c1 / 2;
    let c3 = c2 / 2;
    let c4 = c3 / 2;
    let c5 = c4 / 2;
    let c6 = c5 / 2;
    let c7 = c6 / 2;
    assert(c2 == b / 4);
    assert(c3 == b / 8);
    assert(c4 == b / 16);
    assert(c5 == b / 32);
    assert(c6 == b / 64);
    assert(c7 == b / 128);
    assert(c7 / 2 == 0);
    assert(ones(0) == 0);
    assert(ones(c7) == c7 % 2);
    assert(ones(c6) == c6 % 2 + ones(c7));
    assert(ones(c5) == c5 % 2 + ones(c6));
    assert(ones(c4) == c4 % 2 + ones(c5));
    assert(ones(c3) == c3 % 2 + ones(c4));
    assert(ones(c2) == c2 % 2 + ones(c3));
    assert(ones(c1) == c1 % 2 + ones(c2));
    assert(ones(b) == b % 2 + ones(c1));
}

/// The response of RFC 2759: eight bytes of the SHA-1 digest over the client's
/// challenge, the server's challenge and the user name, in this order, under
/// DES with three keys. The keys are cut out of the MD4 digest of the password,
/// seven bytes each, with zeros behind the end.
pub proof fn law_response_is_three_blocks(
    auth_challenge: Seq<u8>,
    peer_challenge: Seq<u8>,
    username: Seq<char>,
    password: Seq<char>,
)
    requires
        crypto::md4_of(utf16le(password)).len() == 16,
        !username.contains('\\'),
    ensures
        ({
            let h = crypto::md4_of(utf16le(password));
            let c = crypto::sha1_of(
                peer_challenge + auth_challenge + encode_utf8(username),
            ).subrange(0, 8);
            nt_response_of(auth_challenge, peer_challenge, username, password) == crypto::des_of(
                des_key(h.subrange(0, 8)),
                c,
            ) + crypto::des_of(des_key(h.subrange(7, 15)), c) + crypto::des_of(
                des_key(seq![h[14], h[15], 0, 0, 0, 0, 0, 0]),
                c,
            )
        }),
{
    law_plain_name_is_hashed_whole(username);
    let h = crypto::md4_of(utf16le(password));
    let p = h + crypto::zeros(8);
    let last = seq![h[14], h[15], 0u8, 0, 0, 0, 0, 0];
    lemma_key_reads_eight_bytes(p, h.subrange(0, 8));
    lemma_key_reads_eight_bytes(p.skip(7), h.subrange(7, 15));
    lemma_key_reads_eight_bytes(p.skip(14), last);
}

proof fn lemma_key_reads_eight_bytes(a: Seq<u8>, b: Seq<u8>)
    requires
        a.len() >= 8,
        b.len() >= 8,
        forall|i: int| 0 <= i < 8 ==> a[i] == b[i],
    ensures
        des_key(a) == des_key(b),
{
    assert(des_key(a) =~= des_key(b)) by {
        assert forall|i: int| 0 <= i < 8 implies des_key(a)[i] == des_key(b)[i] by {
            assert(0 <= (7 * i) / 8 < 7);
            assert(a[(7 * i) / 8] == b[(7 * i) / 8]);
            assert(a[(7 * i) / 8 + 1] == b[(7 * i) / 8 + 1]);
        }
    }
}

/// The proof of RFC 2759: SHA-1 over the digest of the hashed password hash,
/// the response and the first constant; then SHA-1 over that, the challenge
/// that the response answers and the second constant. It is written as `S=` and
/// forty capital hexadecimal digits.
pub proof fn law_proof_is_two_digests(
    password: Seq<char>,
    nt_response: Seq<u8>,
    peer_challenge: Seq<u8>,
    auth_challenge: Seq<u8>,
    username: Seq<char>,
)
    requires
        !username.contains('\\'),
    ensures
        ({
            let d = crypto::sha1_of(
                crypto::md4_of(crypto::md4_of(utf16le(password))) + nt_response + encode_utf8(
                    "Magic server to client signing constant"@,
                ),
            );
            let c = crypto::sha1_of(
                peer_challenge + auth_challenge + encode_utf8(username),
            ).subrange(0, 8);
            let digest = crypto::sha1_of(
                d + c + encode_utf8("Pad to make it do more than one iteration"@),
            );
            &&& authenticator_digest(
                password,
                nt_response,
                peer_challenge,
                auth_challenge,
                username,
            ) == digest
            &&& authenticator_text(digest) == seq!['S', '='] + text::upper_hex(digest)
        }),
{
    law_plain_name_is_hashed_whole(username);
    reveal_strlit("S=");
    let digest = authenticator_digest(
        password,
        nt_response,
        peer_challenge,
        auth_challenge,
        username,
    );
    assert(authenticator_text(digest) =~= seq!['S', '='] + text::upper_hex(digest));
    let c = crypto::sha1_of(peer_challenge + auth_challenge + encode_utf8(username));
    assert(c.take(8) =~= c.subrange(0, 8));
}

} // verus!
