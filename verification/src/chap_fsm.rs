//! The frames of CHAP (RFC 1994) and the client's part in an MS-CHAPv2
//! exchange: it answers a challenge, and checks the proof that comes back.

use crate::chap;
use crate::entropy;
use crate::text;
use crate::wire;
use vstd::prelude::*;
use vstd::utf8::{decode_utf8, encode_utf8, valid_utf8};

verus! {

/// The codes of CHAP.
#[derive(Debug, Clone, Copy, PartialEq, Eq, Structural)]
pub enum Code {
    Challenge,
    Response,
    Success,
    Failure,
    Unknown(u8),
}

impl Code {
    /// The number of this code.
    pub open spec fn code(self) -> u8 {
        match self {
            Code::Challenge => 1,
            Code::Response => 2,
            Code::Success => 3,
            Code::Failure => 4,
            Code::Unknown(v) => v,
        }
    }

    /// The code that a number stands for.
    pub open spec fn of_code(v: u8) -> Code {
        if v == 1 {
            Code::Challenge
        } else if v == 2 {
            Code::Response
        } else if v == 3 {
            Code::Success
        } else if v == 4 {
            Code::Failure
        } else {
            Code::Unknown(v)
        }
    }

    /// The name of this code, with the number of an unknown one in brackets.
    pub open spec fn label(self) -> Seq<char> {
        match self {
            Code::Challenge => "Challenge"@,
            Code::Response => "Response"@,
            Code::Success => "Success"@,
            Code::Failure => "Failure"@,
            Code::Unknown(v) => "Unknown("@ + text::decimal(v as nat) + ")"@,
        }
    }

    /// The number of this code.
    pub fn to_u8(self) -> (v: u8)
        ensures
            v == self.code(),
    {
        match self {
            Code::Challenge => 1,
            Code::Response => 2,
            Code::Success => 3,
            Code::Failure => 4,
            Code::Unknown(v) => v,
        }
    }

    /// The code that a number stands for.
    pub fn from_u8(v: u8) -> (c: Code)
        ensures
            c == Code::of_code(v),
    {
        match v {
            1 => Code::Challenge,
            2 => Code::Response,
            3 => Code::Success,
            4 => Code::Failure,
            other => Code::Unknown(other),
        }
    }

    /// Appends the name of this code to `out`.
    pub fn push_label(self, out: &mut String)
        ensures
            final(out)@ == old(out)@ + self.label(),
    {
        match self {
            Code::Challenge => text::push_str(out, "Challenge"),
            Code::Response => text::push_str(out, "Response"),
            Code::Success => text::push_str(out, "Success"),
            Code::Failure => text::push_str(out, "Failure"),
            Code::Unknown(v) => {
                text::push_str(out, "Unknown(");
                text::push_decimal(out, v as u64);
                text::push_str(out, ")");
                proof {
                    assert(out@ =~= old(out)@ + self.label());
                }
            },
        }
    }
}

/// A CHAP frame.
#[derive(Debug, Clone, PartialEq, Eq)]
pub struct Frame {
    pub code: Code,
    pub id: u8,
    pub data: Vec<u8>,
}

/// What a CHAP frame is.
#[verifier::ext_equal]
pub struct FrameView {
    pub code: Code,
    pub id: u8,
    pub data: Seq<u8>,
}

impl View for Frame {
    type V = FrameView;

    open spec fn view(&self) -> FrameView {
        FrameView { code: self.code, id: self.id, data: self.data@ }
    }
}

/// The wire form of a frame; the length counts the header too.
pub open spec fn frame_wire(code: Code, id: u8, data: Seq<u8>) -> Seq<u8> {
    seq![code.code(), id] + wire::be16(4 + data.len()) + data
}

/// The frame at the front of `buf`, where there is a whole one.
pub open spec fn frame_read(buf: Seq<u8>) -> Option<FrameView> {
    if buf.len() < 4 {
        None
    } else {
        let len = wire::be16_value(buf[2], buf[3]);
        if len < 4 || len > buf.len() {
            None
        } else {
            Some(
                FrameView {
                    code: Code::of_code(buf[0]),
                    id: buf[1],
                    data: buf.subrange(4, len as int),
                },
            )
        }
    }
}

/// Encodes a frame.
pub fn encode(code: Code, id: u8, data: &[u8]) -> (out: Vec<u8>)
    ensures
        out@ == frame_wire(code, id, data@),
{
    let mut out: Vec<u8> = Vec::new();
    out.push(code.to_u8());
    out.push(id);
    wire::push_be16(&mut out, 4 + data.len() % 0x1_0000);
    wire::append(&mut out, data);
    proof {
        wire::lemma_be16_is_modular(4, data@.len());
        assert(out@ =~= frame_wire(code, id, data@));
    }
    out
}

/// Decodes the frame at the front of `buf`.
pub fn decode(buf: &[u8]) -> (r: Option<Frame>)
    ensures
        match (r, frame_read(buf@)) {
            (Some(f), Some(v)) => f@ == v,
            (None, None) => true,
            _ => false,
        },
{
    if buf.len() < 4 {
        return None;
    }
    let code = Code::from_u8(buf[0]);
    let id: u8 = buf[1];
    let len: usize = wire::read_be16(buf[2], buf[3]) as usize;
    if len < 4 || len > buf.len() {
        return None;
    }
    Some(Frame { code, id, data: vstd::slice::slice_to_vec(&buf[4..len]) })
}

/// What a challenge says.
#[derive(Debug, Clone, PartialEq, Eq)]
pub struct ChallengeInfo {
    pub id: u8,
    pub value: Vec<u8>,
    pub name: String,
}

/// The value and the name in the data of a challenge: the length of the value,
/// the value, and the bytes of the name.
pub open spec fn challenge_parts(data: Seq<u8>) -> Option<(Seq<u8>, Seq<u8>)> {
    if data.len() == 0 || data.len() < 1 + data[0] {
        None
    } else {
        Some((data.subrange(1, 1 + data[0]), data.skip(1 + data[0])))
    }
}

/// Parses the data of a challenge.
pub fn parse_challenge(frame: &Frame) -> (r: Option<ChallengeInfo>)
    ensures
        match challenge_parts(frame.data@) {
            None => r is None,
            Some((value, name)) => {
                &&& r matches Some(c)
                &&& c.id == frame.id
                &&& c.value@ == value
                &&& c.name@ == text::utf8_lossy(name)
                &&& valid_utf8(name) ==> c.name@ == decode_utf8(name)
            },
        },
{
    if frame.data.len() == 0 {
        return None;
    }
    let size: usize = frame.data[0] as usize;
    if frame.data.len() < 1 + size {
        return None;
    }
    let all = frame.data.as_slice();
    let value = vstd::slice::slice_to_vec(&all[1..1 + size]);
    let rest = &all[1 + size..all.len()];
    proof {
        assert(rest@ =~= frame.data@.skip(1 + size));
    }
    let name = text::lossy(rest);
    Some(ChallengeInfo { id: frame.id, value, name })
}

/// Why no response could be built.
#[derive(Debug)]
pub enum ResponseError {
    /// The value of the challenge is not sixteen bytes long.
    BadChallengeLength(usize),
}

/// What is kept of a response until the server has answered it.
pub struct PendingResponse {
    pub peer_challenge: [u8; 16],
    pub nt_response: [u8; 24],
}

/// What is kept of a response.
#[verifier::ext_equal]
pub struct PendingView {
    pub peer_challenge: Seq<u8>,
    pub nt_response: Seq<u8>,
}

impl View for PendingResponse {
    type V = PendingView;

    open spec fn view(&self) -> PendingView {
        PendingView { peer_challenge: self.peer_challenge@, nt_response: self.nt_response@ }
    }
}

/// The data of a response: the length of the value, the value (the client's
/// own challenge, eight zeros, the response, a zero), and the user name.
pub open spec fn response_data(
    peer_challenge: Seq<u8>,
    nt_response: Seq<u8>,
    username: Seq<char>,
) -> Seq<u8> {
    seq![49u8] + peer_challenge + crate::crypto::zeros(8) + nt_response + seq![0u8] + encode_utf8(
        username,
    )
}

/// The response to a challenge under the client's own challenge.
pub open spec fn response_parts(
    id: u8,
    auth_challenge: Seq<u8>,
    username: Seq<char>,
    password: Seq<char>,
    peer_challenge: Seq<u8>,
) -> (Seq<u8>, PendingView) {
    let nt = chap::nt_response_of(auth_challenge, peer_challenge, username, password);
    (
        frame_wire(Code::Response, id, response_data(peer_challenge, nt, username)),
        PendingView { peer_challenge, nt_response: nt },
    )
}

/// Sixteen bytes as an array, where there are sixteen.
pub fn block16(bytes: &[u8]) -> (r: Option<[u8; 16]>)
    ensures
        match r {
            Some(b) => b@ == bytes@,
            None => bytes@.len() != 16,
        },
{
    if bytes.len() != 16 {
        return None;
    }
    let mut b: [u8; 16] = [0u8; 16];
    let mut i: usize = 0;
    while i < 16
        invariant
            i <= 16,
            bytes@.len() == 16,
            forall|j: int| 0 <= j < i ==> b@[j] == bytes@[j],
        decreases 16 - i,
    {
        b[i] = bytes[i];
        i += 1;
    }
    proof {
        assert(b@ =~= bytes@);
    }
    Some(b)
}

/// Builds the response to a challenge, with a random challenge of the
/// client's own.
pub fn build_response(
    challenge: &ChallengeInfo,
    username: &str,
    password: &str,
) -> (r: Result<(Vec<u8>, PendingResponse), ResponseError>)
    ensures
        match r {
            Ok((wire, pending)) => {
                &&& challenge.value@.len() == 16
                &&& (wire@, pending@) == response_parts(
                    challenge.id,
                    challenge.value@,
                    username@,
                    password@,
                    pending@.peer_challenge,
                )
            },
            Err(ResponseError::BadChallengeLength(n)) => {
                &&& n != 16
                &&& n == challenge.value@.len()
            },
        },
{
    let peer_challenge = entropy::random_block();
    build_response_with(challenge, username, password, &peer_challenge)
}

/// Builds the response to a challenge, with the client's own challenge given.
pub fn build_response_with(
    challenge: &ChallengeInfo,
    username: &str,
    password: &str,
    peer_challenge: &[u8; 16],
) -> (r: Result<(Vec<u8>, PendingResponse), ResponseError>)
    ensures
        match r {
            Ok((wire, pending)) => {
                &&& challenge.value@.len() == 16
                &&& (wire@, pending@) == response_parts(
                    challenge.id,
                    challenge.value@,
                    username@,
                    password@,
                    peer_challenge@,
                )
            },
            Err(ResponseError::BadChallengeLength(n)) => {
                &&& n != 16
                &&& n == challenge.value@.len()
            },
        },
{
    let auth_challenge = match block16(challenge.value.as_slice()) {
        Some(b) => b,
        None => return Err(ResponseError::BadChallengeLength(challenge.value.len())),
    };
    let nt_response = chap::generate_nt_response(
        &auth_challenge,
        peer_challenge,
        username,
        password,
    );
    let reserved: [u8; 8] = [0u8; 8];
    let mut data: Vec<u8> = Vec::new();
    data.push(49);
    wire::append(&mut data, peer_challenge.as_slice());
    wire::append(&mut data, reserved.as_slice());
    wire::append(&mut data, nt_response.as_slice());
    data.push(0);
    wire::append(&mut data, username.as_bytes());
    proof {
        assert(reserved@ =~= crate::crypto::zeros(8));
        assert(data@ =~= response_data(peer_challenge@, nt_response@, username@));
    }
    let wire = encode(Code::Response, challenge.id, data.as_slice());
    let pending = PendingResponse { peer_challenge: *peer_challenge, nt_response };
    Ok((wire, pending))
}

/// Whether the first word of a text is the expected proof, letter case aside.
pub open spec fn text_proves(message: Seq<char>, expected: Seq<char>) -> bool {
    match text::first_word(message) {
        Some(w) => text::same_ignoring_case(w, expected),
        None => false,
    }
}

/// The proof that a server which knows the password sends.
pub open spec fn expected_proof(
    password: Seq<char>,
    pending: PendingView,
    auth_challenge: Seq<u8>,
    username: Seq<char>,
) -> Seq<char> {
    chap::authenticator_text(
        chap::authenticator_digest(
            password,
            pending.nt_response,
            pending.peer_challenge,
            auth_challenge,
            username,
        ),
    )
}

/// Whether the first word of a text is the expected proof, letter case aside.
pub fn proves(message: &str, expected: &str) -> (r: bool)
    ensures
        r == text_proves(message@, expected@),
{
    let chars = text::to_chars(message);
    match text::next_word(chars.as_slice()) {
        Some(word) => {
            let want = text::to_chars(expected);
            text::eq_ignoring_case(word, want.as_slice())
        },
        None => false,
    }
}

/// Checks the proof in the data of a success frame.
pub fn verify_success(
    success_data: &[u8],
    password: &str,
    pending: &PendingResponse,
    auth_challenge: &[u8; 16],
    username: &str,
) -> (r: bool)
    ensures
        r == text_proves(
            text::utf8_lossy(success_data@),
            expected_proof(password@, pending@, auth_challenge@, username@),
        ),
        valid_utf8(success_data@) ==> r == text_proves(
            decode_utf8(success_data@),
            expected_proof(password@, pending@, auth_challenge@, username@),
        ),
{
    let expected = chap::generate_authenticator_response(
        password,
        &pending.nt_response,
        &pending.peer_challenge,
        auth_challenge,
        username,
    );
    let message = text::lossy(success_data);
    proves(message.as_str(), expected.as_str())
}

/// A frame that fits the length field decodes to what it was made from,
/// whatever follows it.
pub proof fn law_frame_round_trip(code: Code, id: u8, data: Seq<u8>, tail: Seq<u8>)
    requires
        4 + data.len() <= 0xffff,
    ensures
        frame_read(frame_wire(code, id, data) + tail) == Some(
            FrameView { code: Code::of_code(code.code()), id, data },
        ),
{
    let buf = frame_wire(code, id, data) + tail;
    wire::law_be16_round_trip((4 + data.len()) as nat);
    assert(buf.subrange(4, 4 + data.len() as int) =~= data);
}

/// A challenge reads back as the value and the name it was made from.
pub proof fn law_challenge_round_trip(value: Seq<u8>, name: Seq<u8>)
    requires
        value.len() <= 255,
    ensures
        challenge_parts(seq![value.len() as u8] + value + name) == Some((value, name)),
{
    let data = seq![value.len() as u8] + value + name;
    assert(data.subrange(1, 1 + value.len() as int) =~= value);
    assert(data.skip(1 + value.len() as int) =~= name);
}

/// The genuine proof is accepted, alone or followed by further fields.
pub proof fn law_genuine_proof_is_accepted(digest: Seq<u8>, rest: Seq<char>)
    requires
        rest.len() == 0 || text::is_white(rest[0]),
    ensures
        text_proves(chap::authenticator_text(digest) + rest, chap::authenticator_text(digest)),
{
    let word = chap::authenticator_text(digest);
    reveal_strlit("S=");
    text::lemma_hex_is_not_white(digest);
    assert forall|i: int| 0 <= i < word.len() implies !text::is_white(#[trigger] word[i]) by {
        if i >= 2 {
            assert(word[i] == text::upper_hex(digest)[i - 2]);
        }
    }
    text::lemma_first_word(word, rest);
}

/// A proof is accepted only where its first word has the expected letters.
pub proof fn law_wrong_proof_is_refused(message: Seq<char>, expected: Seq<char>)
    requires
        text_proves(message, expected),
    ensures
        text::first_word(message) matches Some(w) && w.len() == expected.len()
            && forall|i: int| 0 <= i < w.len() ==> text::ascii_lower(#[trigger] w[i])
            == text::ascii_lower(expected[i]),
{
}

/// The numbers of the codes, both ways.
pub proof fn law_codes_have_their_numbers(v: u8)
    ensures
        Code::Challenge.code() == 1 && Code::of_code(1) == Code::Challenge,
        Code::Response.code() == 2 && Code::of_code(2) == Code::Response,
        Code::Success.code() == 3 && Code::of_code(3) == Code::Success,
        Code::Failure.code() == 4 && Code::of_code(4) == Code::Failure,
        Code::of_code(v).code() == v,
        v == 0 || v > 4 ==> Code::of_code(v) == Code::Unknown(v),
{
}

/// Where each part of a frame stands: the code, the identifier, the length of
/// the whole frame and the data.
pub proof fn law_frame_layout(code: Code, id: u8, data: Seq<u8>)
    requires
        data.len() + 4 <= 0xffff,
    ensures
        ({
            let w = frame_wire(code, id, data);
            &&& w.len() == 4 + data.len()
            &&& w[0] == code.code()
            &&& w[1] == id
            &&& 256 * w[2] + w[3] == w.len()
            &&& w.subrange(4, w.len() as int) == data
        }),
{
    let w = frame_wire(code, id, data);
    wire::law_be16_is_positional((4 + data.len()) as nat, w[2], w[3]);
    assert(w.subrange(4, w.len() as int) =~= data);
}

/// What is read from every buffer: nothing where its length field is under four
/// or over what is there, and else the code, the identifier and the data up to
/// that length.
pub proof fn law_every_frame_is_read(buf: Seq<u8>)
    ensures
        buf.len() < 4 ==> frame_read(buf) is None,
        buf.len() >= 4 ==> {
            let n = 256 * buf[2] + buf[3];
            &&& n < 4 || n > buf.len() ==> frame_read(buf) is None
            &&& 4 <= n <= buf.len() ==> frame_read(buf) == Some(
                FrameView { code: Code::of_code(buf[0]), id: buf[1], data: buf.subrange(4, n) },
            )
        },
{
    if buf.len() >= 4 {
        wire::law_be16_is_positional(0, buf[2], buf[3]);
    }
}

/// A challenge that is cut short cannot be read.
pub proof fn law_short_challenges_are_not_read(data: Seq<u8>)
    ensures
        challenge_parts(data) is Some <==> data.len() > 0 && data.len() > data[0],
        challenge_parts(data) matches Some((value, name)) ==> seq![data[0]] + value + name == data
            && value.len() == data[0],
{
    if let Some((value, name)) = challenge_parts(data) {
        assert(seq![data[0]] + value + name =~= data);
    }
}

/// A response, byte for byte: under the identifier of the challenge, the
/// forty-nine bytes of the value (the client's challenge, eight zeros, the
/// response to both challenges, a zero) and the user name. What is kept is what
/// was sent.
pub proof fn law_response_layout(
    id: u8,
    auth_challenge: Seq<u8>,
    username: Seq<char>,
    password: Seq<char>,
    peer_challenge: Seq<u8>,
)
    requires
        peer_challenge.len() == 16,
        chap::nt_response_of(auth_challenge, peer_challenge, username, password).len() == 24,
        encode_utf8(username).len() <= 0xffff - 54,
    ensures
        ({
            let (w, pending) = response_parts(
                id,
                auth_challenge,
                username,
                password,
                peer_challenge,
            );
            let nt = chap::nt_response_of(auth_challenge, peer_challenge, username, password);
            &&& frame_read(w) matches Some(f)
            &&& f.code == Code::Response
            &&& f.id == id
            &&& f.data == seq![49u8] + peer_challenge + seq![0u8, 0, 0, 0, 0, 0, 0, 0] + nt
                + seq![0u8] + encode_utf8(username)
            &&& challenge_parts(f.data) == Some(
                (
                    peer_challenge + seq![0u8, 0, 0, 0, 0, 0, 0, 0] + nt + seq![0u8],
                    encode_utf8(username),
                ),
            )
            &&& pending == (PendingView { peer_challenge, nt_response: nt })
        }),
{
    let nt = chap::nt_response_of(auth_challenge, peer_challenge, username, password);
    let name = encode_utf8(username);
    let data = response_data(peer_challenge, nt, username);
    let value = peer_challenge + seq![0u8, 0, 0, 0, 0, 0, 0, 0] + nt + seq![0u8];
    assert(data =~= seq![49u8] + peer_challenge + seq![0u8, 0, 0, 0, 0, 0, 0, 0] + nt + seq![0u8]
        + name);
    let w = frame_wire(Code::Response, id, data);
    law_frame_round_trip(Code::Response, id, data, Seq::empty());
    assert(w + Seq::<u8>::empty() =~= w);
    law_challenge_round_trip(value, name);
    assert(data =~= seq![49u8] + value + name);
}

/// A message proves what its first word says, whatever stands before or behind
/// that word, and an empty one proves nothing.
pub proof fn law_first_word_is_the_proof(
    before: Seq<char>,
    word: Seq<char>,
    behind: Seq<char>,
    expected: Seq<char>,
)
    requires
        text::all_white(before),
        word.len() > 0,
        forall|i: int| 0 <= i < word.len() ==> !text::is_white(#[trigger] word[i]),
        behind.len() == 0 || text::is_white(behind[0]),
    ensures
        text_proves(before + word + behind, expected) <==> word.len() == expected.len() && forall|
            i: int,
        |
            0 <= i < word.len() ==> text::ascii_lower(#[trigger] word[i]) == text::ascii_lower(
                expected[i],
            ),
        !text_proves(before, expected),
{
    text::law_first_word_is_found(before, word, behind);
}

/// The expected proof is over the password, the response and the challenges
/// that belong together.
pub proof fn law_expected_proof(
    password: Seq<char>,
    nt_response: Seq<u8>,
    peer_challenge: Seq<u8>,
    auth_challenge: Seq<u8>,
    username: Seq<char>,
)
    ensures
        expected_proof(
            password,
            (PendingView { peer_challenge, nt_response }),
            auth_challenge,
            username,
        ) == seq!['S', '='] + text::upper_hex(
            chap::authenticator_digest(
                password,
                nt_response,
                peer_challenge,
                auth_challenge,
                username,
            ),
        ),
{
    reveal_strlit("S=");
    let d = chap::authenticator_digest(
        password,
        nt_response,
        peer_challenge,
        auth_challenge,
        username,
    );
    assert(chap::authenticator_text(d) =~= seq!['S', '='] + text::upper_hex(d));
}

} // verus!
