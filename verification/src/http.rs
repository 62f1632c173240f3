//! The exchange in the style of HTTP that opens an SSTP connection, before
//! binary packets take over.

use crate::text;
use vstd::prelude::*;
use vstd::utf8::{decode_utf8, encode_utf8, valid_utf8};

verus! {

/// The path that every SSTP server answers on.
pub const SSTP_PATH: &'static str = "/sra_{BA195980-CD49-458b-9E23-C84EE0ADCD75}/";

/// The text of the request. The length of its body is the largest there is:
/// the connection carries packets for as long as it is open.
pub open spec fn request_text(host: Seq<char>, correlation_uuid: Seq<char>) -> Seq<char> {
    "SSTP_DUPLEX_POST "@ + SSTP_PATH@ + " HTTP/1.1\r\nHost: "@ + host
        + "\r\nContent-Length: 18446744073709551615\r\nSSTPCORRELATIONID: {"@ + correlation_uuid
        + "}\r\n\r\n"@
}

/// Builds the request that opens a connection. The identifier comes without
/// braces.
pub fn build_request(host: &str, correlation_uuid: &str) -> (out: Vec<u8>)
    ensures
        out@ == encode_utf8(request_text(host@, correlation_uuid@)),
{
    let mut s = String::new();
    text::push_str(&mut s, "SSTP_DUPLEX_POST ");
    text::push_str(&mut s, SSTP_PATH);
    text::push_str(&mut s, " HTTP/1.1\r\nHost: ");
    text::push_str(&mut s, host);
    text::push_str(&mut s, "\r\nContent-Length: 18446744073709551615\r\nSSTPCORRELATIONID: {");
    text::push_str(&mut s, correlation_uuid);
    text::push_str(&mut s, "}\r\n\r\n");
    proof {
        assert(s@ =~= request_text(host@, correlation_uuid@));
    }
    vstd::slice::slice_to_vec(s.as_str().as_bytes())
}

/// Why a response was not accepted.
#[derive(Debug, Clone, PartialEq, Eq)]
pub enum ParseError {
    /// The headers have not fully arrived.
    Incomplete,
    /// The first line is none of HTTP.
    BadStatusLine(String),
    /// The server answered, but did not agree.
    NonSuccessStatus(u16),
}

/// What an error is.
#[verifier::ext_equal]
pub enum ParseErrorView {
    Incomplete,
    BadStatusLine(Seq<char>),
    NonSuccessStatus(u16),
}

impl View for ParseError {
    type V = ParseErrorView;

    open spec fn view(&self) -> ParseErrorView {
        match *self {
            ParseError::Incomplete => ParseErrorView::Incomplete,
            ParseError::BadStatusLine(s) => ParseErrorView::BadStatusLine(s@),
            ParseError::NonSuccessStatus(c) => ParseErrorView::NonSuccessStatus(c),
        }
    }
}

impl ParseErrorView {
    /// The error for the log.
    pub open spec fn text(self) -> Seq<char> {
        match self {
            ParseErrorView::Incomplete => "Incomplete"@,
            ParseErrorView::BadStatusLine(s) => "BadStatusLine("@ + text::debug_quoted(s) + ")"@,
            ParseErrorView::NonSuccessStatus(c) => "NonSuccessStatus("@ + text::decimal(c as nat)
                + ")"@,
        }
    }
}

impl ParseError {
    /// The error for the log.
    pub fn message(&self) -> (s: String)
        ensures
            s@ == self@.text(),
    {
        let mut s = String::new();
        match self {
            ParseError::Incomplete => text::push_str(&mut s, "Incomplete"),
            ParseError::BadStatusLine(line) => {
                let quote = text::quoted(line.as_str());
                text::push_str(&mut s, "BadStatusLine(");
                text::push_str(&mut s, quote.as_str());
                text::push_str(&mut s, ")");
            },
            ParseError::NonSuccessStatus(c) => {
                text::push_str(&mut s, "NonSuccessStatus(");
                text::push_decimal(&mut s, *c as u64);
                text::push_str(&mut s, ")");
            },
        }
        proof {
            assert(s@ =~= self@.text());
        }
        s
    }
}

/// Whether a blank line, with the end of the line before it, starts at `i`.
pub open spec fn blank_at(buf: Seq<u8>, i: int) -> bool {
    0 <= i && i + 4 <= buf.len() && buf[i] == 13 && buf[i + 1] == 10 && buf[i + 2] == 13 && buf[i
        + 3] == 10
}

/// Whether the headers end at `i`, and no earlier.
pub open spec fn head_ends_at(buf: Seq<u8>, i: int) -> bool {
    blank_at(buf, i) && forall|j: int| 0 <= j < i ==> !#[trigger] blank_at(buf, j)
}

/// Whether the headers have no end yet.
pub open spec fn head_is_open(buf: Seq<u8>) -> bool {
    forall|j: int| !#[trigger] blank_at(buf, j)
}

/// The status code in a status line: the word between the first blank and the
/// next, of a line that starts with `HTTP/`.
pub open spec fn status_code(line: Seq<char>) -> Option<u16> {
    let n = text::run_before(line, ' ') as int;
    if n >= line.len() || !text::starts_with(line.take(n), "HTTP/"@) {
        None
    } else {
        let rest = line.skip(n + 1);
        text::u16_value(rest.take(text::run_before(rest, ' ') as int))
    }
}

/// What headers say that end at `end`: the status code and where the packets
/// begin, or why the server is not accepted.
pub open spec fn verdict(head: Seq<char>, end: nat) -> Result<(u16, nat), ParseErrorView> {
    let line = text::first_line(head);
    match status_code(line) {
        None => Err(ParseErrorView::BadStatusLine(line)),
        Some(code) => if code == 200 {
            Ok((code, end + 4))
        } else {
            Err(ParseErrorView::NonSuccessStatus(code))
        },
    }
}

/// What a response says, as far as it has arrived.
pub open spec fn judged(buf: Seq<u8>) -> Result<(u16, nat), ParseErrorView> {
    if head_is_open(buf) {
        Err(ParseErrorView::Incomplete)
    } else {
        let end = choose|i: int| head_ends_at(buf, i);
        verdict(text::utf8_lossy(buf.take(end)), end as nat)
    }
}

/// Whether an outcome is the one that is meant.
pub open spec fn outcome_is(
    r: Result<(u16, usize), ParseError>,
    meant: Result<(u16, nat), ParseErrorView>,
) -> bool {
    match (r, meant) {
        (Ok(a), Ok(b)) => a.0 == b.0 && a.1 == b.1,
        (Err(e), Err(f)) => e@ == f,
        _ => false,
    }
}

fn find_double_crlf(buf: &[u8]) -> (r: Option<usize>)
    ensures
        match r {
            Some(i) => head_ends_at(buf@, i as int) && i + 4 <= buf@.len(),
            None => head_is_open(buf@),
        },
{
    let mut i: usize = 0;
    while i < buf.len() && buf.len() - i >= 4
        invariant
            i <= buf@.len(),
            forall|j: int| 0 <= j < i ==> !#[trigger] blank_at(buf@, j),
        decreases buf@.len() - i,
    {
        if buf[i] == 13 && buf[i + 1] == 10 && buf[i + 2] == 13 && buf[i + 3] == 10 {
            proof {
                assert(blank_at(buf@, i as int));
            }
            return Some(i);
        }
        proof {
            assert(!blank_at(buf@, i as int));
        }
        i += 1;
    }
    None
}

/// Judges headers that end at `end`.
pub fn read_head(head: &str, end: usize) -> (r: Result<(u16, usize), ParseError>)
    requires
        end <= usize::MAX - 4,
    ensures
        outcome_is(r, verdict(head@, end as nat)),
{
    let chars = text::to_chars(head);
    let all = text::split_lines(chars.as_slice());
    let nothing: Vec<char> = Vec::new();
    let line: &[char] = if all.len() > 0 {
        all[0].as_slice()
    } else {
        nothing.as_slice()
    };
    proof {
        if all@.len() > 0 {
            assert(text::texts_view(all@)[0] == line@);
        }
        assert(line@ =~= text::first_line(head@));
    }
    match read_status_line(line) {
        None => Err(ParseError::BadStatusLine(text::from_chars(line))),
        Some(code) => {
            if code != 200 {
                return Err(ParseError::NonSuccessStatus(code));
            }
            Ok((code, end + 4))
        },
    }
}

fn read_status_line(line: &[char]) -> (r: Option<u16>)
    ensures
        r == status_code(line@),
{
    let n: usize = text::find_char(line, ' ');
    if n >= line.len() {
        return None;
    }
    let version = &line[0..n];
    let http = text::to_chars("HTTP/");
    proof {
        assert(version@ =~= line@.take(n as int));
    }
    if !text::has_prefix(version, http.as_slice()) {
        return None;
    }
    let rest = &line[n + 1..line.len()];
    let m: usize = text::find_char(rest, ' ');
    proof {
        assert(rest@ =~= line@.skip(n + 1));
        assert(rest@.subrange(0, m as int) =~= rest@.take(m as int));
    }
    text::parse_u16(&rest[0..m])
}

/// Looks for the end of the headers and judges them: the status code and where
/// the packets begin, or why the server is not accepted.
pub fn parse_response(buf: &[u8]) -> (r: Result<(u16, usize), ParseError>)
    ensures
        outcome_is(r, judged(buf@)),
        head_is_open(buf@) <==> r matches Err(ParseError::Incomplete),
        forall|end: int| #[trigger]
            head_ends_at(buf@, end) && valid_utf8(buf@.take(end)) ==> outcome_is(
                r,
                verdict(decode_utf8(buf@.take(end)), end as nat),
            ),
        r matches Ok(x) ==> x.0 == 200 && x.1 <= buf@.len(),
{
    let end: usize = match find_double_crlf(buf) {
        Some(i) => i,
        None => return Err(ParseError::Incomplete),
    };
    let total: usize = buf.len();
    let head_bytes = &buf[0..end];
    proof {
        assert(head_bytes@ =~= buf@.take(end as int));
        assert(blank_at(buf@, end as int));
        assert(end + 4 <= total);
        assert forall|other: int| #[trigger] head_ends_at(buf@, other) implies other == end by {
            law_head_end_is_unique(buf@, other, end as int);
        }
    }
    let head = text::lossy(head_bytes);
    read_head(head.as_str(), end)
}

/// Headers end in one place.
pub proof fn law_head_end_is_unique(buf: Seq<u8>, i: int, j: int)
    requires
        head_ends_at(buf, i),
        head_ends_at(buf, j),
    ensures
        i == j,
{
    if i < j {
        assert(!blank_at(buf, i));
    }
    if j < i {
        assert(!blank_at(buf, j));
    }
}

/// What arrives behind the headers does not change where they end, nor what
/// they say.
pub proof fn law_body_plays_no_part(buf: Seq<u8>, body: Seq<u8>, end: int)
    requires
        head_ends_at(buf, end),
    ensures
        head_ends_at(buf + body, end),
        (buf + body).take(end) == buf.take(end),
        judged(buf + body) == judged(buf),
{
    let all = buf + body;
    assert(blank_at(all, end));
    assert forall|j: int| 0 <= j < end implies !#[trigger] blank_at(all, j) by {
        assert(!blank_at(buf, j));
    }
    assert(all.take(end) =~= buf.take(end));
    assert forall|other: int| #[trigger] head_ends_at(buf, other) implies other == end by {
        law_head_end_is_unique(buf, other, end);
    }
    assert forall|other: int| #[trigger] head_ends_at(all, other) implies other == end by {
        law_head_end_is_unique(all, other, end);
    }
}

/// A part of a response that is incomplete is incomplete in every part.
pub proof fn law_prefix_of_open_head_is_open(buf: Seq<u8>, n: int)
    requires
        0 <= n <= buf.len(),
        head_is_open(buf),
    ensures
        head_is_open(buf.take(n)),
{
    assert forall|j: int| !#[trigger] blank_at(buf.take(n), j) by {
        assert(!blank_at(buf, j));
    }
}

/// The request, character for character around the host and the identifier.
pub proof fn law_request_layout(host: Seq<char>, correlation_uuid: Seq<char>)
    ensures
        request_text(host, correlation_uuid)
            == "SSTP_DUPLEX_POST /sra_{BA195980-CD49-458b-9E23-C84EE0ADCD75}/ HTTP/1.1\r\nHost: "@
            + host + "\r\nContent-Length: 18446744073709551615\r\nSSTPCORRELATIONID: {"@
            + correlation_uuid + "}\r\n\r\n"@,
{
    reveal_strlit("SSTP_DUPLEX_POST ");
    reveal_strlit("/sra_{BA195980-CD49-458b-9E23-C84EE0ADCD75}/");
    reveal_strlit(" HTTP/1.1\r\nHost: ");
    reveal_strlit(
        "SSTP_DUPLEX_POST /sra_{BA195980-CD49-458b-9E23-C84EE0ADCD75}/ HTTP/1.1\r\nHost: ",
    );
    let head = "SSTP_DUPLEX_POST "@ + SSTP_PATH@ + " HTTP/1.1\r\nHost: "@;
    assert(head
        =~= "SSTP_DUPLEX_POST /sra_{BA195980-CD49-458b-9E23-C84EE0ADCD75}/ HTTP/1.1\r\nHost: "@);
}

/// A status line is read by its second word: where the first starts with
/// `HTTP/`, the code is the number that stands there, whatever comes behind it.
pub proof fn law_status_lines_are_read(version: Seq<char>, code: nat, behind: Seq<char>)
    requires
        !version.contains(' '),
        code <= 0xffff,
        behind.len() == 0 || behind[0] == ' ',
    ensures
        status_code(seq!['H', 'T', 'T', 'P', '/'] + version + seq![' '] + text::decimal(code)
            + behind) == Some(code as u16),
        status_code(version) is None,
{
    let first = seq!['H', 'T', 'T', 'P', '/'] + version;
    reveal_strlit("HTTP/");
    assert("HTTP/"@ =~= seq!['H', 'T', 'T', 'P', '/']);
    assert(!first.contains(' ')) by {
        if first.contains(' ') {
            let i = choose|i: int| 0 <= i < first.len() && first[i] == ' ';
            assert(version[i - 5] == ' ');
            assert(version.contains(' '));
        }
    }
    let number = text::decimal(code);
    let rest = number + behind;
    let line = first + (seq![' '] + rest);
    assert(seq!['H', 'T', 'T', 'P', '/'] + version + seq![' '] + text::decimal(code) + behind
        =~= line);
    text::lemma_run_is(first, seq![' '] + rest, ' ');
    assert(line.take(first.len() as int) =~= first);
    assert(line.skip(first.len() as int + 1) =~= rest);
    text::law_prefixes_are_found(first, "HTTP/"@, version);
    lemma_digits_hold_no_blank(code);
    if behind.len() > 0 {
        text::lemma_run_is(number, behind, ' ');
    } else {
        assert(rest =~= number);
        text::lemma_no_run(number, ' ');
    }
    assert(rest.take(number.len() as int) =~= number);
    text::law_small_numbers_are_read(code, number);
    text::lemma_no_run(version, ' ');
}

proof fn lemma_digits_hold_no_blank(n: nat)
    ensures
        !text::decimal(n).contains(' '),
    decreases n,
{
    text::law_decimal_is_positional(n);
    let d = text::decimal(n);
    if n >= 10 {
        lemma_digits_hold_no_blank(n / 10);
    }
    assert forall|i: int| 0 <= i < d.len() implies d[i] != ' ' by {
        if i < d.len() - 1 {
            assert(d.drop_last()[i] == d[i]);
            assert(text::decimal(n / 10).contains(d[i]));
        } else {
            assert(d[i] == d.last());
        }
    }
}

/// A line that does not start with `HTTP/`, or whose second word is no number,
/// is no status line.
pub proof fn law_other_lines_have_no_status(first: Seq<char>, word: Seq<char>, behind: Seq<char>)
    requires
        !first.contains(' '),
        !word.contains(' '),
        behind.len() == 0 || behind[0] == ' ',
    ensures
        first.len() < 5 || first.take(5) != seq!['H', 'T', 'T', 'P', '/'] ==> status_code(
            first + seq![' '] + word + behind,
        ) is None,
        text::u16_value(word) is None ==> status_code(first + seq![' '] + word + behind) is None,
{
    reveal_strlit("HTTP/");
    assert("HTTP/"@ =~= seq!['H', 'T', 'T', 'P', '/']);
    let rest = word + behind;
    let line = first + (seq![' '] + rest);
    assert(first + seq![' '] + word + behind =~= line);
    text::lemma_run_is(first, seq![' '] + rest, ' ');
    assert(line.take(first.len() as int) =~= first);
    assert(line.skip(first.len() as int + 1) =~= rest);
    if text::starts_with(first, "HTTP/"@) {
        assert(first.take(5) =~= "HTTP/"@);
    }
    if behind.len() > 0 {
        text::lemma_run_is(word, behind, ' ');
    } else {
        assert(rest =~= word);
        text::lemma_no_run(word, ' ');
    }
    assert(rest.take(word.len() as int) =~= word);
}

/// Whether a line is over where `more` begins: the text is, or a line feed comes,
/// with the carriage return before it where there is one.
pub open spec fn ends_a_line(line: Seq<char>, more: Seq<char>) -> bool {
    ||| more.len() == 0
    ||| more.len() >= 2 && more[0] == '\r' && more[1] == '\n'
    ||| more[0] == '\n' && (line.len() == 0 || line.last() != '\r')
}

/// A response is judged once the bytes 13 10 13 10 have arrived, by its first
/// line and nothing else, and packets begin right behind the first such bytes.
/// Any code but 200 is a refusal with that code.
pub proof fn law_responses_are_judged(
    head: Seq<u8>,
    buf: Seq<u8>,
    body: Seq<u8>,
    line: Seq<char>,
    more: Seq<char>,
)
    requires
        buf == head + seq![13u8, 10, 13, 10],
        forall|i: int|
            0 <= i < head.len() ==> (#[trigger] buf.skip(i)).take(4) != seq![
                13u8,
                10,
                13,
                10,
            ],
        !line.contains('\n'),
        text::utf8_lossy(head) == line + more,
        ends_a_line(line, more),
    ensures
        ({
            let r = judged(buf + body);
            match status_code(line) {
                None => r == Err::<(u16, nat), ParseErrorView>(ParseErrorView::BadStatusLine(line)),
                Some(code) => if code == 200 {
                    r == Ok::<(u16, nat), ParseErrorView>((200u16, head.len() + 4))
                } else {
                    r == Err::<(u16, nat), ParseErrorView>(ParseErrorView::NonSuccessStatus(code))
                },
            }
        }),
{
    let end = head.len() as int;
    assert(blank_at(buf, end));
    assert forall|j: int| 0 <= j < end implies !#[trigger] blank_at(buf, j) by {
        if blank_at(buf, j) {
            assert(buf.skip(j).take(4) =~= seq![13u8, 10, 13, 10]);
        }
    }
    assert(head_ends_at(buf, end));
    law_body_plays_no_part(buf, body, end);
    assert forall|other: int| #[trigger] head_ends_at(buf, other) implies other == end by {
        law_head_end_is_unique(buf, other, end);
    }
    assert(buf.take(end) =~= head);
    let chars = line + more;
    if more.len() == 0 {
        assert(chars =~= line);
        text::law_lines_are_split(line, Seq::empty());
        if line.len() == 0 {
            assert(line =~= Seq::empty());
        }
    } else if more[0] == '\n' {
        let rest = more.skip(1);
        text::law_lines_are_split(line, rest);
        assert(chars =~= line + seq!['\n'] + rest);
    } else {
        let rest = more.skip(2);
        text::law_lines_are_split(line, rest);
        assert(chars =~= line + seq!['\r', '\n'] + rest);
    }
    assert(text::first_line(chars) == line);
}

/// A response is incomplete exactly as long as the bytes 13 10 13 10 have not
/// arrived.
pub proof fn law_incomplete_until_the_blank_line(buf: Seq<u8>)
    ensures
        judged(buf) == Err::<(u16, nat), ParseErrorView>(ParseErrorView::Incomplete) <==> forall|
            i: int,
        |
            0 <= i && i + 4 <= buf.len() ==> (#[trigger] buf.skip(i)).take(4) != seq![
                13u8,
                10,
                13,
                10,
            ],
{
    if head_is_open(buf) {
        assert forall|i: int| 0 <= i && i + 4 <= buf.len() implies (#[trigger] buf.skip(i)).take(4)
            != seq![13u8, 10, 13, 10] by {
            let w = buf.skip(i).take(4);
            assert(!blank_at(buf, i));
            if w == seq![13u8, 10, 13, 10] {
                assert(w[0] == 13 && w[1] == 10 && w[2] == 13 && w[3] == 10);
            }
        }
    } else {
        let j = choose|j: int| blank_at(buf, j);
        assert(buf.skip(j).take(4) =~= seq![13u8, 10, 13, 10]);
    }
}

} // verus!
