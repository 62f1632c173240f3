//! Quoting for the shell and for AppleScript, and the scripts by which a
//! command is run with administrator rights and a notification is shown.

use crate::text;
use vstd::prelude::*;

verus! {

/// A character inside single quotes of a POSIX shell: an apostrophe closes the
/// quotes, stands escaped, and opens them again.
pub open spec fn shell_char(c: char) -> Seq<char> {
    if c == '\'' {
        seq!['\'', '\\', '\'', '\'']
    } else {
        seq![c]
    }
}

/// A text inside single quotes of a POSIX shell.
pub open spec fn shell_body(s: Seq<char>) -> Seq<char>
    decreases s.len(),
{
    if s.len() == 0 {
        Seq::empty()
    } else {
        shell_body(s.drop_last()) + shell_char(s.last())
    }
}

/// A text as one word of a POSIX shell.
pub open spec fn shell_quoted(s: Seq<char>) -> Seq<char> {
    seq!['\''] + shell_body(s) + seq!['\'']
}

/// Quotes a text as one word of a POSIX shell.
pub fn shell_quote(s: &str) -> (r: String)
    ensures
        r@ == shell_quoted(s@),
{
    let chars = text::to_chars(s);
    let mut r = String::new();
    r.push('\'');
    let mut i: usize = 0;
    while i < chars.len()
        invariant
            i <= chars@.len(),
            chars@ == s@,
            r@ == seq!['\''] + shell_body(s@.take(i as int)),
        decreases chars@.len() - i,
    {
        let c = chars[i];
        if c == '\'' {
            r.push('\'');
            r.push('\\');
            r.push('\'');
            r.push('\'');
        } else {
            r.push(c);
        }
        proof {
            assert(s@.take(i + 1).drop_last() =~= s@.take(i as int));
            assert(r@ =~= seq!['\''] + (shell_body(s@.take(i as int)) + shell_char(c)));
        }
        i += 1;
    }
    r.push('\'');
    proof {
        assert(s@.take(i as int) =~= s@);
        assert(r@ =~= shell_quoted(s@));
    }
    r
}

/// What a POSIX shell reads a word as that is made of single-quoted parts and
/// of characters behind a backslash. A word with anything else in it, or with
/// an open quote, has no such reading.
pub open spec fn shell_reads(word: Seq<char>, in_quotes: bool) -> Option<Seq<char>>
    decreases word.len(),
{
    if word.len() == 0 {
        if in_quotes {
            None
        } else {
            Some(Seq::empty())
        }
    } else if word[0] == '\'' {
        shell_reads(word.drop_first(), !in_quotes)
    } else if in_quotes {
        match shell_reads(word.drop_first(), true) {
            Some(rest) => Some(seq![word[0]] + rest),
            None => None,
        }
    } else if word[0] == '\\' && word.len() >= 2 {
        match shell_reads(word.skip(2), false) {
            Some(rest) => Some(seq![word[1]] + rest),
            None => None,
        }
    } else {
        None
    }
}

proof fn lemma_shell_body(s: Seq<char>, tail: Seq<char>)
    ensures
        shell_reads(shell_body(s) + tail, true) == match shell_reads(tail, true) {
            Some(rest) => Some(s + rest),
            None => None,
        },
    decreases s.len(),
{
    if s.len() == 0 {
        assert(shell_body(s) + tail =~= tail);
        if let Some(rest) = shell_reads(tail, true) {
            assert(s + rest =~= rest);
        }
    } else {
        let front = s.drop_last();
        let c = s.last();
        let more = shell_char(c) + tail;
        lemma_shell_body(front, more);
        assert(shell_body(s) + tail =~= shell_body(front) + more);
        if c == '\'' {
            let m1 = more.drop_first();
            assert(m1 =~= seq!['\\', '\'', '\''] + tail);
            let m3 = m1.skip(2);
            assert(m3 =~= seq!['\''] + tail);
            assert(m3.drop_first() =~= tail);
            assert(shell_reads(m3, false) == shell_reads(tail, true));
            assert(shell_reads(more, true) == shell_reads(m1, false));
            assert(m1[0] == '\\' && m1[1] == '\'');
            assert(shell_reads(m1, false) == match shell_reads(m3, false) {
                Some(rest) => Some(seq!['\''] + rest),
                None => None,
            });
        } else {
            assert(more.drop_first() =~= tail);
        }
        if let Some(rest) = shell_reads(tail, true) {
            assert(front + (seq![c] + rest) =~= s + rest);
        }
    }
}

/// The shell reads a quoted text as that very text, whatever is in it.
pub proof fn law_shell_reads_what_was_quoted(s: Seq<char>)
    ensures
        shell_reads(shell_quoted(s), false) == Some(s),
{
    let word = shell_quoted(s);
    let end = seq!['\''];
    assert(word.drop_first() =~= shell_body(s) + end);
    lemma_shell_body(s, end);
    assert(end.drop_first() =~= Seq::empty());
    assert(shell_reads(end.drop_first(), false) == Some(Seq::<char>::empty()));
    assert(shell_reads(end, true) == Some(Seq::<char>::empty()));
    assert(s + Seq::<char>::empty() =~= s);
}

/// A character inside a string literal of AppleScript.
pub open spec fn applescript_char(c: char) -> Seq<char> {
    if c == '\\' || c == '"' {
        seq!['\\', c]
    } else {
        seq![c]
    }
}

/// A text inside a string literal of AppleScript.
pub open spec fn applescript_body(s: Seq<char>) -> Seq<char>
    decreases s.len(),
{
    if s.len() == 0 {
        Seq::empty()
    } else {
        applescript_body(s.drop_last()) + applescript_char(s.last())
    }
}

/// Escapes a text for a string literal of AppleScript.
pub fn applescript_quote(s: &str) -> (r: String)
    ensures
        r@ == applescript_body(s@),
{
    let chars = text::to_chars(s);
    let mut r = String::new();
    let mut i: usize = 0;
    while i < chars.len()
        invariant
            i <= chars@.len(),
            chars@ == s@,
            r@ == applescript_body(s@.take(i as int)),
        decreases chars@.len() - i,
    {
        let c = chars[i];
        if c == '\\' || c == '"' {
            r.push('\\');
        }
        r.push(c);
        proof {
            assert(s@.take(i + 1).drop_last() =~= s@.take(i as int));
            assert(r@ =~= applescript_body(s@.take(i as int)) + applescript_char(c));
        }
        i += 1;
    }
    proof {
        assert(s@.take(i as int) =~= s@);
    }
    r
}

/// What AppleScript reads the inside of a string literal as. A bare quote
/// would end the literal, and a backslash at the end would escape its end:
/// with either, the inside is none.
pub open spec fn applescript_reads(body: Seq<char>) -> Option<Seq<char>>
    decreases body.len(),
{
    if body.len() == 0 {
        Some(Seq::empty())
    } else if body[0] == '"' {
        None
    } else if body[0] == '\\' {
        if body.len() < 2 {
            None
        } else {
            match applescript_reads(body.skip(2)) {
                Some(rest) => Some(seq![body[1]] + rest),
                None => None,
            }
        }
    } else {
        match applescript_reads(body.drop_first()) {
            Some(rest) => Some(seq![body[0]] + rest),
            None => None,
        }
    }
}

proof fn lemma_applescript_body(s: Seq<char>, tail: Seq<char>)
    ensures
        applescript_reads(applescript_body(s) + tail) == match applescript_reads(tail) {
            Some(rest) => Some(s + rest),
            None => None,
        },
    decreases s.len(),
{
    if s.len() == 0 {
        assert(applescript_body(s) + tail =~= tail);
        if let Some(rest) = applescript_reads(tail) {
            assert(s + rest =~= rest);
        }
    } else {
        let front = s.drop_last();
        let c = s.last();
        let more = applescript_char(c) + tail;
        lemma_applescript_body(front, more);
        assert(applescript_body(s) + tail =~= applescript_body(front) + more);
        if c == '\\' || c == '"' {
            assert(more.skip(2) =~= tail);
        } else {
            assert(more.drop_first() =~= tail);
        }
        if let Some(rest) = applescript_reads(tail) {
            assert(front + (seq![c] + rest) =~= s + rest);
        }
    }
}

/// AppleScript reads an escaped text as that very text, whatever is in it.
pub proof fn law_applescript_reads_what_was_quoted(s: Seq<char>)
    ensures
        applescript_reads(applescript_body(s)) == Some(s),
{
    lemma_applescript_body(s, Seq::empty());
    assert(applescript_body(s) + Seq::<char>::empty() =~= applescript_body(s));
    assert(s + Seq::<char>::empty() =~= s);
}

/// The script that shows a notification.
pub open spec fn notification_text(title: Seq<char>, message: Seq<char>) -> Seq<char> {
    "display notification \""@ + applescript_body(message) + "\" with title \""@
        + applescript_body(title) + "\""@
}

/// The script that shows a notification.
pub fn notification_script(title: &str, message: &str) -> (s: String)
    ensures
        s@ == notification_text(title@, message@),
{
    let mut s = String::new();
    let body = applescript_quote(message);
    let head = applescript_quote(title);
    text::push_str(&mut s, "display notification \"");
    text::push_str(&mut s, body.as_str());
    text::push_str(&mut s, "\" with title \"");
    text::push_str(&mut s, head.as_str());
    text::push_str(&mut s, "\"");
    proof {
        assert(s@ =~= notification_text(title@, message@));
    }
    s
}

/// The script that runs a shell command with administrator rights.
pub open spec fn elevated_text(shell_cmd: Seq<char>) -> Seq<char> {
    "do shell script \""@ + applescript_body(shell_cmd) + "\" with administrator privileges"@
}

/// The script that runs a shell command with administrator rights.
pub fn elevated_script(shell_cmd: &str) -> (s: String)
    ensures
        s@ == elevated_text(shell_cmd@),
{
    let body = applescript_quote(shell_cmd);
    text::join3("do shell script \"", body.as_str(), "\" with administrator privileges")
}

/// What a finished command amounts to: its output where it succeeded, and its
/// error output where it did not.
pub fn command_outcome(success: bool, stdout: &[u8], stderr: &[u8]) -> (r: Result<String, String>)
    ensures
        match r {
            Ok(s) => success && s@ == text::utf8_lossy(stdout@),
            Err(s) => !success && s@ == text::utf8_lossy(stderr@),
        },
{
    if success {
        Ok(text::lossy(stdout))
    } else {
        Err(text::lossy(stderr))
    }
}

/// The script that runs a command holds one string literal, which AppleScript
/// reads as that very command.
pub proof fn law_elevated_script_runs_the_command(shell_cmd: Seq<char>)
    ensures
        exists|literal: Seq<char>|
            #[trigger] applescript_reads(literal) == Some(shell_cmd) && elevated_text(shell_cmd)
                == "do shell script \""@ + literal + "\" with administrator privileges"@,
{
    law_applescript_reads_what_was_quoted(shell_cmd);
}

/// The script of a notification holds two string literals, which AppleScript
/// reads as the message and as the title.
pub proof fn law_notification_shows_both_texts(title: Seq<char>, message: Seq<char>)
    ensures
        exists|m: Seq<char>, t: Seq<char>|
            #[trigger] applescript_reads(m) == Some(message) && #[trigger] applescript_reads(t)
                == Some(title) && notification_text(title, message) == "display notification \""@
                + m + "\" with title \""@ + t + "\""@,
{
    law_applescript_reads_what_was_quoted(title);
    law_applescript_reads_what_was_quoted(message);
}

} // verus!
