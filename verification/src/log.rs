//! The log that both sides write: where it lies, and its end as it is shown to
//! the user.

use crate::ipc;
use crate::text;
use vstd::prelude::*;

verus! {

/// Where both sides write their log.
pub fn vpn_log_path(home: Option<&str>) -> (s: String)
    ensures
        s@ == ipc::below(
            ipc::below(ipc::home_or_here(text::opt_str_view(home)), "Library/Logs"@),
            "sstp-gui.log"@,
        ),
{
    let dir = match home {
        Some(h) => ipc::path_below(h, "Library/Logs"),
        None => ipc::path_below(".", "Library/Logs"),
    };
    ipc::path_below(dir.as_str(), "sstp-gui.log")
}

/// Lines in a row, with a line feed between any two.
pub open spec fn joined(lines: Seq<Seq<char>>) -> Seq<char>
    decreases lines.len(),
{
    if lines.len() == 0 {
        Seq::empty()
    } else if lines.len() == 1 {
        lines[0]
    } else {
        joined(lines.drop_last()) + "\n"@ + lines.last()
    }
}

/// The last `n` of some lines, or all where there are fewer.
pub open spec fn last_lines(lines: Seq<Seq<char>>, n: nat) -> Seq<Seq<char>> {
    if lines.len() <= n {
        lines
    } else {
        lines.skip(lines.len() - n)
    }
}

/// The last lines of a log, in one text. A log that cannot be read is empty.
pub fn tail(content: Option<&str>, max_lines: usize) -> (s: String)
    ensures
        match content {
            Some(c) => s@ == joined(last_lines(text::lines(c@), max_lines as nat)),
            None => s@.len() == 0,
        },
{
    let content = match content {
        Some(c) => c,
        None => return String::new(),
    };
    let chars = text::to_chars(content);
    let all = text::split_lines(chars.as_slice());
    let start: usize = if all.len() > max_lines {
        all.len() - max_lines
    } else {
        0
    };
    let ghost shown = last_lines(text::lines(content@), max_lines as nat);
    let mut s = String::new();
    let mut i: usize = start;
    proof {
        assert(shown =~= text::texts_view(all@).skip(start as int));
        assert(s@ =~= joined(shown.take(0)));
    }
    while i < all.len()
        invariant
            start <= i <= all@.len(),
            shown == text::texts_view(all@).skip(start as int),
            s@ == joined(shown.take(i - start)),
        decreases all@.len() - i,
    {
        let ghost before = s@;
        let line = text::from_chars(all[i].as_slice());
        if i > start {
            text::push_str(&mut s, "\n");
        }
        text::push_str(&mut s, line.as_str());
        proof {
            let done = shown.take(i - start + 1);
            assert(done.drop_last() =~= shown.take(i - start));
            assert(done.last() == all@[i as int]@);
            if i == start {
                assert(before =~= Seq::empty());
            }
            assert(s@ =~= joined(done));
        }
        i += 1;
    }
    proof {
        assert(shown.take(i - start) =~= shown);
    }
    s
}

/// No more lines are shown than asked for.
pub proof fn law_tail_is_bounded(lines: Seq<Seq<char>>, n: nat)
    ensures
        last_lines(lines, n).len() <= n,
        last_lines(lines, n).is_suffix_of(lines),
{
}

/// The lines shown are the last ones, as many as asked for or all, in order.
pub proof fn law_tail_is_the_end(lines: Seq<Seq<char>>, n: nat, i: int)
    ensures
        last_lines(lines, n).len() == if lines.len() < n {
            lines.len()
        } else {
            n
        },
        0 <= i < last_lines(lines, n).len() ==> last_lines(lines, n)[i] == lines[lines.len()
            - last_lines(lines, n).len() + i],
{
}

/// Lines are put together with one line feed between any two, and none at the
/// end.
pub proof fn law_lines_are_joined(lines: Seq<Seq<char>>, line: Seq<char>)
    ensures
        joined(Seq::empty()).len() == 0,
        joined(seq![line]) == line,
        lines.len() > 0 ==> joined(lines.push(line)) == joined(lines).push('\n') + line,
{
    reveal_strlit("\n");
    if lines.len() > 0 {
        assert(lines.push(line).drop_last() =~= lines);
        assert(joined(lines.push(line)) =~= joined(lines).push('\n') + line);
    }
}

proof fn lemma_joined_front(line: Seq<char>, rest: Seq<Seq<char>>)
    requires
        rest.len() > 0,
    ensures
        joined(seq![line] + rest) == line + seq!['\n'] + joined(rest),
    decreases rest.len(),
{
    reveal_strlit("\n");
    let all = seq![line] + rest;
    assert(all.last() == rest.last());
    assert(all.drop_last() =~= seq![line] + rest.drop_last());
    if rest.len() == 1 {
        assert(all.drop_last() =~= seq![line]);
        assert(joined(seq![line]) == line);
        assert(joined(rest) == rest[0]);
        assert(joined(all) == joined(all.drop_last()) + "\n"@ + all.last());
        assert("\n"@ =~= seq!['\n']);
        assert(joined(all) =~= line + seq!['\n'] + joined(rest));
    } else {
        lemma_joined_front(line, rest.drop_last());
        assert(joined(rest) == joined(rest.drop_last()) + "\n"@ + rest.last());
        assert(joined(all) =~= line + seq!['\n'] + joined(rest));
    }
}

/// What is shown splits into the same lines again.
pub proof fn law_joined_lines_split_again(lines: Seq<Seq<char>>)
    requires
        forall|i: int|
            0 <= i < lines.len() ==> (#[trigger] lines[i]).len() > 0 && !lines[i].contains('\n')
                && lines[i].last() != '\r',
    ensures
        text::lines(joined(lines)) == lines,
    decreases lines.len(),
{
    if lines.len() == 0 {
        assert(text::lines(joined(lines)) =~= lines);
    } else if lines.len() == 1 {
        text::law_lines_are_split(lines[0], Seq::empty());
        assert(text::lines(joined(lines)) =~= lines);
    } else {
        let rest = lines.drop_first();
        assert forall|i: int| 0 <= i < rest.len() implies (#[trigger] rest[i]).len() > 0
            && !rest[i].contains('\n') && rest[i].last() != '\r' by {
            assert(rest[i] == lines[i + 1]);
        }
        law_joined_lines_split_again(rest);
        lemma_joined_front(lines[0], rest);
        assert(seq![lines[0]] + rest =~= lines);
        text::law_lines_are_split(lines[0], joined(rest));
    }
}

} // verus!
