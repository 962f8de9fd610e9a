//! Text by lines.
use crate::text;
use vstd::prelude::*;
use vstd::string::*;

verus! {

/// Calls `String::push`, which appends a character.
pub assume_specification[ std::string::String::push ](s: &mut std::string::String, c: char)
    ensures
        final(s)@ == old(s)@.push(c),
;

/// A line without the carriage return at its end.
pub open spec fn without_return(line: Seq<char>) -> Seq<char> {
    if line.len() > 0 && line.last() == '\r' {
        line.drop_last()
    } else {
        line
    }
}

/// The lines of a text that are ended, and what follows the last line end.
pub open spec fn split(s: Seq<char>) -> (Seq<Seq<char>>, Seq<char>)
    decreases s.len(),
{
    if s.len() == 0 {
        (Seq::empty(), Seq::empty())
    } else {
        let (ended, rest) = split(s.drop_last());
        if s.last() == '\n' {
            (ended.push(without_return(rest)), Seq::empty())
        } else {
            (ended, rest.push(s.last()))
        }
    }
}

/// The lines of a text: each up to a newline, which may follow a carriage return. The last one
/// need not be ended.
pub open spec fn lines(s: Seq<char>) -> Seq<Seq<char>> {
    let (ended, rest) = split(s);
    if rest.len() == 0 {
        ended
    } else {
        ended.push(rest)
    }
}

/// The lines of a text, without their ends.
pub fn split_lines(s: &str) -> (r: Vec<String>)
    ensures
        text::texts(r@) == lines(s@),
{
    let mut ended: Vec<String> = Vec::new();
    let mut rest = String::new();
    // The carriage return at the end of the line, until it is known what follows it.
    let mut held = false;
    let ghost full = s@;
    assert(text::texts(ended@) =~= split(full.take(0)).0);
    for c in it: s.chars()
        invariant
            full == s@,
            it.seq() == full,
            text::texts(ended@) == split(full.take(it.index())).0,
            split(full.take(it.index())).1 == if held {
                rest@.push('\r')
            } else {
                rest@
            },
            !held ==> without_return(rest@) == rest@,
    {
        let ghost i = it.index();
        proof {
            assert(full.take(i + 1).drop_last() =~= full.take(i));
            assert(full.take(i + 1).last() == c);
        }
        if c == '\n' {
            let ghost before = ended@;
            let ghost line = rest@;
            assert(line.push('\r').drop_last() =~= line);
            ended.push(rest);
            assert(text::texts(ended@) =~= text::texts(before).push(line));
            rest = String::new();
            held = false;
        } else {
            if held {
                rest.push('\r');
            }
            held = c == '\r';
            if !held {
                rest.push(c);
            }
        }
    }
    assert(full.take(full.len() as int) =~= full);
    if held {
        rest.push('\r');
    }
    if rest.as_str().unicode_len() > 0 {
        let ghost before = ended@;
        let ghost line = rest@;
        ended.push(rest);
        assert(text::texts(ended@) =~= text::texts(before).push(line));
    }
    ended
}

/// A text without a newline is a single line, or none where it is empty; and of a text with one,
/// what stands before the first newline is the first line, without a carriage return at its end,
/// and the lines of what stands after it follow.
pub proof fn law_lines_end_at_newlines(
    first: Seq<char>,
    rest: Seq<char>,
    s: &str,
    r: Vec<String>,
    ended: bool,
)
    requires
        !first.contains('\n'),
        s@ == if ended {
            first + seq!['\n'] + rest
        } else {
            first
        },
        call_ensures(split_lines, (s,), r),
    ensures
        !ended && first.len() == 0 ==> r@.len() == 0,
        !ended && first.len() > 0 ==> r@.len() == 1 && r@[0]@ == first,
        ended ==> {
            &&& r@.len() == 1 + lines(rest).len()
            &&& r@[0]@ == if first.len() > 0 && first.last() == '\r' {
                first.drop_last()
            } else {
                first
            }
            &&& forall|i: int| 0 <= i < lines(rest).len() ==> (#[trigger] r@[i + 1])@ == lines(rest)[i]
        },
{
    lemma_no_newline(first);
    assert(text::texts(r@).len() == r@.len());
    if ended {
        lemma_first_line(first, rest);
        assert(text::texts(r@)[0] == r@[0]@);
        assert forall|i: int| 0 <= i < lines(rest).len() implies (#[trigger] r@[i + 1])@ == lines(
            rest,
        )[i] by {
            assert(text::texts(r@)[i + 1] == r@[i + 1]@);
        }
    } else if first.len() > 0 {
        assert(text::texts(r@)[0] == r@[0]@);
    }
}

/// A text without a newline has no line that is ended.
proof fn lemma_no_newline(s: Seq<char>)
    requires
        !s.contains('\n'),
    ensures
        split(s).0.len() == 0,
        split(s).1 == s,
    decreases s.len(),
{
    if s.len() > 0 {
        let less = s.drop_last();
        assert(!less.contains('\n')) by {
            if less.contains('\n') {
                let i = choose|i: int| 0 <= i < less.len() && less[i] == '\n';
                assert(s[i] == '\n');
            }
        }
        lemma_no_newline(less);
        assert(s[s.len() - 1] == s.last());
        assert(s.last() != '\n');
        assert(less.push(s.last()) =~= s);
    }
}

/// The first line, and the lines of the rest.
proof fn lemma_first_line(first: Seq<char>, rest: Seq<char>)
    requires
        !first.contains('\n'),
    ensures
        split(first + seq!['\n'] + rest).0 == seq![without_return(first)] + split(rest).0,
        split(first + seq!['\n'] + rest).1 == split(rest).1,
        lines(first + seq!['\n'] + rest) == seq![without_return(first)] + lines(rest),
    decreases rest.len(),
{
    let s = first + seq!['\n'] + rest;
    if rest.len() == 0 {
        assert(s.drop_last() =~= first);
        lemma_no_newline(first);
        assert(s.last() == '\n');
        assert(split(s).0 =~= seq![without_return(first)] + split(rest).0);
        assert(lines(s) =~= seq![without_return(first)] + lines(rest));
    } else {
        let less = rest.drop_last();
        assert(s.drop_last() =~= first + seq!['\n'] + less);
        assert(s.last() == rest.last());
        lemma_first_line(first, less);
        assert(split(s).0 =~= seq![without_return(first)] + split(rest).0);
        assert(lines(s) =~= seq![without_return(first)] + lines(rest));
    }
}

} // verus!
