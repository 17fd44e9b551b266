//! Cutting a text into pieces and putting pieces together.

use crate::text::{append, char_views, is_space, is_whitespace};
use vstd::prelude::*;

verus! {

/// The pieces of `s` between the occurrences of `sep`: one more piece than
/// there are separators, empty pieces included.
pub open spec fn split(s: Seq<char>, sep: char) -> Seq<Seq<char>>
    decreases s.len(),
{
    if s.len() == 0 {
        seq![Seq::empty()]
    } else {
        let before = split(s.drop_last(), sep);
        if s.last() == sep {
            before.push(Seq::empty())
        } else {
            before.drop_last().push(before.last().push(s.last()))
        }
    }
}

/// The pieces of `parts` in order, with `sep` between neighbours.
pub open spec fn join(parts: Seq<Seq<char>>, sep: Seq<char>) -> Seq<char>
    decreases parts.len(),
{
    if parts.len() == 0 {
        Seq::empty()
    } else if parts.len() == 1 {
        parts[0]
    } else {
        join(parts.drop_last(), sep) + sep + parts.last()
    }
}

/// A split yields at least one piece.
pub proof fn lemma_split_len(s: Seq<char>, sep: char)
    ensures
        split(s, sep).len() >= 1,
    decreases s.len(),
{
    if s.len() > 0 {
        lemma_split_len(s.drop_last(), sep);
    }
}

/// Joining the pieces of a split with the separator gives the text back, and
/// no piece holds the separator.
pub proof fn law_split_join(s: Seq<char>, sep: char)
    ensures
        join(split(s, sep), seq![sep]) == s,
        forall|i: int, j: int|
            0 <= i < split(s, sep).len() && 0 <= j < split(s, sep)[i].len() ==> split(
                s,
                sep,
            )[i][j] != sep,
    decreases s.len(),
{
    if s.len() == 0 {
    } else {
        let before = split(s.drop_last(), sep);
        law_split_join(s.drop_last(), sep);
        lemma_split_len(s.drop_last(), sep);
        let now = split(s, sep);
        if s.last() == sep {
            assert(now.drop_last() == before);
            assert(join(now, seq![sep]) =~= s.drop_last().push(sep));
            assert(s.drop_last().push(sep) == s);
        } else {
            if before.len() == 1 {
                assert(now[0] == before[0].push(s.last()));
                assert(before[0] == s.drop_last());
            } else {
                assert(now.drop_last() == before.drop_last());
                assert(join(now, seq![sep]) =~= join(before, seq![sep]).push(s.last()));
            }
            assert(s.drop_last().push(s.last()) == s);
        }
    }
}

/// The pieces of `s` between the occurrences of `sep`.
pub fn split_on(s: &Vec<char>, sep: char) -> (out: Vec<Vec<char>>)
    ensures
        char_views(out@) == split(s@, sep),
        out.len() >= 1,
{
    let mut done: Vec<Vec<char>> = Vec::new();
    let mut buf: Vec<char> = Vec::new();
    let mut i: usize = 0;
    while i < s.len()
        invariant
            i <= s.len(),
            char_views(done@).push(buf@) == split(s@.take(i as int), sep),
        decreases s.len() - i,
    {
        let ghost before = char_views(done@).push(buf@);
        assert(s@.take(i + 1).drop_last() == s@.take(i as int));
        if s[i] == sep {
            done.push(buf);
            buf = Vec::new();
            assert(char_views(done@).push(buf@) =~= before.push(Seq::empty()));
        } else {
            buf.push(s[i]);
            assert(char_views(done@).push(buf@) =~= before.drop_last().push(
                before.last().push(s@[i as int]),
            ));
        }
        i += 1;
    }
    assert(s@.take(s.len() as int) == s@);
    let ghost before = char_views(done@).push(buf@);
    done.push(buf);
    assert(char_views(done@) =~= before);
    done
}

/// The pieces of `parts` in order, with `sep` between neighbours.
pub fn join_with(parts: &Vec<Vec<char>>, sep: &Vec<char>) -> (out: Vec<char>)
    ensures
        out@ == join(char_views(parts@), sep@),
{
    let mut out: Vec<char> = Vec::new();
    let mut i: usize = 0;
    while i < parts.len()
        invariant
            i <= parts.len(),
            out@ == join(char_views(parts@).take(i as int), sep@),
        decreases parts.len() - i,
    {
        let ghost now = char_views(parts@).take(i + 1);
        assert(now.drop_last() == char_views(parts@).take(i as int));
        assert(now.last() == parts[i as int]@);
        if i > 0 {
            append(&mut out, sep);
        }
        append(&mut out, &parts[i]);
        i += 1;
    }
    assert(char_views(parts@).take(parts.len() as int) == char_views(parts@));
    out
}

/// The tokens finished so far, with the one being read added if it holds
/// anything.
pub open spec fn flush(done: Seq<Seq<char>>, buf: Seq<char>) -> Seq<Seq<char>> {
    if buf.len() > 0 {
        done.push(buf)
    } else {
        done
    }
}

/// Reading `s` from the left: the tokens already closed, and the characters of
/// the token being read. White space closes a token. With `brackets`, each
/// round bracket closes the token before it and is a token by itself.
pub open spec fn scan(s: Seq<char>, brackets: bool) -> (Seq<Seq<char>>, Seq<char>)
    decreases s.len(),
{
    if s.len() == 0 {
        (Seq::empty(), Seq::empty())
    } else {
        let (done, buf) = scan(s.drop_last(), brackets);
        let c = s.last();
        if brackets && (c == '(' || c == ')') {
            (flush(done, buf).push(seq![c]), Seq::empty())
        } else if is_space(c) {
            (flush(done, buf), Seq::empty())
        } else {
            (done, buf.push(c))
        }
    }
}

/// The maximal runs of characters of `s` that are not white space.
pub open spec fn words(s: Seq<char>) -> Seq<Seq<char>> {
    flush(scan(s, false).0, scan(s, false).1)
}

/// The words of `s`, with every round bracket a word of its own.
pub open spec fn bracket_words(s: Seq<char>) -> Seq<Seq<char>> {
    flush(scan(s, true).0, scan(s, true).1)
}

/// Whether no piece of `v` is empty.
pub open spec fn all_nonempty(v: Seq<Seq<char>>) -> bool {
    forall|i: int| 0 <= i < v.len() ==> (#[trigger] v[i]).len() > 0
}

/// Cutting a text into words gives no empty word.
pub proof fn law_no_empty_word(s: Seq<char>, brackets: bool)
    ensures
        all_nonempty(scan(s, brackets).0),
        all_nonempty(flush(scan(s, brackets).0, scan(s, brackets).1)),
    decreases s.len(),
{
    if s.len() > 0 {
        law_no_empty_word(s.drop_last(), brackets);
        let (done, buf) = scan(s.drop_last(), brackets);
        let c = s.last();
        assert(all_nonempty(flush(done, buf)));
        if brackets && (c == '(' || c == ')') {
            let now = flush(done, buf).push(seq![c]);
            assert forall|i: int| 0 <= i < now.len() implies (#[trigger] now[i]).len() > 0 by {
                if i < now.len() - 1 {
                    assert(now[i] == flush(done, buf)[i]);
                } else {
                    assert(now[i] == seq![c]);
                }
            }
        } else if is_space(c) {
        } else {
            let now = flush(done, buf.push(c));
            assert forall|i: int| 0 <= i < now.len() implies (#[trigger] now[i]).len() > 0 by {
                if i < done.len() {
                    assert(now[i] == done[i]);
                }
            }
        }
    }
}

fn scan_text(s: &Vec<char>, brackets: bool) -> (out: Vec<Vec<char>>)
    ensures
        char_views(out@) == flush(scan(s@, brackets).0, scan(s@, brackets).1),
{
    let mut done: Vec<Vec<char>> = Vec::new();
    let mut buf: Vec<char> = Vec::new();
    let mut i: usize = 0;
    while i < s.len()
        invariant
            i <= s.len(),
            (char_views(done@), buf@) == scan(s@.take(i as int), brackets),
        decreases s.len() - i,
    {
        let ghost before = char_views(done@);
        let ghost word = buf@;
        assert(s@.take(i + 1).drop_last() == s@.take(i as int));
        let c = s[i];
        if brackets && (c == '(' || c == ')') {
            if buf.len() > 0 {
                done.push(buf);
                buf = Vec::new();
            }
            let mut one: Vec<char> = Vec::new();
            one.push(c);
            assert(one@ =~= seq![c]);
            done.push(one);
            assert(char_views(done@) =~= flush(before, word).push(seq![c]));
        } else if is_whitespace(c) {
            if buf.len() > 0 {
                done.push(buf);
                buf = Vec::new();
            }
            assert(char_views(done@) =~= flush(before, word));
        } else {
            buf.push(c);
        }
        i += 1;
    }
    assert(s@.take(s.len() as int) == s@);
    let ghost before = char_views(done@);
    let ghost word = buf@;
    if buf.len() > 0 {
        done.push(buf);
    }
    assert(char_views(done@) =~= flush(before, word));
    done
}

/// The maximal runs of characters of `s` that are not white space.
pub fn words_of(s: &Vec<char>) -> (out: Vec<Vec<char>>)
    ensures
        char_views(out@) == words(s@),
{
    scan_text(s, false)
}

/// The words of `s`, with every round bracket a word of its own.
pub fn bracket_words_of(s: &Vec<char>) -> (out: Vec<Vec<char>>)
    ensures
        char_views(out@) == bracket_words(s@),
{
    scan_text(s, true)
}

/// `l` without one carriage return at its end.
pub open spec fn without_return(l: Seq<char>) -> Seq<char> {
    if l.len() > 0 && l.last() == '\r' {
        l.drop_last()
    } else {
        l
    }
}

/// The lines of a text. A line ends at a line feed, and a carriage return just
/// before that line feed is not part of it. Text after the last line feed is
/// a line as it stands; if there is none, no empty line is added.
pub open spec fn lines(s: Seq<char>) -> Seq<Seq<char>> {
    let pieces = split(s, '\n');
    let ended = Seq::new((pieces.len() - 1) as nat, |i: int| without_return(pieces[i]));
    if pieces.last().len() > 0 {
        ended.push(pieces.last())
    } else {
        ended
    }
}

/// The lines of a text.
pub fn lines_of(s: &Vec<char>) -> (out: Vec<Vec<char>>)
    ensures
        char_views(out@) == lines(s@),
{
    let mut pieces = split_on(s, '\n');
    let ghost all = char_views(pieces@);
    let last = pieces.pop().unwrap();
    assert(char_views(pieces@) =~= all.drop_last());
    let mut out: Vec<Vec<char>> = Vec::new();
    let mut i: usize = 0;
    while i < pieces.len()
        invariant
            i <= pieces.len(),
            pieces.len() == all.len() - 1,
            char_views(pieces@) == all.drop_last(),
            out.len() == i,
            char_views(out@) == Seq::new(i as nat, |k: int| without_return(all[k])),
        decreases pieces.len() - i,
    {
        let ghost before = char_views(out@);
        let mut line = pieces[i].clone();
        assert(line@ == char_views(pieces@)[i as int]);
        let n = line.len();
        if n > 0 && line[n - 1] == '\r' {
            line.pop();
        }
        assert(line@ == without_return(all[i as int]));
        out.push(line);
        i += 1;
        assert forall|k: int| 0 <= k < i implies char_views(out@)[k] == without_return(
            all[k],
        ) by {
            if k < i - 1 {
                assert(char_views(out@)[k] == before[k]);
            }
        }
        assert(char_views(out@) =~= Seq::new(i as nat, |k: int| without_return(all[k])));
    }
    let ghost ended = char_views(out@);
    if last.len() > 0 {
        out.push(last);
        assert(char_views(out@) =~= ended.push(all.last()));
    }
    out
}

} // verus!
