//! The summary of a test run's output: how many tests ran, and how many passed.

use vstd::prelude::*;
use crate::text::{
    chars_of, find_char, find_char_from, lemma_find_char_from_bounds, same, split_from, sub_vec,
};

verus! {

/// `l` without one trailing carriage return.
pub open spec fn without_cr(l: Seq<char>) -> Seq<char> {
    if l.len() > 0 && l.last() == '\r' {
        l.drop_last()
    } else {
        l
    }
}

/// Whether the first space-separated word of a line is `ok`.
pub open spec fn first_word_is_ok(l: Seq<char>) -> bool {
    l.subrange(0, find_char_from(l, ' ', 0)) == "ok"@
}

/// Whether the `i`-th of the pieces of a text between line feeds is a passed test: a
/// piece that a line feed ends loses the carriage return before it.
pub open spec fn piece_passed(pieces: Seq<Seq<char>>, i: int) -> bool {
    first_word_is_ok(
        if i + 1 < pieces.len() {
            without_cr(pieces[i])
        } else {
            pieces[i]
        },
    )
}

/// The number of passed tests among the first `n` pieces.
pub open spec fn count_passed(pieces: Seq<Seq<char>>, n: int) -> nat
    decreases n,
{
    if n <= 0 {
        0
    } else {
        count_passed(pieces, n - 1) + if piece_passed(pieces, n - 1) {
            1nat
        } else {
            0nat
        }
    }
}

/// The number of lines of a text split into pieces at line feeds: an empty piece after
/// the last line feed is no line.
pub open spec fn line_total(pieces: Seq<Seq<char>>) -> nat {
    if pieces.len() > 0 && pieces.last().len() == 0 {
        (pieces.len() - 1) as nat
    } else {
        pieces.len()
    }
}

/// Whether the first word of `line[..]` is `ok`.
fn first_word_ok(line: &[char]) -> (r: bool)
    ensures
        r == first_word_is_ok(line@),
{
    let k = find_char(line, ' ', 0);
    proof {
        lemma_find_char_from_bounds(line@, ' ', 0);
    }
    let word = sub_vec(line, 0, k);
    same(word.as_slice(), chars_of("ok").as_slice())
}

/// The number of lines of a test run's output, and the number of those whose first
/// space-separated word is `ok`.
pub fn test_cases(output: &str) -> (r: (usize, usize))
    ensures
        r.0 == line_total(split_from(output@, '\n', 0)),
        r.1 == count_passed(
            split_from(output@, '\n', 0),
            split_from(output@, '\n', 0).len() as int,
        ),
{
    let cs = chars_of(output);
    let n = cs.len();
    let ghost pieces = split_from(cs@, '\n', 0);
    let ghost done: Seq<Seq<char>> = Seq::empty();
    let mut passed: usize = 0;
    let mut seen: usize = 0;
    let mut start: usize = 0;
    assert(done + split_from(cs@, '\n', 0) =~= pieces);
    loop
        invariant
            start <= n,
            n == cs@.len(),
            cs@ == output@,
            pieces == split_from(cs@, '\n', 0),
            done + split_from(cs@, '\n', start as int) == pieces,
            seen == done.len(),
            seen <= start,
            passed == count_passed(pieces, seen as int),
            passed <= seen,
        decreases n - start,
    {
        let j = find_char(cs.as_slice(), '\n', start);
        proof {
            lemma_find_char_from_bounds(cs@, '\n', start as int);
        }
        let ghost rest = split_from(cs@, '\n', start as int);
        let ghost piece = cs@.subrange(start as int, j as int);
        assert(rest[0] == piece);
        assert(pieces[seen as int] == piece);
        let end: usize = if j < n && j > start && cs[j - 1] == '\r' {
            j - 1
        } else {
            j
        };
        let line = sub_vec(cs.as_slice(), start, end);
        proof {
            if j < n {
                assert(rest.len() > 1);
                assert(seen + 1 < pieces.len());
                assert(line@ =~= without_cr(piece));
            } else {
                assert(rest.len() == 1);
                assert(seen + 1 == pieces.len());
                assert(line@ =~= piece);
            }
        }
        let ok = first_word_ok(line.as_slice());
        proof {
            reveal_strlit("ok");
            if ok {
                lemma_find_char_from_bounds(line@, ' ', 0);
                assert(line@.subrange(0, find_char_from(line@, ' ', 0)).len() == 2);
            }
        }
        if ok {
            passed += 1;
        }
        if j == n {
            proof {
                assert(pieces =~= done.push(piece));
            }
            if start == n {
                return (seen, passed);
            }
            return (seen + 1, passed);
        }
        proof {
            assert(rest.drop_first() =~= split_from(cs@, '\n', j + 1));
            assert(done.push(piece) + split_from(cs@, '\n', j + 1) =~= pieces);
            done = done.push(piece);
        }
        seen += 1;
        start = j + 1;
    }
}

} // verus!
