//! The words of a game: drawn at random from a list, then laid out in lines.

use rand::distributions::{Distribution, Uniform};
use vstd::prelude::*;
use vstd::string::StringExecFns;

use crate::text::views;

verus! {

/// The average length of a word, in characters.
pub const AVERAGE_WORD_LENGTH: u16 = 5;

/// Relies on `rand::thread_rng` and `Uniform::from(0..n)`: a value in
/// `0 .. n`; the range may not be empty.
#[verifier::external_body]
fn random_index(n: usize) -> (r: usize)
    requires
        n > 0,
    ensures
        r < n,
{
    let mut rng = rand::thread_rng();
    Uniform::from(0..n).sample(&mut rng)
}

/// Whether `w` is one of `words`.
pub open spec fn listed(w: Seq<char>, words: Seq<String>) -> bool {
    exists|j: int| 0 <= j < words.len() && w == words[j]@
}

/// Draws `count` words at random from `words`, each independently.
pub fn generate_words(words: &Vec<String>, count: usize) -> (r: Vec<String>)
    requires
        words@.len() > 0,
    ensures
        r@.len() == count,
        forall|i: int| 0 <= i < count ==> listed(#[trigger] r@[i]@, words@),
{
    let mut out: Vec<String> = Vec::new();
    let mut i: usize = 0;
    while i < count
        invariant
            i <= count,
            out@.len() == i,
            words@.len() > 0,
            forall|k: int| 0 <= k < i ==> listed(#[trigger] out@[k]@, words@),
        decreases count - i,
    {
        let j = random_index(words.len());
        out.push(words[j].clone());
        proof {
            assert(out@[i as int]@ == words@[j as int]@);
        }
        i += 1;
    }
    out
}

/// How many words go on a line of a screen `term_width` columns wide: three
/// fifths of the words of average length, each with its space, that fit.
pub fn words_per_line(term_width: u16) -> (r: usize)
    ensures
        r == (term_width as int / (AVERAGE_WORD_LENGTH as int + 1)) * 3 / 5,
{
    ((term_width / (AVERAGE_WORD_LENGTH + 1)) as usize) * 3 / 5
}

/// Words joined by single spaces.
pub open spec fn joined(ws: Seq<Seq<char>>) -> Seq<char>
    decreases ws.len(),
{
    if ws.len() == 0 {
        Seq::empty()
    } else if ws.len() == 1 {
        ws[0]
    } else {
        joined(ws.drop_last()) + seq![' '] + ws.last()
    }
}

/// Words `start .. end` of `words`, joined by single spaces.
fn join_range(words: &Vec<String>, start: usize, end: usize) -> (r: String)
    requires
        start <= end <= words@.len(),
    ensures
        r@ == joined(views(words@).subrange(start as int, end as int)),
{
    let mut line = String::new();
    let mut i: usize = start;
    while i < end
        invariant
            start <= i <= end,
            end <= words@.len(),
            line@ == joined(views(words@).subrange(start as int, i as int)),
        decreases end - i,
    {
        proof {
            let next = views(words@).subrange(start as int, i + 1);
            assert(next.drop_last() =~= views(words@).subrange(start as int, i as int));
            assert(next.last() == words@[i as int]@);
        }
        if i > start {
            line.append(" ");
            proof {
                reveal_strlit(" ");
            }
        }
        line.append(words[i].as_str());
        i += 1;
        proof {
            let cur = views(words@).subrange(start as int, i as int);
            if i == start + 1 {
                assert(cur =~= seq![words@[start as int]@]);
                assert(line@ =~= joined(cur));
            } else {
                assert(line@ =~= joined(cur));
            }
        }
    }
    line
}

/// Lays `words` out in lines of `per_line` words each, the last line taking
/// what is left; the words of a line are joined by single spaces.
pub fn lines_of_words(words: &Vec<String>, per_line: usize) -> (r: Vec<String>)
    requires
        per_line > 0,
    ensures
        r@.len() * per_line >= words@.len(),
        r@.len() == 0 || (r@.len() - 1) * per_line < words@.len(),
        forall|k: int|
            0 <= k < r@.len() ==> (#[trigger] r@[k])@ == joined(
                views(words@).subrange(
                    k * per_line,
                    if (k + 1) * per_line < words@.len() {
                        (k + 1) * per_line
                    } else {
                        words@.len() as int
                    },
                ),
            ),
{
    let n = words.len();
    let mut lines: Vec<String> = Vec::new();
    let mut start: usize = 0;
    assert(lines@.len() * per_line == 0) by (nonlinear_arith)
        requires
            lines@.len() == 0,
    ;
    while start < n
        invariant
            start <= n,
            n == words@.len(),
            per_line > 0,
            start < n ==> start == lines@.len() * per_line,
            start == n ==> lines@.len() * per_line >= n,
            lines@.len() == 0 || (lines@.len() - 1) * per_line < n,
            forall|k: int|
                0 <= k < lines@.len() ==> (#[trigger] lines@[k])@ == joined(
                    views(words@).subrange(
                        k * per_line,
                        if (k + 1) * per_line < n {
                            (k + 1) * per_line
                        } else {
                            n as int
                        },
                    ),
                ),
        decreases n - start,
    {
        let end = if n - start > per_line {
            start + per_line
        } else {
            n
        };
        let line = join_range(words, start, end);
        let ghost k = lines@.len() as int;
        lines.push(line);
        proof {
            assert((k + 1) * per_line == k * per_line + per_line) by (nonlinear_arith);
        }
        start = end;
    }
    lines
}

} // verus!
