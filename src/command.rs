use vstd::prelude::*;

use crate::text::{chars_of, is_whitespace, white_space};

verus! {

/// A command typed at the prompt.
#[derive(Clone, Copy, PartialEq, Eq, Debug, Structural)]
pub enum Command {
    /// Start a game with the given number of words.
    Start(usize),
    Quit,
    Help,
}

/// The words of `s` so far and the word being read, after reading all of `s`.
pub open spec fn scan(s: Seq<char>) -> (Seq<Seq<char>>, Seq<char>)
    decreases s.len(),
{
    if s.len() == 0 {
        (Seq::empty(), Seq::empty())
    } else {
        let before = scan(s.drop_last());
        let c = s.last();
        if white_space(c) {
            if before.1.len() > 0 {
                (before.0.push(before.1), Seq::empty())
            } else {
                (before.0, Seq::empty())
            }
        } else {
            (before.0, before.1.push(c))
        }
    }
}

/// The words of `s`: its maximal runs of characters that are not white space.
pub open spec fn words(s: Seq<char>) -> Seq<Seq<char>> {
    let r = scan(s);
    if r.1.len() > 0 {
        r.0.push(r.1)
    } else {
        r.0
    }
}

pub open spec fn is_digit(c: char) -> bool {
    '0' <= c <= '9'
}

/// The value of a string of decimal digits.
pub open spec fn digits_value(d: Seq<char>) -> int
    decreases d.len(),
{
    if d.len() == 0 {
        0
    } else {
        digits_value(d.drop_last()) * 10 + (d.last() as int - '0' as int)
    }
}

/// The digits of a decimal numeral: all after an optional leading `+`.
pub open spec fn numeral_digits(w: Seq<char>) -> Seq<char> {
    if w.len() > 0 && w[0] == '+' {
        w.drop_first()
    } else {
        w
    }
}

/// The number that `w` writes in decimal, if it is one that fits a `usize`:
/// an optional `+`, then one or more digits.
pub open spec fn decimal(w: Seq<char>) -> Option<usize> {
    let d = numeral_digits(w);
    if d.len() > 0 && (forall|i: int| 0 <= i < d.len() ==> is_digit(#[trigger] d[i]))
        && digits_value(d) <= usize::MAX {
        Some(digits_value(d) as usize)
    } else {
        None
    }
}

/// The command that a line names: `start` followed by a word count, `quit`
/// or `help`; words after those are ignored.
pub open spec fn command_of(s: Seq<char>) -> Option<Command> {
    let ws = words(s);
    if ws.len() == 0 {
        None
    } else if ws[0] == seq!['s', 't', 'a', 'r', 't'] {
        if ws.len() >= 2 {
            match decimal(ws[1]) {
                Some(n) => Some(Command::Start(n)),
                None => None,
            }
        } else {
            None
        }
    } else if ws[0] == seq!['q', 'u', 'i', 't'] {
        Some(Command::Quit)
    } else if ws[0] == seq!['h', 'e', 'l', 'p'] {
        Some(Command::Help)
    } else {
        None
    }
}

/// The views of a sequence of character vectors.
pub open spec fn char_views(v: Seq<Vec<char>>) -> Seq<Seq<char>> {
    v.map_values(|w: Vec<char>| w@)
}

/// Splits `s` into its words.
fn split_words(s: &str) -> (r: Vec<Vec<char>>)
    ensures
        char_views(r@) == words(s@),
{
    let chars = chars_of(s);
    let mut ws: Vec<Vec<char>> = Vec::new();
    let mut cur: Vec<char> = Vec::new();
    let mut i: usize = 0;
    while i < chars.len()
        invariant
            i <= chars@.len(),
            chars@ == s@,
            (char_views(ws@), cur@) == scan(s@.take(i as int)),
        decreases chars@.len() - i,
    {
        proof {
            assert(s@.take(i + 1).drop_last() =~= s@.take(i as int));
        }
        let c = chars[i];
        if is_whitespace(c) {
            if cur.len() > 0 {
                let mut word: Vec<char> = Vec::new();
                std::mem::swap(&mut word, &mut cur);
                ws.push(word);
            }
        } else {
            cur.push(c);
        }
        i += 1;
        proof {
            assert(char_views(ws@) =~= scan(s@.take(i as int)).0);
        }
    }
    proof {
        assert(s@.take(i as int) =~= s@);
    }
    if cur.len() > 0 {
        ws.push(cur);
    }
    proof {
        assert(char_views(ws@) =~= words(s@));
    }
    ws
}

/// Whether `w` spells `lit`.
fn spells(w: &Vec<char>, lit: &str) -> (r: bool)
    ensures
        r == (w@ == lit@),
{
    let l = chars_of(lit);
    if w.len() != l.len() {
        return false;
    }
    let mut i: usize = 0;
    while i < w.len()
        invariant
            i <= w@.len(),
            w@.len() == l@.len(),
            l@ == lit@,
            forall|j: int| 0 <= j < i ==> w@[j] == l@[j],
        decreases w@.len() - i,
    {
        if w[i] != l[i] {
            return false;
        }
        i += 1;
    }
    assert(w@ =~= lit@);
    true
}

/// A numeral with a value beyond `usize` keeps it when more digits follow.
proof fn lemma_digits_grow(d: Seq<char>, n: int)
    requires
        0 <= n <= d.len(),
        forall|i: int| 0 <= i < d.len() ==> is_digit(#[trigger] d[i]),
    ensures
        digits_value(d.take(n)) <= digits_value(d),
        digits_value(d.take(n)) >= 0,
    decreases d.len(),
{
    if n < d.len() {
        assert(d.drop_last().take(n) =~= d.take(n));
        lemma_digits_grow(d.drop_last(), n);
        lemma_digits_grow(d.drop_last(), d.len() - 1);
        assert(d.drop_last().take(d.len() - 1) =~= d.drop_last());
    } else {
        assert(d.take(n) =~= d);
        if d.len() > 0 {
            assert(d.drop_last().take(d.len() - 1) =~= d.drop_last());
            lemma_digits_grow(d.drop_last(), d.len() - 1);
        }
    }
}

/// Reads the decimal numeral `w`.
fn parse_decimal(w: &Vec<char>) -> (r: Option<usize>)
    ensures
        r == decimal(w@),
{
    let start: usize = if w.len() > 0 && w[0] == '+' {
        1
    } else {
        0
    };
    let ghost d = numeral_digits(w@);
    proof {
        assert(d =~= w@.skip(start as int));
    }
    if start >= w.len() {
        return None;
    }
    let mut acc: usize = 0;
    let mut i: usize = start;
    while i < w.len()
        invariant
            start <= i <= w@.len(),
            d == w@.skip(start as int),
            d == numeral_digits(w@),
            forall|j: int| 0 <= j < i - start ==> is_digit(#[trigger] d[j]),
            acc == digits_value(d.take(i - start)),
        decreases w@.len() - i,
    {
        let c = w[i];
        if !('0' <= c && c <= '9') {
            proof {
                assert(d[i - start] == c);
                assert(!is_digit(d[i - start]));
                assert(!(forall|j: int| 0 <= j < d.len() ==> is_digit(#[trigger] d[j])));
                assert(numeral_digits(w@) == d);
                assert(decimal(w@) is None);
            }
            return None;
        }
        let digit = (c as u32 - '0' as u32) as usize;
        proof {
            assert(d.take(i - start + 1).drop_last() =~= d.take(i - start));
            assert(d[i - start] == c);
        }
        if acc > (usize::MAX - digit) / 10 {
            proof {
                let k = i - start + 1;
                assert(d.take(k).last() == c);
                assert(digits_value(d.take(k)) == acc * 10 + digit);
                assert(acc * 10 + digit > usize::MAX) by (nonlinear_arith)
                    requires
                        acc > (usize::MAX - digit) / 10,
                        digit <= 9,
                ;
                assert(digits_value(d.take(k)) > usize::MAX);
                if forall|j: int| 0 <= j < d.len() ==> is_digit(#[trigger] d[j]) {
                    lemma_digits_grow(d, k);
                    assert(digits_value(d) > usize::MAX);
                }
                assert(numeral_digits(w@) == d);
                assert(decimal(w@) is None);
            }
            return None;
        }
        acc = acc * 10 + digit;
        i += 1;
    }
    proof {
        assert(d.take(w@.len() - start) =~= d);
    }
    Some(acc)
}

/// Reads a command line: `start <word_count>`, `quit` or `help`, words
/// separated by white space. Anything else, or a word count that is not a
/// decimal number that fits a `usize`, gives `None`.
pub fn parse(s: &str) -> (r: Option<Command>)
    ensures
        r == command_of(s@),
{
    let ws = split_words(s);
    if ws.len() == 0 {
        return None;
    }
    proof {
        assert(char_views(ws@)[0] == ws@[0]@);
        reveal_strlit("start");
        reveal_strlit("quit");
        reveal_strlit("help");
    }
    if spells(&ws[0], "start") {
        proof {
            assert("start"@ =~= seq!['s', 't', 'a', 'r', 't']);
        }
        if ws.len() >= 2 {
            proof {
                assert(char_views(ws@)[1] == ws@[1]@);
            }
            match parse_decimal(&ws[1]) {
                Some(n) => Some(Command::Start(n)),
                None => None,
            }
        } else {
            None
        }
    } else if spells(&ws[0], "quit") {
        proof {
            assert("start"@ =~= seq!['s', 't', 'a', 'r', 't']);
            assert("quit"@ =~= seq!['q', 'u', 'i', 't']);
        }
        Some(Command::Quit)
    } else if spells(&ws[0], "help") {
        proof {
            assert("start"@ =~= seq!['s', 't', 'a', 'r', 't']);
            assert("quit"@ =~= seq!['q', 'u', 'i', 't']);
            assert("help"@ =~= seq!['h', 'e', 'l', 'p']);
        }
        Some(Command::Help)
    } else {
        proof {
            assert("start"@ =~= seq!['s', 't', 'a', 'r', 't']);
            assert("quit"@ =~= seq!['q', 'u', 'i', 't']);
            assert("help"@ =~= seq!['h', 'e', 'l', 'p']);
        }
        None
    }
}

/// Reads a command line held in a `String`; see `parse`.
pub fn parse_string(s: String) -> (r: Option<Command>)
    ensures
        r == command_of(s@),
{
    parse(s.as_str())
}

} // verus!
