//! The guess loop's decisions: reading a player's line as a number and
//! comparing it to a secret drawn once per game through the outside
//! random-number generator. The surrounding loop only reads lines, hands
//! them here, and prints what the outcome dictates.

use vstd::prelude::*;
use vstd::string::StrSliceExecFns;

verus! {

/// ASCII whitespace, as trimming the player's line removes it.
pub open spec fn is_space_char(c: char) -> bool {
    c == ' ' || c == '\n' || c == '\r' || c == '\t'
}

/// A decimal digit, by code point.
pub open spec fn is_digit_char(c: char) -> bool {
    48 <= c as int && c as int <= 57
}

/// The numeric value of one decimal digit character.
pub open spec fn digit_value(c: char) -> int {
    c as int - 48
}

/// The input with leading and trailing whitespace removed.
pub open spec fn trimmed(s: Seq<char>) -> Seq<char>
    decreases s.len(),
{
    if s.len() > 0 && is_space_char(s[0]) {
        trimmed(s.drop_first())
    } else if s.len() > 0 && is_space_char(s.last()) {
        trimmed(s.drop_last())
    } else {
        s
    }
}

pub open spec fn all_digits(s: Seq<char>) -> bool {
    forall|i: int| 0 <= i < s.len() ==> is_digit_char(#[trigger] s[i])
}

/// The value of a digit string, most significant digit first.
pub open spec fn digits_value(s: Seq<char>) -> int
    decreases s.len(),
{
    if s.len() == 0 {
        0
    } else {
        digits_value(s.drop_last()) * 10 + digit_value(s.last())
    }
}

/// A well-formed guess: after trimming, a non-empty string of digits
/// whose value fits the guess type.
pub open spec fn valid_guess(s: Seq<char>) -> bool {
    &&& trimmed(s).len() > 0
    &&& all_digits(trimmed(s))
    &&& digits_value(trimmed(s)) <= u32::MAX
}

/// Trimming removes exactly the whitespace margins: if everything left of
/// `lo` and right of `hi` is whitespace and the ends at `lo` and `hi` are
/// not, the trimmed input is the part between them.
proof fn lemma_trimmed_is_subrange(s: Seq<char>, lo: int, hi: int)
    requires
        0 <= lo <= hi <= s.len(),
        forall|i: int| 0 <= i < lo ==> is_space_char(#[trigger] s[i]),
        forall|i: int| hi <= i < s.len() ==> is_space_char(#[trigger] s[i]),
        lo < hi ==> !is_space_char(s[lo]) && !is_space_char(s[hi - 1]),
    ensures
        trimmed(s) == s.subrange(lo, hi),
    decreases s.len(),
{
    if s.len() > 0 && is_space_char(s[0]) {
        let s2 = s.drop_first();
        if lo > 0 {
            lemma_trimmed_is_subrange(s2, lo - 1, hi - 1);
            assert(s.subrange(lo, hi) =~= s2.subrange(lo - 1, hi - 1));
        } else {
            assert(lo == hi);
            lemma_trimmed_is_subrange(s2, 0, 0);
            assert(s.subrange(0, 0) =~= s2.subrange(0, 0));
        }
    } else if s.len() > 0 && is_space_char(s.last()) {
        let s2 = s.drop_last();
        assert(hi < s.len()) by {
            if hi == s.len() {
                assert(is_space_char(s[0]));
            }
        }
        lemma_trimmed_is_subrange(s2, lo, hi);
        assert(s.subrange(lo, hi) =~= s2.subrange(lo, hi));
    } else {
        if s.len() == 0 {
            assert(s.subrange(lo, hi) =~= s);
        } else {
            assert(lo == 0) by {
                if lo > 0 {
                    assert(is_space_char(s[0]));
                }
            }
            assert(hi == s.len()) by {
                if hi < s.len() {
                    assert(is_space_char(s[s.len() - 1]));
                }
            }
            assert(s.subrange(lo, hi) =~= s);
        }
    }
}

proof fn lemma_digits_value_nonneg(s: Seq<char>)
    requires
        all_digits(s),
    ensures
        digits_value(s) >= 0,
    decreases s.len(),
{
    if s.len() > 0 {
        assert(all_digits(s.drop_last())) by {
            assert forall|i: int| 0 <= i < s.drop_last().len() implies is_digit_char(
                #[trigger] s.drop_last()[i],
            ) by {
                assert(s.drop_last()[i] == s[i]);
            }
        }
        lemma_digits_value_nonneg(s.drop_last());
        assert(is_digit_char(s[s.len() - 1]));
    }
}

/// A digit string is worth at least any of its leading parts.
proof fn lemma_digits_value_take_monotone(s: Seq<char>, m: int)
    requires
        all_digits(s),
        0 <= m <= s.len(),
    ensures
        digits_value(s.take(m)) <= digits_value(s),
    decreases s.len() - m,
{
    if m < s.len() {
        assert(s.take(m + 1).drop_last() =~= s.take(m));
        assert(s.take(m + 1).last() == s[m]);
        assert(all_digits(s.take(m))) by {
            assert forall|i: int| 0 <= i < m implies is_digit_char(#[trigger] s.take(m)[i]) by {
                assert(s.take(m)[i] == s[i]);
                assert(is_digit_char(s[i]));
            }
        }
        lemma_digits_value_nonneg(s.take(m));
        assert(is_digit_char(s[m]));
        assert(digits_value(s.take(m + 1)) >= digits_value(s.take(m)));
        lemma_digits_value_take_monotone(s, m + 1);
    } else {
        assert(s.take(m) =~= s);
    }
}

fn is_space(c: char) -> (r: bool)
    ensures
        r == is_space_char(c),
{
    c == ' ' || c == '\n' || c == '\r' || c == '\t'
}

/// Reads a line of player input as a guess, as the game loop does before
/// comparing: whitespace at both ends is ignored, and the line counts only
/// if what remains is a non-empty string of digits whose value fits.
pub fn parse_guess(s: &str) -> (r: Option<u32>)
    ensures
        r is Some <==> valid_guess(s@),
        r is Some ==> r == Some((digits_value(trimmed(s@)) as u32)),
{
    let len = s.unicode_len();
    let mut lo: usize = 0;
    loop
        invariant
            lo <= len,
            len == s@.len(),
            forall|j: int| 0 <= j < lo ==> is_space_char(#[trigger] s@[j]),
        ensures
            lo <= len,
            forall|j: int| 0 <= j < lo ==> is_space_char(#[trigger] s@[j]),
            lo == len || !is_space_char(s@[lo as int]),
        decreases len - lo,
    {
        if lo >= len {
            break;
        }
        if !is_space(s.get_char(lo)) {
            break;
        }
        lo = lo + 1;
    }
    let mut hi: usize = len;
    loop
        invariant
            lo <= hi <= len,
            len == s@.len(),
            forall|j: int| hi <= j < len ==> is_space_char(#[trigger] s@[j]),
        ensures
            lo <= hi <= len,
            forall|j: int| hi <= j < len ==> is_space_char(#[trigger] s@[j]),
            hi == lo || !is_space_char(s@[hi - 1]),
        decreases hi,
    {
        if hi <= lo {
            break;
        }
        if !is_space(s.get_char(hi - 1)) {
            break;
        }
        hi = hi - 1;
    }
    proof {
        lemma_trimmed_is_subrange(s@, lo as int, hi as int);
    }
    if lo == hi {
        return None;
    }
    let mut acc: u64 = 0;
    let mut i: usize = lo;
    loop
        invariant
            lo <= i <= hi <= len,
            lo < hi,
            len == s@.len(),
            trimmed(s@) == s@.subrange(lo as int, hi as int),
            all_digits(s@.subrange(lo as int, i as int)),
            acc == digits_value(s@.subrange(lo as int, i as int)),
            acc <= u32::MAX,
        ensures
            i == hi,
            all_digits(trimmed(s@)),
            acc == digits_value(trimmed(s@)),
            acc <= u32::MAX,
        decreases hi - i,
    {
        if i >= hi {
            proof {
                assert(s@.subrange(lo as int, i as int) =~= trimmed(s@));
            }
            break;
        }
        let c = s.get_char(i);
        let cv = c as u32;
        if cv < 48 || cv > 57 {
            proof {
                assert(trimmed(s@)[i - lo] == s@[i as int]);
                assert(!is_digit_char(trimmed(s@)[i - lo]));
            }
            return None;
        }
        let d = (cv - 48) as u64;
        proof {
            assert(s@.subrange(lo as int, i + 1).drop_last() =~= s@.subrange(lo as int, i as int));
            assert(s@.subrange(lo as int, i + 1).last() == s@[i as int]);
            assert(all_digits(s@.subrange(lo as int, i + 1))) by {
                assert forall|j: int|
                    0 <= j < i + 1 - lo implies is_digit_char(
                    #[trigger] s@.subrange(lo as int, i + 1)[j],
                ) by {
                    assert(s@.subrange(lo as int, i + 1)[j] == s@[lo + j]);
                    if j < i - lo {
                        assert(s@.subrange(lo as int, i as int)[j] == s@[lo + j]);
                        assert(is_digit_char(s@.subrange(lo as int, i as int)[j]));
                    }
                }
            }
        }
        let next = acc * 10 + d;
        if next > u32::MAX as u64 {
            proof {
                if all_digits(trimmed(s@)) {
                    assert(trimmed(s@).take(i + 1 - lo) =~= s@.subrange(lo as int, i + 1));
                    lemma_digits_value_take_monotone(trimmed(s@), i + 1 - lo);
                    assert(digits_value(trimmed(s@)) > u32::MAX);
                }
            }
            return None;
        }
        acc = next;
        i = i + 1;
    }
    Some(acc as u32)
}

/// How one guess relates to the secret.
#[derive(Clone, Copy, PartialEq, Eq, Structural, Debug)]
pub enum GuessOutcome {
    TooSmall,
    TooBig,
    Win,
}

/// The comparison the game announces after each well-formed guess.
pub open spec fn outcome_of(guess: u32, secret: u32) -> GuessOutcome {
    if guess < secret {
        GuessOutcome::TooSmall
    } else if guess > secret {
        GuessOutcome::TooBig
    } else {
        GuessOutcome::Win
    }
}

/// One round's state: the secret to be guessed.
pub struct Game {
    pub secret: u32,
}

impl Game {
    /// Starts a game with a secret from the guessing range.
    pub fn new() -> (g: Game)
        ensures
            1 <= g.secret <= 100,
    {
        Game { secret: draw_secret() }
    }

    /// Compares one well-formed guess to the secret.
    pub fn evaluate(&self, guess: u32) -> (r: GuessOutcome)
        ensures
            r == outcome_of(guess, self.secret),
    {
        if guess < self.secret {
            GuessOutcome::TooSmall
        } else if guess > self.secret {
            GuessOutcome::TooBig
        } else {
            GuessOutcome::Win
        }
    }

    /// One turn of the game loop: a line that does not read as a number is
    /// no guess at all — the loop asks again — and any other line is
    /// compared to the secret.
    pub fn guess_line(&self, line: &str) -> (r: Option<GuessOutcome>)
        ensures
            r is Some <==> valid_guess(line@),
            r is Some ==> r == Some(
                outcome_of((digits_value(trimmed(line@)) as u32), self.secret),
            ),
    {
        match parse_guess(line) {
            Some(g) => Some(self.evaluate(g)),
            None => None,
        }
    }
}

/// Relies on rand::random_range: sampling an inclusive integer range
/// yields a value within that range. Nothing more is assumed of the draw.
#[verifier::external_body]
fn draw_secret() -> (r: u32)
    ensures
        1 <= r <= 100,
{
    rand::random_range(1..=100)
}

} // verus!
