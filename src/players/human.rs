use vstd::prelude::*;
use vstd::string::StrSliceExecFns;

use crate::game::Game;

verus! {

/// What `str::trim` makes of a string: the string without its leading and
/// trailing whitespace.
pub uninterp spec fn trimmed(s: Seq<char>) -> Seq<char>;

/// Relies on `str::trim`, which removes leading and trailing whitespace and
/// depends on the characters alone.
#[verifier::external_body]
fn trim_text<'a>(s: &'a str) -> (r: &'a str)
    ensures
        r@ == trimmed(s@),
{
    s.trim()
}

/// The player at the keyboard; a move is typed as two numbers with a comma
/// between them.
pub struct Human;

/// Why a typed move was refused.
#[derive(Copy, Clone, Debug, PartialEq, Eq, Structural)]
pub enum MoveInputError {
    BadRow,
    BadColumn,
    Occupied,
}

impl MoveInputError {
    /// The text shown to the player.
    pub fn message(&self) -> (r: &'static str)
        ensures
            *self == MoveInputError::BadRow ==> r@ == "Could not parse row"@,
            *self == MoveInputError::BadColumn ==> r@ == "Could not parse column"@,
            *self == MoveInputError::Occupied ==> r@ == "Cell is already occupied"@,
    {
        match self {
            MoveInputError::BadRow => "Could not parse row",
            MoveInputError::BadColumn => "Could not parse column",
            MoveInputError::Occupied => "Cell is already occupied",
        }
    }
}

pub open spec fn is_digit(c: char) -> bool {
    '0' <= c <= '9'
}

pub open spec fn all_digits(s: Seq<char>) -> bool {
    forall|i: int| 0 <= i < s.len() ==> is_digit(#[trigger] s[i])
}

/// The number that a string of decimal digits writes.
pub open spec fn digits_value(s: Seq<char>) -> int
    decreases s.len(),
{
    if s.len() == 0 {
        0
    } else {
        10 * digits_value(s.drop_last()) + (s.last() as u32 - '0' as u32)
    }
}

/// The text after an optional leading `+`.
pub open spec fn unsigned_digits(s: Seq<char>) -> Seq<char> {
    if s.len() > 0 && s[0] == '+' {
        s.drop_first()
    } else {
        s
    }
}

/// The value of a `usize` written in decimal: an optional `+`, then one
/// digit or more, with a value that fits.
pub open spec fn parsed_usize(s: Seq<char>) -> Option<usize> {
    let d = unsigned_digits(s);
    if d.len() > 0 && all_digits(d) && digits_value(d) <= usize::MAX {
        Some(digits_value(d) as usize)
    } else {
        None
    }
}

/// The index of the first comma of `s`, or its length where there is none.
pub open spec fn comma_index(s: Seq<char>) -> int
    decreases s.len(),
{
    if s.len() == 0 {
        0
    } else if s[0] == ',' {
        0
    } else {
        1 + comma_index(s.drop_first())
    }
}

/// The text before the first comma.
pub open spec fn first_field(s: Seq<char>) -> Seq<char> {
    s.subrange(0, comma_index(s))
}

/// The text after the first comma, where there is one.
pub open spec fn after_comma(s: Seq<char>) -> Option<Seq<char>> {
    if comma_index(s) < s.len() {
        Some(s.subrange(comma_index(s) + 1, s.len() as int))
    } else {
        None
    }
}

/// A typed move: the first two comma-separated fields, each trimmed and read
/// as a `usize`; further fields are ignored.
pub open spec fn parsed_move(s: Seq<char>) -> Result<(usize, usize), MoveInputError> {
    match parsed_usize(trimmed(first_field(s))) {
        None => Err(MoveInputError::BadRow),
        Some(a) => match after_comma(s) {
            None => Err(MoveInputError::BadColumn),
            Some(rest) => match parsed_usize(trimmed(first_field(rest))) {
                None => Err(MoveInputError::BadColumn),
                Some(b) => Ok((a, b)),
            },
        },
    }
}

proof fn lemma_comma_index(s: Seq<char>)
    ensures
        0 <= comma_index(s) <= s.len(),
        comma_index(s) < s.len() ==> s[comma_index(s)] == ',',
        forall|i: int| 0 <= i < comma_index(s) ==> s[i] != ',',
    decreases s.len(),
{
    if s.len() > 0 && s[0] != ',' {
        lemma_comma_index(s.drop_first());
        assert forall|i: int| 0 <= i < comma_index(s) implies s[i] != ',' by {
            if i > 0 {
                assert(s[i] == s.drop_first()[i - 1]);
            }
        }
    }
}

/// A digit string's prefix never writes a larger number than the whole.
proof fn lemma_digits_prefix_le(d: Seq<char>, k: int)
    requires
        all_digits(d),
        0 <= k <= d.len(),
    ensures
        digits_value(d.subrange(0, k)) <= digits_value(d),
    decreases d.len(),
{
    if k < d.len() {
        let p = d.drop_last();
        assert(all_digits(p));
        lemma_digits_prefix_le(p, k);
        assert(p.subrange(0, k) =~= d.subrange(0, k));
        lemma_digits_nonneg(p);
    } else {
        assert(d.subrange(0, k) =~= d);
    }
}

proof fn lemma_digits_nonneg(d: Seq<char>)
    requires
        all_digits(d),
    ensures
        digits_value(d) >= 0,
    decreases d.len(),
{
    if d.len() > 0 {
        assert(all_digits(d.drop_last()));
        lemma_digits_nonneg(d.drop_last());
    }
}

/// Reads a `usize` written in decimal, with an optional leading `+`.
pub fn parse_usize(s: &str) -> (r: Option<usize>)
    ensures
        r == parsed_usize(s@),
{
    let n = s.unicode_len();
    let mut start: usize = 0;
    if n > 0 && s.get_char(0) == '+' {
        start = 1;
    }
    let ghost d = unsigned_digits(s@);
    assert(d =~= s@.subrange(start as int, n as int));
    if start == n {
        return None;
    }
    let mut i: usize = start;
    let mut value: usize = 0;
    while i < n
        invariant
            start < n,
            n == s@.len(),
            start <= i <= n,
            d == s@.subrange(start as int, n as int),
            d == unsigned_digits(s@),
            forall|j: int| start <= j < i ==> is_digit(#[trigger] s@[j]),
            value as int == digits_value(s@.subrange(start as int, i as int)),
        decreases n - i,
    {
        let c = s.get_char(i);
        assert(d[i - start] == s@[i as int]);
        if !('0' <= c && c <= '9') {
            assert(!is_digit(d[i - start]));
            return None;
        }
        let digit = (c as u32 - '0' as u32) as u128;
        let next = value as u128 * 10 + digit;
        let ghost prefix = s@.subrange(start as int, i + 1);
        assert(prefix.drop_last() =~= s@.subrange(start as int, i as int));
        assert(prefix.last() == c);
        assert(digits_value(prefix) == next as int);
        if next > usize::MAX as u128 {
            proof {
                if all_digits(d) {
                    assert(prefix =~= d.subrange(0, i + 1 - start));
                    lemma_digits_prefix_le(d, i + 1 - start);
                }
            }
            return None;
        }
        value = next as usize;
        i += 1;
    }
    assert(s@.subrange(start as int, n as int) =~= d);
    assert(all_digits(d)) by {
        assert forall|j: int| 0 <= j < d.len() implies is_digit(#[trigger] d[j]) by {
            assert(d[j] == s@[j + start]);
        }
    }
    Some(value)
}

/// The index of the first comma of `s`, or its length.
fn find_comma(s: &str) -> (r: usize)
    ensures
        r as int == comma_index(s@),
{
    proof {
        lemma_comma_index(s@);
    }
    let n = s.unicode_len();
    let mut i: usize = 0;
    while i < n
        invariant
            n == s@.len(),
            i <= n,
            i <= comma_index(s@),
            0 <= comma_index(s@) <= s@.len(),
            comma_index(s@) < s@.len() ==> s@[comma_index(s@)] == ',',
            forall|j: int| 0 <= j < comma_index(s@) ==> s@[j] != ',',
        decreases n - i,
    {
        if s.get_char(i) == ',' {
            return i;
        }
        i += 1;
    }
    i
}

/// Reads a typed move `x,y`. The first field that cannot be read decides the
/// error: `BadRow` for the first, `BadColumn` for a missing or bad second.
pub fn parse_move(input: &str) -> (r: Result<(usize, usize), MoveInputError>)
    ensures
        r == parsed_move(input@),
{
    let n = input.unicode_len();
    let c = find_comma(input);
    proof {
        lemma_comma_index(input@);
    }
    let first = input.substring_char(0, c);
    let x = match parse_usize(trim_text(first)) {
        Some(v) => v,
        None => return Err(MoveInputError::BadRow),
    };
    if c == n {
        return Err(MoveInputError::BadColumn);
    }
    let rest = input.substring_char(c + 1, n);
    let c2 = find_comma(rest);
    proof {
        lemma_comma_index(rest@);
    }
    let second = rest.substring_char(0, c2);
    match parse_usize(trim_text(second)) {
        Some(y) => Ok((x, y)),
        None => Err(MoveInputError::BadColumn),
    }
}

impl Human {
    /// Checks a typed move against a position: it must read as `x,y` and name
    /// a cell where a move is legal.
    pub fn check_move(&self, game: &Game, input: &str) -> (r: Result<(usize, usize), MoveInputError>)
        ensures
            match parsed_move(input@) {
                Err(e) => r == Err::<(usize, usize), MoveInputError>(e),
                Ok(m) => if game@.is_legal(m.0 as int, m.1 as int) {
                    r == Ok::<(usize, usize), MoveInputError>(m)
                } else {
                    r == Err::<(usize, usize), MoveInputError>(MoveInputError::Occupied)
                },
            },
    {
        match parse_move(input) {
            Err(e) => Err(e),
            Ok((x, y)) => if game.is_valid_move(x, y) {
                Ok((x, y))
            } else {
                Err(MoveInputError::Occupied)
            },
        }
    }
}

} // verus!
