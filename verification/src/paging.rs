//! Offset paging: the continuation token, the page it selects, and the
//! token that continues after a page.
//!
//! A token is the decimal text of the number of rows to skip. An empty
//! token stands for none skipped.

use vstd::prelude::*;
use crate::errors::Error;

verus! {

/// Whether `c` is a decimal digit.
pub open spec fn is_digit(c: char) -> bool {
    c == '0' || c == '1' || c == '2' || c == '3' || c == '4' || c == '5' || c == '6' || c == '7'
        || c == '8' || c == '9'
}

/// The value of a decimal digit.
pub open spec fn digit_value(c: char) -> nat {
    if c == '1' {
        1
    } else if c == '2' {
        2
    } else if c == '3' {
        3
    } else if c == '4' {
        4
    } else if c == '5' {
        5
    } else if c == '6' {
        6
    } else if c == '7' {
        7
    } else if c == '8' {
        8
    } else if c == '9' {
        9
    } else {
        0
    }
}

/// The decimal digit of value `d`, for `d < 10`.
pub open spec fn digit_char(d: nat) -> char {
    if d == 1 {
        '1'
    } else if d == 2 {
        '2'
    } else if d == 3 {
        '3'
    } else if d == 4 {
        '4'
    } else if d == 5 {
        '5'
    } else if d == 6 {
        '6'
    } else if d == 7 {
        '7'
    } else if d == 8 {
        '8'
    } else if d == 9 {
        '9'
    } else {
        '0'
    }
}

/// Whether every character of `s` is a decimal digit.
pub open spec fn all_digits(s: Seq<char>) -> bool {
    forall|i: int| 0 <= i < s.len() ==> is_digit(#[trigger] s[i])
}

/// The number that the digits of `s` spell, most significant first.
pub open spec fn decimal_value(s: Seq<char>) -> nat
    decreases s.len(),
{
    if s.len() == 0 {
        0
    } else {
        10 * decimal_value(s.drop_last()) + digit_value(s.last())
    }
}

/// The decimal text of `n`, without leading zeros.
pub open spec fn decimal_text(n: nat) -> Seq<char>
    decreases n,
{
    if n < 10 {
        seq![digit_char(n)]
    } else {
        decimal_text(n / 10).push(digit_char(n % 10))
    }
}

/// The offset that a token stands for: none for a token that holds
/// anything but digits, or spells a number beyond 64 bits.
pub open spec fn token_offset(token: Seq<char>) -> Option<u64> {
    if all_digits(token) && decimal_value(token) <= u64::MAX {
        Some(decimal_value(token) as u64)
    } else {
        None
    }
}

/// The rows of `rows` that a request for `take` rows after `offset`
/// receives.
pub open spec fn page<T>(rows: Seq<T>, offset: nat, take: nat) -> Seq<T> {
    if offset >= rows.len() {
        Seq::empty()
    } else if offset + take >= rows.len() {
        rows.subrange(offset as int, rows.len() as int)
    } else {
        rows.subrange(offset as int, (offset + take) as int)
    }
}

/// The offset that continues after a page of `returned` rows that was
/// asked for with `take` after `offset`.
pub open spec fn next_offset(offset: nat, take: nat, returned: nat) -> nat {
    if returned < take {
        offset + returned
    } else {
        offset + take
    }
}

/// The token that continues after the page that a request for `take` rows
/// after `offset` receives.
pub open spec fn next_token<T>(rows: Seq<T>, offset: u64, take: u32) -> Seq<char> {
    decimal_text(next_offset(offset as nat, take as nat, page(rows, offset as nat, take as nat).len()))
}

/// A spelled number is at least the number that any of its prefixes spells.
pub proof fn lemma_prefix_value(s: Seq<char>, k: int)
    requires
        0 <= k <= s.len(),
    ensures
        decimal_value(s.subrange(0, k)) <= decimal_value(s),
    decreases s.len() - k,
{
    if k == s.len() {
        assert(s.subrange(0, k) =~= s);
    } else {
        lemma_prefix_value(s.drop_last(), k);
        assert(s.drop_last().subrange(0, k) =~= s.subrange(0, k));
    }
}

/// The text of a number holds digits only and spells that number.
pub proof fn lemma_decimal_text(n: nat)
    ensures
        all_digits(decimal_text(n)),
        decimal_value(decimal_text(n)) == n,
        decimal_text(n).len() >= 1,
    decreases n,
{
    if n < 10 {
        let t = decimal_text(n);
        assert(t.drop_last() =~= Seq::<char>::empty());
        assert(decimal_value(t.drop_last()) == 0);
    } else {
        lemma_decimal_text(n / 10);
        let t = decimal_text(n);
        assert(t.drop_last() =~= decimal_text(n / 10));
        assert(t.last() == digit_char(n % 10));
    }
}

/// A token that was made from an offset stands for that offset.
pub proof fn lemma_token_round_trip(offset: u64)
    ensures
        token_offset(decimal_text(offset as nat)) == Some(offset),
{
    lemma_decimal_text(offset as nat);
}

/// The page that a request receives holds at most `take` rows, and never
/// reaches past the end of the rows.
pub proof fn lemma_page_len<T>(rows: Seq<T>, offset: nat, take: nat)
    ensures
        page(rows, offset, take).len() <= take,
        offset + page(rows, offset, take).len() <= if offset >= rows.len() {
            offset
        } else {
            rows.len()
        },
        page(rows, offset, take).len() < take ==> next_offset(
            offset,
            take,
            page(rows, offset, take).len(),
        ) >= rows.len(),
{
}

/// Following the tokens walks the rows without gap or overlap: a page and
/// the page that its token continues with are together the page of twice
/// the size.
pub proof fn lemma_pages_contiguous<T>(rows: Seq<T>, offset: nat, take: nat)
    ensures
        page(rows, offset, take) + page(
            rows,
            next_offset(offset, take, page(rows, offset, take).len()),
            take,
        ) == page(rows, offset, 2 * take),
{
    let first = page(rows, offset, take);
    let next = next_offset(offset, take, first.len());
    assert(first + page(rows, next, take) =~= page(rows, offset, 2 * take));
}

/// Once a page comes back short, the walk has ended: its token selects the
/// empty page, and the token after that is the same token.
pub proof fn lemma_short_page_is_last<T>(rows: Seq<T>, offset: nat, take: nat)
    requires
        page(rows, offset, take).len() < take,
    ensures
        page(rows, next_offset(offset, take, page(rows, offset, take).len()), take).len() == 0,
        next_offset(next_offset(offset, take, page(rows, offset, take).len()), take, 0)
            == next_offset(offset, take, page(rows, offset, take).len()),
{
}

/// Walking a listing by its tokens, with no write in between: the token
/// that comes with a page is read back as the offset just behind that
/// page, so that the next page starts where this one ended, without gap
/// or overlap. Once a page comes back short, every further page is empty
/// and every further token is the same.
pub proof fn lemma_token_continues<T>(rows: Seq<T>, offset: u64, take: u32)
    requires
        rows.len() <= u64::MAX,
    ensures
        token_offset(next_token(rows, offset, take)) is Some,
        ({
            let next = token_offset(next_token(rows, offset, take))->Some_0;
            let first = page(rows, offset as nat, take as nat);
            &&& next == offset + first.len()
            &&& first + page(rows, next as nat, take as nat) == page(
                rows,
                offset as nat,
                2 * (take as nat),
            )
            &&& first.len() < take ==> {
                &&& page(rows, next as nat, take as nat).len() == 0
                &&& next_token(rows, next, take) == next_token(rows, offset, take)
            }
        }),
{
    let first = page(rows, offset as nat, take as nat);
    let next = next_offset(offset as nat, take as nat, first.len());
    lemma_page_len(rows, offset as nat, take as nat);
    lemma_token_round_trip(next as u64);
    lemma_pages_contiguous(rows, offset as nat, take as nat);
    if first.len() < take {
        lemma_short_page_is_last(rows, offset as nat, take as nat);
    }
}

/// The value of `c`, if it is a decimal digit.
fn digit_of(c: char) -> (r: Option<u64>)
    ensures
        match r {
            Some(d) => is_digit(c) && d == digit_value(c),
            None => !is_digit(c),
        },
{
    match c {
        '0' => Some(0),
        '1' => Some(1),
        '2' => Some(2),
        '3' => Some(3),
        '4' => Some(4),
        '5' => Some(5),
        '6' => Some(6),
        '7' => Some(7),
        '8' => Some(8),
        '9' => Some(9),
        _ => None,
    }
}

/// The text of a digit.
fn digit_text(d: u64) -> (s: &'static str)
    requires
        d < 10,
    ensures
        s@ == seq![digit_char(d as nat)],
{
    proof {
        reveal_strlit("0");
        reveal_strlit("1");
        reveal_strlit("2");
        reveal_strlit("3");
        reveal_strlit("4");
        reveal_strlit("5");
        reveal_strlit("6");
        reveal_strlit("7");
        reveal_strlit("8");
        reveal_strlit("9");
    }
    let s = if d == 0 {
        "0"
    } else if d == 1 {
        "1"
    } else if d == 2 {
        "2"
    } else if d == 3 {
        "3"
    } else if d == 4 {
        "4"
    } else if d == 5 {
        "5"
    } else if d == 6 {
        "6"
    } else if d == 7 {
        "7"
    } else if d == 8 {
        "8"
    } else {
        "9"
    };
    assert(s@ =~= seq![digit_char(d as nat)]);
    s
}

/// Reads the offset from a continuation token. A token that stands for no
/// offset is refused as invalid input.
pub fn parse_token(token: &str) -> (r: Result<u64, Error>)
    ensures
        match token_offset(token@) {
            Some(offset) => r == Ok::<u64, Error>(offset),
            None => r is Err && r->Err_0 is InvalidInput,
        },
{
    let n = token.unicode_len();
    let mut value: u64 = 0;
    let mut i: usize = 0;
    while i < n
        invariant
            n == token@.len(),
            i <= n,
            all_digits(token@.subrange(0, i as int)),
            value == decimal_value(token@.subrange(0, i as int)),
        decreases n - i,
    {
        let c = token.get_char(i);
        let ghost before = token@.subrange(0, i as int);
        let ghost upto = token@.subrange(0, i + 1);
        proof {
            assert(upto.drop_last() =~= before);
            assert(upto.last() == c);
        }
        match digit_of(c) {
            None => {
                assert(!all_digits(token@)) by {
                    assert(token@[i as int] == c);
                }
                return Err(Error::invalid_input("continuation token is not a number"));
            },
            Some(d) => {
                if value > (u64::MAX - d) / 10 {
                    proof {
                        assert(decimal_value(upto) > u64::MAX);
                        lemma_prefix_value(token@, i + 1);
                    }
                    return Err(Error::invalid_input("continuation token is out of range"));
                }
                value = value * 10 + d;
                proof {
                    assert forall|k: int| 0 <= k < upto.len() implies is_digit(
                        #[trigger] upto[k],
                    ) by {
                        if k < i {
                            assert(before[k] == upto[k]);
                        }
                    }
                }
            },
        }
        i = i + 1;
    }
    assert(token@.subrange(0, i as int) =~= token@);
    Ok(value)
}

/// Writes an offset as a continuation token.
pub fn format_token(offset: u64) -> (token: String)
    ensures
        token@ == decimal_text(offset as nat),
    decreases offset,
{
    if offset < 10 {
        digit_text(offset).to_owned()
    } else {
        let head = format_token(offset / 10);
        let token = head.concat(digit_text(offset % 10));
        assert(token@ =~= decimal_text(offset as nat));
        token
    }
}

/// The places in a listing of `len` rows between which the page lies
/// that a request for `take` rows after `offset` receives.
pub fn page_range(len: usize, offset: u64, take: u32) -> (range: (usize, usize))
    ensures
        range.0 <= range.1 <= len,
        range.0 == if offset >= len {
            len as int
        } else {
            offset as int
        },
        range.1 == if offset + take >= len {
            len as int
        } else {
            offset + take
        },
{
    if offset >= len as u64 {
        (len, len)
    } else {
        let start = offset as usize;
        let room = len - start;
        if take as u64 >= room as u64 {
            (start, len)
        } else {
            (start, start + take as usize)
        }
    }
}

/// The offset that continues after a page of `returned` rows: the number
/// of rows actually returned is added, never more than `take`.
pub fn advance(offset: u64, take: u32, returned: usize) -> (next: u64)
    requires
        next_offset(offset as nat, take as nat, returned as nat) <= u64::MAX,
    ensures
        next == next_offset(offset as nat, take as nat, returned as nat),
{
    if returned < take as usize {
        offset + returned as u64
    } else {
        offset + take as u64
    }
}

} // verus!
