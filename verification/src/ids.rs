//! Identifier types shared by every component.

use vstd::prelude::*;
use vstd::string::StrSliceExecFns;

verus! {

/// Identifies one synchronising replica.
#[derive(Clone, Copy, Debug, PartialEq, Eq, Structural)]
pub struct ClientId(pub u128);

/// Identifies a node.
#[derive(Clone, Copy, Debug, PartialEq, Eq, Structural)]
pub struct NodeId(pub u128);

/// Identifies a tag.
#[derive(Clone, Copy, Debug, PartialEq, Eq, Structural)]
pub struct TagId(pub u128);

/// Identifies one event: the replica that issued it and its place in that
/// replica's sequence. Sequence numbers start at 1.
#[derive(Clone, Copy, Debug, PartialEq, Eq, Structural)]
pub struct EventId {
    pub client: ClientId,
    pub seq: u64,
}

impl EventId {
    pub fn new(client: ClientId, seq: u64) -> (id: EventId)
        ensures
            id.client == client,
            id.seq == seq,
    {
        EventId { client, seq }
    }
}

/// The value of a hexadecimal digit, either case.
pub open spec fn hex_value(c: char) -> Option<u8> {
    if c == '0' {
        Some(0u8)
    } else     if c == '1' {
        Some(1u8)
    } else     if c == '2' {
        Some(2u8)
    } else     if c == '3' {
        Some(3u8)
    } else     if c == '4' {
        Some(4u8)
    } else     if c == '5' {
        Some(5u8)
    } else     if c == '6' {
        Some(6u8)
    } else     if c == '7' {
        Some(7u8)
    } else     if c == '8' {
        Some(8u8)
    } else     if c == '9' {
        Some(9u8)
    } else if c == 'a' || c == 'A' {
        Some(10u8)
    } else if c == 'b' || c == 'B' {
        Some(11u8)
    } else if c == 'c' || c == 'C' {
        Some(12u8)
    } else if c == 'd' || c == 'D' {
        Some(13u8)
    } else if c == 'e' || c == 'E' {
        Some(14u8)
    } else if c == 'f' || c == 'F' {
        Some(15u8)
    } else {
        None
    }
}

/// The number that hexadecimal digits spell, most significant first: each
/// digit moves what came before four bits up. Nothing where a character is
/// no hexadecimal digit.
pub open spec fn hex_number(digits: Seq<char>) -> Option<u128>
    decreases digits.len(),
{
    if digits.len() == 0 {
        Some(0)
    } else {
        match (hex_number(digits.drop_last()), hex_value(digits.last())) {
            (Some(n), Some(d)) => Some((n << 4) | (d as u128)),
            _ => None,
        }
    }
}

/// The 32 digits of an identifier written as text: the text itself where it
/// is 32 characters long, and the text without its four hyphens where it is
/// 36 characters long with hyphens after the 8th, 12th, 16th and 20th digit.
pub open spec fn id_digits(text: Seq<char>) -> Option<Seq<char>> {
    if text.len() == 32 {
        Some(text)
    } else if text.len() == 36 && text[8] == '-' && text[13] == '-' && text[18] == '-' && text[23]
        == '-' {
        Some(
            text.subrange(0, 8) + text.subrange(9, 13) + text.subrange(14, 18) + text.subrange(
                19,
                23,
            ) + text.subrange(24, 36),
        )
    } else {
        None
    }
}

/// The identifier that `text` spells.
pub open spec fn parse_id(text: Seq<char>) -> Option<u128> {
    match id_digits(text) {
        Some(digits) => hex_number(digits),
        None => None,
    }
}

/// The value of the hexadecimal digit `c`.
pub fn hex_digit_value(c: char) -> (r: Option<u8>)
    ensures
        r == hex_value(c),
{
    if c == '0' {
        Some(0u8)
    } else     if c == '1' {
        Some(1u8)
    } else     if c == '2' {
        Some(2u8)
    } else     if c == '3' {
        Some(3u8)
    } else     if c == '4' {
        Some(4u8)
    } else     if c == '5' {
        Some(5u8)
    } else     if c == '6' {
        Some(6u8)
    } else     if c == '7' {
        Some(7u8)
    } else     if c == '8' {
        Some(8u8)
    } else     if c == '9' {
        Some(9u8)
    } else if c == 'a' || c == 'A' {
        Some(10u8)
    } else if c == 'b' || c == 'B' {
        Some(11u8)
    } else if c == 'c' || c == 'C' {
        Some(12u8)
    } else if c == 'd' || c == 'D' {
        Some(13u8)
    } else if c == 'e' || c == 'E' {
        Some(14u8)
    } else if c == 'f' || c == 'F' {
        Some(15u8)
    } else {
        None
    }
}

/// Reads an identifier from text: 32 hexadecimal digits, bare or grouped
/// 8-4-4-4-12 by hyphens.
pub fn parse_id_text(text: &str) -> (r: Option<u128>)
    ensures
        r == parse_id(text@),
{
    let len = text.unicode_len();
    if len != 32 && len != 36 {
        return None;
    }
    if len == 36 {
        if text.get_char(8) != '-' || text.get_char(13) != '-' || text.get_char(18) != '-'
            || text.get_char(23) != '-' {
            return None;
        }
    }
    let ghost digits = id_digits(text@)->Some_0;
    let mut n: u128 = 0;
    let mut i: usize = 0;
    let ghost mut taken: Seq<char> = Seq::empty();
    while i < len
        invariant
            len == text@.len(),
            len == 32 || len == 36,
            id_digits(text@) == Some(digits),
            i <= len,
            taken.len() <= digits.len(),
            taken == digits.take(taken.len() as int),
            taken.len() == if len == 32 {
                i as int
            } else if i <= 8 {
                i as int
            } else if i <= 13 {
                i - 1
            } else if i <= 18 {
                i - 2
            } else if i <= 23 {
                i - 3
            } else {
                i - 4
            },
            hex_number(taken) == Some(n),
        decreases len - i,
    {
        if len == 36 && (i == 8 || i == 13 || i == 18 || i == 23) {
            i += 1;
        } else {
            let c = text.get_char(i);
            let ghost next = taken.push(c);
            proof {
                assert(digits[taken.len() as int] == c);
                assert(next =~= digits.take(taken.len() as int + 1));
                assert(next.drop_last() =~= taken);
            }
            match hex_digit_value(c) {
                None => {
                    proof {
                        lemma_hex_number_fails(digits, next.len() as int);
                    }
                    return None;
                },
                Some(d) => {
                    n = (n << 4) | (d as u128);
                },
            }
            proof {
                taken = next;
            }
            i += 1;
        }
    }
    assert(taken =~= digits);
    Some(n)
}

/// Digits that start with something that is no number are no number.
pub proof fn lemma_hex_number_fails(digits: Seq<char>, n: int)
    requires
        0 <= n <= digits.len(),
        hex_number(digits.take(n)) is None,
    ensures
        hex_number(digits) is None,
    decreases digits.len() - n,
{
    if n < digits.len() {
        assert(digits.take(n + 1).drop_last() =~= digits.take(n));
        lemma_hex_number_fails(digits, n + 1);
    } else {
        assert(digits.take(n) =~= digits);
    }
}

impl ClientId {
    /// Reads a replica's id from text.
    pub fn parse_str(text: &str) -> (r: Option<ClientId>)
        ensures
            r == match parse_id(text@) {
                Some(n) => Some(ClientId(n)),
                None => None,
            },
    {
        match parse_id_text(text) {
            Some(n) => Some(ClientId(n)),
            None => None,
        }
    }
}

/// The number that decimal digits spell, most significant first. Nothing
/// where a character is no decimal digit.
pub open spec fn decimal_number(digits: Seq<char>) -> Option<nat>
    decreases digits.len(),
{
    if digits.len() == 0 {
        Some(0)
    } else {
        match (decimal_number(digits.drop_last()), hex_value(digits.last())) {
            (Some(n), Some(d)) => if d < 10 {
                Some((n * 10 + d) as nat)
            } else {
                None
            },
            _ => None,
        }
    }
}

/// The time that `text` spells: one or more decimal digits whose number
/// fits in 64 bits.
pub open spec fn parse_decimal(text: Seq<char>) -> Option<u64> {
    if text.len() == 0 {
        None
    } else {
        match decimal_number(text) {
            Some(n) => if n <= u64::MAX {
                Some(n as u64)
            } else {
                None
            },
            None => None,
        }
    }
}

/// Digits that start with something that is no number, or with a number
/// that is too large, are no number that fits.
proof fn lemma_decimal_grows(digits: Seq<char>, n: int)
    requires
        0 <= n <= digits.len(),
    ensures
        decimal_number(digits.take(n)) is None ==> decimal_number(digits) is None,
        decimal_number(digits) matches Some(v) ==> decimal_number(digits.take(n)) matches Some(p)
            && p <= v,
    decreases digits.len() - n,
{
    if n < digits.len() {
        assert(digits.take(n + 1).drop_last() =~= digits.take(n));
        lemma_decimal_grows(digits, n + 1);
    } else {
        assert(digits.take(n) =~= digits);
    }
}

/// Reads a time from text: one or more decimal digits whose number fits in
/// 64 bits.
pub fn parse_time(text: &str) -> (r: Option<u64>)
    ensures
        r == parse_decimal(text@),
{
    let len = text.unicode_len();
    if len == 0 {
        return None;
    }
    let mut n: u64 = 0;
    let mut i: usize = 0;
    assert(text@.take(0) =~= Seq::<char>::empty());
    while i < len
        invariant
            len == text@.len(),
            i <= len,
            decimal_number(text@.take(i as int)) == Some(n as nat),
        decreases len - i,
    {
        let c = text.get_char(i);
        proof {
            assert(text@.take(i + 1).drop_last() =~= text@.take(i as int));
            assert(text@.take(i + 1).last() == c);
            lemma_decimal_grows(text@, i + 1);
        }
        match hex_digit_value(c) {
            Some(d) => {
                if d >= 10 {
                    return None;
                }
                if n > (u64::MAX - d as u64) / 10 {
                    return None;
                }
                n = n * 10 + d as u64;
            },
            None => {
                return None;
            },
        }
        i += 1;
    }
    assert(text@.take(i as int) =~= text@);
    Some(n)
}

} // verus!
