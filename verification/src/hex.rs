//! Field elements as text: `0x` and the hexadecimal digits of the 32 bytes,
//! in lower case, either all 64 of them or without the zeros in front.

use vstd::prelude::*;
use crate::felt::Felt;

verus! {

/// The hexadecimal digit of a number below 16.
pub open spec fn hex_char(nibble: u8) -> char {
    match nibble {
        0 => '0',
        1 => '1',
        2 => '2',
        3 => '3',
        4 => '4',
        5 => '5',
        6 => '6',
        7 => '7',
        8 => '8',
        9 => '9',
        10 => 'a',
        11 => 'b',
        12 => 'c',
        13 => 'd',
        14 => 'e',
        _ => 'f',
    }
}

/// The half bytes of a byte string, the high half of each byte first.
pub open spec fn nibbles_of(bytes: Seq<u8>) -> Seq<u8> {
    Seq::new(
        2 * bytes.len(),
        |i: int|
            if i % 2 == 0 {
                (bytes[i / 2] / 16) as u8
            } else {
                (bytes[i / 2] % 16) as u8
            },
    )
}

/// The digits of a sequence of half bytes.
pub open spec fn hex_text(nibbles: Seq<u8>) -> Seq<char> {
    nibbles.map_values(|nibble: u8| hex_char(nibble))
}

/// How many zeros stand at the front of the sequence.
pub open spec fn leading_zeros(nibbles: Seq<u8>) -> nat
    decreases nibbles.len(),
{
    if nibbles.len() > 0 && nibbles[0] == 0 {
        1 + leading_zeros(nibbles.drop_first())
    } else {
        0
    }
}

/// The text of an element with all its 64 digits.
pub open spec fn full_hex(bytes: Seq<u8>) -> Seq<char> {
    seq!['0', 'x'] + hex_text(nibbles_of(bytes))
}

/// The text of an element without the zeros in front. Zero itself is `0x`.
pub open spec fn short_hex(bytes: Seq<u8>) -> Seq<char> {
    seq!['0', 'x'] + hex_text(
        nibbles_of(bytes).skip(leading_zeros(nibbles_of(bytes)) as int),
    )
}

/// There are no more zeros in front than there are half bytes.
pub proof fn lemma_leading_zeros(nibbles: Seq<u8>)
    ensures
        leading_zeros(nibbles) <= nibbles.len(),
        forall|i: int| 0 <= i < leading_zeros(nibbles) ==> nibbles[i] == 0,
        leading_zeros(nibbles) < nibbles.len() ==> nibbles[leading_zeros(nibbles) as int] != 0,
    decreases nibbles.len(),
{
    if nibbles.len() > 0 && nibbles[0] == 0 {
        let rest = nibbles.drop_first();
        lemma_leading_zeros(rest);
        assert forall|i: int| 0 <= i < leading_zeros(nibbles) implies nibbles[i] == 0 by {
            if i > 0 {
                assert(rest[i - 1] == nibbles[i]);
            }
        }
        if leading_zeros(nibbles) < nibbles.len() {
            assert(rest[leading_zeros(rest) as int] == nibbles[leading_zeros(nibbles) as int]);
        }
    }
}

/// The digit of a number below 16, as text.
fn hex_digit(nibble: u8) -> (digit: &'static str)
    requires
        nibble < 16,
    ensures
        digit@ == seq![hex_char(nibble)],
{
    proof {
        reveal_strlit("0");
        reveal_strlit("1");
        reveal_strlit("2");
        reveal_strlit("3");
        reveal_strlit("4");
        reveal_strlit("5");
        reveal_strlit("6");
        reveal_strlit("7");
        reveal_strlit("8");
        reveal_strlit("9");
        reveal_strlit("a");
        reveal_strlit("b");
        reveal_strlit("c");
        reveal_strlit("d");
        reveal_strlit("e");
        reveal_strlit("f");
    }
    let digit = match nibble {
        0 => "0",
        1 => "1",
        2 => "2",
        3 => "3",
        4 => "4",
        5 => "5",
        6 => "6",
        7 => "7",
        8 => "8",
        9 => "9",
        10 => "a",
        11 => "b",
        12 => "c",
        13 => "d",
        14 => "e",
        _ => "f",
    };
    assert(digit@ =~= seq![hex_char(nibble)]);
    digit
}

/// The half bytes of an element.
fn nibbles(value: &Felt) -> (halves: Vec<u8>)
    ensures
        halves@ == nibbles_of(value@),
        halves@.len() == 64,
        forall|i: int| 0 <= i < 64 ==> halves@[i] < 16,
{
    let bytes = value.to_bytes_be();
    let mut halves: Vec<u8> = Vec::new();
    let mut i: usize = 0;
    while i < 32
        invariant
            i <= 32,
            bytes@ == value@,
            bytes@.len() == 32,
            halves@.len() == 2 * i,
            forall|j: int| 0 <= j < 2 * i ==> halves@[j] == nibbles_of(bytes@)[j],
            forall|j: int| 0 <= j < 2 * i ==> halves@[j] < 16,
        decreases 32 - i,
    {
        halves.push(bytes[i] / 16);
        halves.push(bytes[i] % 16);
        i += 1;
    }
    assert(halves@ =~= nibbles_of(value@));
    halves
}

/// `0x` and the digits of the half bytes from position `from` on.
fn hex_from(halves: &Vec<u8>, from: usize) -> (text: String)
    requires
        from <= halves@.len(),
        forall|i: int| 0 <= i < halves@.len() ==> halves@[i] < 16,
    ensures
        text@ == seq!['0', 'x'] + hex_text(halves@.skip(from as int)),
{
    proof {
        reveal_strlit("0x");
    }
    let mut text = String::from_str("0x");
    assert(text@ =~= seq!['0', 'x']);
    let mut i: usize = from;
    while i < halves.len()
        invariant
            from <= i <= halves@.len(),
            forall|j: int| 0 <= j < halves@.len() ==> halves@[j] < 16,
            text@ == seq!['0', 'x'] + hex_text(halves@.subrange(from as int, i as int)),
        decreases halves@.len() - i,
    {
        text.append(hex_digit(halves[i]));
        assert(hex_text(halves@.subrange(from as int, i + 1)) =~= hex_text(
            halves@.subrange(from as int, i as int),
        ).push(hex_char(halves@[i as int])));
        i += 1;
    }
    assert(halves@.subrange(from as int, halves@.len() as int) =~= halves@.skip(from as int));
    text
}

/// The text of an element with all its 64 digits.
pub fn to_hex(value: &Felt) -> (text: String)
    ensures
        text@ == full_hex(value@),
        text@.len() == 66,
{
    let halves = nibbles(value);
    assert(halves@.skip(0) =~= halves@);
    hex_from(&halves, 0)
}

/// The text of an element without the zeros in front: `0x` alone for zero.
pub fn to_short_hex(value: &Felt) -> (text: String)
    ensures
        text@ == short_hex(value@),
{
    let halves = nibbles(value);
    let mut from: usize = 0;
    assert(halves@.skip(0) =~= halves@);
    while from < halves.len() && halves[from] == 0
        invariant
            from <= halves@.len(),
            leading_zeros(halves@) == from + leading_zeros(halves@.skip(from as int)),
        decreases halves@.len() - from,
    {
        assert(halves@.skip(from as int).drop_first() =~= halves@.skip(from + 1));
        from += 1;
    }
    hex_from(&halves, from)
}

} // verus!
