//! Digests of strings and offsets, and how a digest is written.

use std::collections::hash_map::DefaultHasher;
use std::hash::Hasher;
use vstd::bytes::{u32_to_le_bytes, u64_to_le_bytes};
use vstd::prelude::*;

verus! {

/// What a string feeds to a hasher: its UTF-8 bytes, and a byte that no UTF-8
/// text holds.
pub open spec fn str_feed(s: Seq<char>) -> Seq<Seq<u8>> {
    seq![vstd::utf8::encode_utf8(s), seq![0xffu8]]
}

/// The digest of what was fed to a fresh hasher.
pub open spec fn digest(feed: Seq<Seq<u8>>) -> u64 {
    <DefaultHasher as vstd::std_specs::hash::DefaultHasherAdditionalSpecFns>::spec_finish(feed)
}

/// Feeds one byte to `hasher`, as `Hash` for `u8` does.
pub fn feed_byte(byte: u8, hasher: &mut DefaultHasher)
    ensures
        final(hasher)@ == old(hasher)@.push(seq![byte]),
{
    let bytes = [byte];
    hasher.write(bytes.as_slice());
    assert(bytes@ =~= seq![byte]);
}

/// Feeds `s` to `hasher`, as `Hash` for `str` does.
pub fn feed_str(s: &str, hasher: &mut DefaultHasher)
    ensures
        final(hasher)@ == old(hasher)@ + str_feed(s@),
{
    hasher.write(s.as_bytes());
    feed_byte(0xff, hasher);
    assert(hasher@ =~= old(hasher)@ + str_feed(s@));
}

/// In which order a machine keeps the bytes of a number: the least significant first, or the
/// most significant.
#[derive(Debug, Clone, Copy, PartialEq, Eq, Structural)]
pub enum ByteOrder {
    Little,
    Big,
}

/// The bytes of an offset, the least significant first: eight, or four where offsets have 32
/// bits.
pub open spec fn offset_le_bytes(offset: usize) -> Seq<u8> {
    if usize::BITS == 64 {
        vstd::bytes::spec_u64_to_le_bytes(offset as u64)
    } else {
        vstd::bytes::spec_u32_to_le_bytes(offset as u32)
    }
}

/// The bytes of an offset, as a machine keeps them.
pub open spec fn offset_bytes(offset: usize, order: ByteOrder) -> Seq<u8> {
    match order {
        ByteOrder::Little => offset_le_bytes(offset),
        ByteOrder::Big => offset_le_bytes(offset).reverse(),
    }
}

/// Feeds `offset` to `hasher`, as `Hash` for `usize` does on a machine with the byte order
/// `order`.
pub fn feed_offset(offset: usize, order: ByteOrder, hasher: &mut DefaultHasher)
    ensures
        final(hasher)@ == old(hasher)@.push(offset_bytes(offset, order)),
{
    let little: Vec<u8> = if usize::BITS == 64 {
        u64_to_le_bytes(offset as u64)
    } else {
        u32_to_le_bytes(offset as u32)
    };
    match order {
        ByteOrder::Little => hasher.write(little.as_slice()),
        ByteOrder::Big => {
            let mut bytes: Vec<u8> = Vec::new();
            let mut left: usize = little.len();
            while left > 0
                invariant
                    left <= little@.len(),
                    bytes@ == little@.reverse().take(little@.len() - left),
                decreases left,
            {
                left -= 1;
                bytes.push(little[left]);
                assert(little@.reverse()[little@.len() - 1 - left] == little@[left as int]);
            }
            assert(bytes@ =~= little@.reverse());
            hasher.write(bytes.as_slice());
        },
    }
}

/// The bytes of an offset determine the offset.
pub proof fn law_offset_bytes_injective(a: usize, b: usize, order: ByteOrder)
    requires
        offset_bytes(a, order) == offset_bytes(b, order),
    ensures
        a == b,
{
    let x = offset_le_bytes(a);
    let y = offset_le_bytes(b);
    assert(x == y) by {
        assert(x.reverse().reverse() =~= x);
        assert(y.reverse().reverse() =~= y);
    }
    vstd::bytes::lemma_auto_spec_u64_to_from_le_bytes();
    vstd::bytes::lemma_auto_spec_u32_to_from_le_bytes();
    vstd::layout::unsigned_int_max_values();
    vstd::arithmetic::power2::lemma2_to64();
    if usize::BITS == 64 {
        assert(vstd::bytes::spec_u64_from_le_bytes(x) == a as u64);
        assert(vstd::bytes::spec_u64_from_le_bytes(y) == b as u64);
    } else {
        assert(usize::BITS == 32);
        assert(usize::MAX == u32::MAX);
        assert(vstd::bytes::spec_u32_to_le_bytes(a as u32).len() == 4);
        assert(vstd::bytes::spec_u32_to_le_bytes(b as u32).len() == 4);
    }
}

/// The lower-case hexadecimal digit for `d`.
pub open spec fn hex_digit(d: int) -> char {
    if d < 10 {
        ('0' as u32 + d) as char
    } else {
        ('a' as u32 + d - 10) as char
    }
}

/// The last `count` hexadecimal digits of `n`, the most significant first.
pub open spec fn hex_digits(n: int, count: nat) -> Seq<char>
    decreases count,
{
    if count == 0 {
        seq![]
    } else {
        hex_digits(n / 16, (count - 1) as nat).push(hex_digit(n % 16))
    }
}

/// The lower-case hexadecimal digit for `d`, as a string.
fn hex_digit_str(d: u64) -> (r: &'static str)
    requires
        d < 16,
    ensures
        r@ == seq![hex_digit(d as int)],
{
    proof {
        reveal_strlit("0");
        reveal_strlit("1");
        reveal_strlit("2");
        reveal_strlit("3");
        reveal_strlit("4");
        reveal_strlit("5");
        reveal_strlit("6");
        reveal_strlit("7");
        reveal_strlit("8");
        reveal_strlit("9");
        reveal_strlit("a");
        reveal_strlit("b");
        reveal_strlit("c");
        reveal_strlit("d");
        reveal_strlit("e");
        reveal_strlit("f");
    }
    match d {
        0 => "0",
        1 => "1",
        2 => "2",
        3 => "3",
        4 => "4",
        5 => "5",
        6 => "6",
        7 => "7",
        8 => "8",
        9 => "9",
        10 => "a",
        11 => "b",
        12 => "c",
        13 => "d",
        14 => "e",
        _ => "f",
    }
}

/// `n` in sixteen lower-case hexadecimal digits.
pub fn hex16(n: u64) -> (r: String)
    ensures
        r@ == hex_digits(n as int, 16),
{
    let mut rest: u64 = n;
    let mut written: usize = 0;
    let mut text = String::new();
    while written < 16
        invariant
            written <= 16,
            hex_digits(n as int, 16) =~= hex_digits(rest as int, (16 - written) as nat) + text@,
        decreases 16 - written,
    {
        let ghost before = text@;
        let mut next = String::from_str(hex_digit_str(rest % 16));
        next.append(text.as_str());
        text = next;
        proof {
            let left = (15 - written) as nat;
            assert(hex_digits(rest as int, left + 1) + before =~= hex_digits(rest as int / 16, left)
                + (seq![hex_digit(rest as int % 16)] + before));
        }
        rest = rest / 16;
        written += 1;
    }
    text
}

/// The digest of a fragment of source text.
pub open spec fn fragment_digest(fragment: Seq<char>) -> u64 {
    digest(str_feed(fragment))
}

/// The digest of `fragment`, in sixteen lower-case hexadecimal digits.
pub fn fragment_hash(fragment: &str) -> (r: String)
    ensures
        r@ == hex_digits(fragment_digest(fragment@) as int, 16),
{
    let mut hasher = DefaultHasher::new();
    feed_str(fragment, &mut hasher);
    assert(hasher@ =~= str_feed(fragment@));
    hex16(hasher.finish())
}

/// Sixteen to the power `count`.
pub open spec fn hex_range(count: nat) -> int
    decreases count,
{
    if count == 0 {
        1
    } else {
        16 * hex_range((count - 1) as nat)
    }
}

/// `count` digits are written, whatever the number.
pub proof fn law_hex_digits_len(n: int, count: nat)
    ensures
        hex_digits(n, count).len() == count,
    decreases count,
{
    if count > 0 {
        law_hex_digits_len(n / 16, (count - 1) as nat);
    }
}

/// Only digits are written, and the letters from `a` to `f`.
pub proof fn law_hex_digits_are_digits(n: int, count: nat, i: int)
    requires
        0 <= n,
        0 <= i < count,
    ensures
        '0' <= hex_digits(n, count)[i] <= '9' || 'a' <= hex_digits(n, count)[i] <= 'f',
    decreases count,
{
    law_hex_digits_len(n / 16, (count - 1) as nat);
    if i < count - 1 {
        law_hex_digits_are_digits(n / 16, (count - 1) as nat, i);
    }
}

/// Two numbers that fit in `count` digits are written alike only if they are equal.
pub proof fn law_hex_digits_injective(a: int, b: int, count: nat)
    requires
        0 <= a < hex_range(count),
        0 <= b < hex_range(count),
        hex_digits(a, count) == hex_digits(b, count),
    ensures
        a == b,
    decreases count,
{
    if count > 0 {
        let less = (count - 1) as nat;
        law_hex_digits_len(a / 16, less);
        law_hex_digits_len(b / 16, less);
        let x = hex_digits(a / 16, less).push(hex_digit(a % 16));
        let y = hex_digits(b / 16, less).push(hex_digit(b % 16));
        assert(x[less as int] == y[less as int]);
        assert(x.drop_last() =~= hex_digits(a / 16, less));
        assert(y.drop_last() =~= hex_digits(b / 16, less));
        law_hex_digits_injective(a / 16, b / 16, less);
    }
}

/// Two fragments have the same hash exactly if they have the same digest.
pub proof fn law_fragment_hash_is_digest(a: Seq<char>, b: Seq<char>)
    ensures
        hex_digits(fragment_digest(a) as int, 16) == hex_digits(fragment_digest(b) as int, 16)
            <==> fragment_digest(a) == fragment_digest(b),
{
    reveal_with_fuel(hex_range, 17);
    if hex_digits(fragment_digest(a) as int, 16) == hex_digits(fragment_digest(b) as int, 16) {
        law_hex_digits_injective(fragment_digest(a) as int, fragment_digest(b) as int, 16);
    }
}

/// What a string feeds to a hasher determines the string, however long it is.
pub proof fn law_str_feed_injective(a: Seq<char>, b: Seq<char>)
    requires
        str_feed(a) == str_feed(b),
    ensures
        a == b,
{
    assert(str_feed(a)[0] == vstd::utf8::encode_utf8(a));
    assert(str_feed(b)[0] == vstd::utf8::encode_utf8(b));
    vstd::utf8::encode_utf8_decode_utf8(a);
    vstd::utf8::encode_utf8_decode_utf8(b);
}

/// The digest of a fragment is that of its UTF-8 bytes and the byte 0xff behind them.
pub proof fn law_fragment_digest(fragment: Seq<char>)
    ensures
        fragment_digest(fragment) == digest(
            seq![vstd::utf8::encode_utf8(fragment), seq![0xffu8]],
        ),
{
}

/// The number that hexadecimal digits stand for.
pub open spec fn hex_value(s: Seq<char>) -> int
    decreases s.len(),
{
    if s.len() == 0 {
        0
    } else {
        let c = s.last() as int;
        16 * hex_value(s.drop_last()) + (if c <= 57 {
            c - 48
        } else {
            c - 87
        })
    }
}

/// A number that is written in hexadecimal digits can be read back.
pub proof fn law_hex_digits_read_back(n: int, count: nat)
    requires
        0 <= n < hex_range(count),
    ensures
        hex_value(hex_digits(n, count)) == n,
    decreases count,
{
    if count > 0 {
        law_hex_digits_read_back(n / 16, (count - 1) as nat);
        let s = hex_digits(n, count);
        assert(s.drop_last() =~= hex_digits(n / 16, (count - 1) as nat));
        assert(s.last() == hex_digit(n % 16));
    }
}

} // verus!
