//! Fixed-offset integer decoding from raw byte blocks.
//!
//! Binary headers are read as little- or big-endian words at fixed byte
//! offsets. The mathematical model of a word is `be_word`, the value of a
//! byte sequence read most-significant-byte first; a little-endian read is
//! the big-endian value of the reversed bytes.

use vstd::arithmetic::power::{lemma_pow1, lemma_pow_adds, lemma_pow_positive, pow};
use vstd::prelude::*;

verus! {

/// Value of a byte sequence interpreted most-significant-byte first.
pub open spec fn be_word(s: Seq<u8>) -> nat
    decreases s.len(),
{
    if s.len() == 0 {
        0nat
    } else {
        (256 * be_word(s.drop_last()) + s.last()) as nat
    }
}

/// Value of the `n` bytes of `data` starting at `off`, read with the given
/// endianness.
pub open spec fn word_at(data: Seq<u8>, off: int, n: int, little_endian: bool) -> nat {
    let bytes = data.subrange(off, off + n);
    if little_endian {
        be_word(bytes.reverse())
    } else {
        be_word(bytes)
    }
}

/// Concrete powers of 256 used to bound decoded words.
pub proof fn lemma_pow256_values()
    ensures
        pow(256, 1) == 0x100,
        pow(256, 2) == 0x1_0000,
        pow(256, 4) == 0x1_0000_0000,
        pow(256, 8) == 0x1_0000_0000_0000_0000,
{
    reveal_with_fuel(pow, 9);
}

/// A word of `n` bytes is smaller than 256^n.
pub proof fn lemma_be_word_bound(s: Seq<u8>)
    ensures
        be_word(s) < pow(256, s.len()),
    decreases s.len(),
{
    lemma_pow_positive(256, s.len());
    if s.len() > 0 {
        lemma_be_word_bound(s.drop_last());
        lemma_pow1(256);
        lemma_pow_adds(256, (s.len() - 1) as nat, 1);
    }
}

/// Reads an `n`-byte word starting at `offset`, most significant byte
/// first for big-endian data and last for little-endian data.
fn read_word(data: &[u8], offset: usize, n: usize, little_endian: bool) -> (r: u64)
    requires
        offset + n <= data@.len(),
        1 <= n <= 8,
    ensures
        r == word_at(data@, offset as int, n as int, little_endian),
{
    let dlen = data.len();
    let ghost bytes = data@.subrange(offset as int, offset + n);
    let ghost ms = if little_endian {
        bytes.reverse()
    } else {
        bytes
    };
    let mut r: u64 = 0;
    let mut i: usize = 0;
    proof {
        vstd::arithmetic::power::lemma_pow0(256);
        assert(ms.take(0) =~= Seq::<u8>::empty());
    }
    while i < n
        invariant
            dlen == data@.len(),
            offset + n <= dlen,
            1 <= n <= 8,
            i <= n,
            bytes == data@.subrange(offset as int, offset + n),
            ms == if little_endian {
                bytes.reverse()
            } else {
                bytes
            },
            r == be_word(ms.take(i as int)),
            r < pow(256, i as nat),
        decreases n - i,
    {
        let b = if little_endian {
            data[offset + (n - 1 - i)]
        } else {
            data[offset + i]
        };
        proof {
            assert(ms.len() == n);
            assert(ms[i as int] == b);
            assert(ms.take(i + 1).drop_last() =~= ms.take(i as int));
            assert(ms.take(i + 1).last() == ms[i as int]);
            lemma_pow1(256);
            lemma_pow_adds(256, i as nat, 1);
            lemma_pow256_values();
            vstd::arithmetic::power::lemma_pow_increases(256, (i + 1) as nat, 8);
        }
        r = r * 256 + b as u64;
        i = i + 1;
    }
    proof {
        assert(ms.take(n as int) =~= ms);
    }
    r
}

/// Decodes the eight bytes at `offset` as a 64-bit word, or `None` when
/// they lie outside the block.
pub fn get_u64(data: &[u8], offset: u64, is_little_endian: bool) -> (r: Option<u64>)
    ensures
        match r {
            Some(v) => offset + 8 <= data@.len() && v == word_at(
                data@,
                offset as int,
                8,
                is_little_endian,
            ),
            None => offset + 8 > data@.len(),
        },
{
    if data.len() >= 8 && offset <= (data.len() - 8) as u64 {
        Some(read_word(data, offset as usize, 8, is_little_endian))
    } else {
        None
    }
}

/// Decodes the four bytes at `offset` as a 32-bit word, or `None` when
/// they lie outside the block.
pub fn get_u32(data: &[u8], offset: u64, is_little_endian: bool) -> (r: Option<u32>)
    ensures
        match r {
            Some(v) => offset + 4 <= data@.len() && v == word_at(
                data@,
                offset as int,
                4,
                is_little_endian,
            ),
            None => offset + 4 > data@.len(),
        },
{
    if data.len() >= 4 && offset <= (data.len() - 4) as u64 {
        let w = read_word(data, offset as usize, 4, is_little_endian);
        proof {
            lemma_word_at_bound(data@, offset as int, 4, is_little_endian);
            lemma_pow256_values();
        }
        Some(w as u32)
    } else {
        None
    }
}

/// Decodes the two bytes at `offset` as a 16-bit word, or `None` when
/// they lie outside the block.
pub fn get_u16(data: &[u8], offset: u64, is_little_endian: bool) -> (r: Option<u16>)
    ensures
        match r {
            Some(v) => offset + 2 <= data@.len() && v == word_at(
                data@,
                offset as int,
                2,
                is_little_endian,
            ),
            None => offset + 2 > data@.len(),
        },
{
    if data.len() >= 2 && offset <= (data.len() - 2) as u64 {
        let w = read_word(data, offset as usize, 2, is_little_endian);
        proof {
            lemma_word_at_bound(data@, offset as int, 2, is_little_endian);
            lemma_pow256_values();
        }
        Some(w as u16)
    } else {
        None
    }
}

/// Reads the byte at `offset`, or `None` when it lies outside the block.
/// A single byte reads the same under either endianness.
pub fn get_u8(data: &[u8], offset: u64, is_little_endian: bool) -> (r: Option<u8>)
    ensures
        match r {
            Some(v) => offset + 1 <= data@.len() && v == word_at(
                data@,
                offset as int,
                1,
                is_little_endian,
            ),
            None => offset + 1 > data@.len(),
        },
{
    if data.len() >= 1 && offset <= (data.len() - 1) as u64 {
        let w = read_word(data, offset as usize, 1, is_little_endian);
        proof {
            lemma_word_at_bound(data@, offset as int, 1, is_little_endian);
            lemma_pow256_values();
        }
        Some(w as u8)
    } else {
        None
    }
}

/// The word at any offset fits in `n` bytes.
pub proof fn lemma_word_at_bound(data: Seq<u8>, off: int, n: int, little_endian: bool)
    requires
        0 <= off,
        0 <= n,
        off + n <= data.len(),
    ensures
        word_at(data, off, n, little_endian) < pow(256, n as nat),
{
    let bytes = data.subrange(off, off + n);
    if little_endian {
        lemma_be_word_bound(bytes.reverse());
    } else {
        lemma_be_word_bound(bytes);
    }
}

/// A single-byte word is the byte itself, under either endianness.
pub proof fn lemma_word_at_single(data: Seq<u8>, off: int, little_endian: bool)
    requires
        0 <= off,
        off + 1 <= data.len(),
    ensures
        word_at(data, off, 1, little_endian) == data[off],
{
    let bytes = data.subrange(off, off + 1);
    assert(bytes.len() == 1);
    assert(bytes.last() == data[off]);
    assert(bytes.reverse() =~= bytes);
    assert(bytes.drop_last() =~= Seq::<u8>::empty());
    assert(be_word(bytes) == 256 * be_word(bytes.drop_last()) + bytes.last());
}

} // verus!
