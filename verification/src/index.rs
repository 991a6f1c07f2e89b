//! The Windows-1252 index table: the fixed mapping between the byte values
//! 0x80..=0xFF and the code points they stand for, used in both directions by
//! the Windows-1252 codec. Five byte values (0x81, 0x8D, 0x8F, 0x90, 0x9D)
//! are left unmapped.

use vstd::prelude::*;

verus! {

/// The entry of the index table for a byte value: the code point that the
/// byte decodes to, or `None` where the table leaves the byte unmapped.
/// Bytes below 0x80 are outside the table and also give `None`.
pub open spec fn table_entry(b: u8) -> Option<u32> {
    if b == 0x80 {
        Some(0x20ACu32)
    } else if b == 0x82 {
        Some(0x201Au32)
    } else if b == 0x83 {
        Some(0x0192u32)
    } else if b == 0x84 {
        Some(0x201Eu32)
    } else if b == 0x85 {
        Some(0x2026u32)
    } else if b == 0x86 {
        Some(0x2020u32)
    } else if b == 0x87 {
        Some(0x2021u32)
    } else if b == 0x88 {
        Some(0x02C6u32)
    } else if b == 0x89 {
        Some(0x2030u32)
    } else if b == 0x8A {
        Some(0x0160u32)
    } else if b == 0x8B {
        Some(0x2039u32)
    } else if b == 0x8C {
        Some(0x0152u32)
    } else if b == 0x8E {
        Some(0x017Du32)
    } else if b == 0x91 {
        Some(0x2018u32)
    } else if b == 0x92 {
        Some(0x2019u32)
    } else if b == 0x93 {
        Some(0x201Cu32)
    } else if b == 0x94 {
        Some(0x201Du32)
    } else if b == 0x95 {
        Some(0x2022u32)
    } else if b == 0x96 {
        Some(0x2013u32)
    } else if b == 0x97 {
        Some(0x2014u32)
    } else if b == 0x98 {
        Some(0x02DCu32)
    } else if b == 0x99 {
        Some(0x2122u32)
    } else if b == 0x9A {
        Some(0x0161u32)
    } else if b == 0x9B {
        Some(0x203Au32)
    } else if b == 0x9C {
        Some(0x0153u32)
    } else if b == 0x9E {
        Some(0x017Eu32)
    } else if b == 0x9F {
        Some(0x0178u32)
    } else if 0xA0 <= b {
        Some(b as u32)
    } else {
        None
    }
}

/// The reverse of `table_entry`: the byte value whose table entry is the
/// given code point, or `None` when no byte maps to it.
pub open spec fn reverse_entry(cp: u32) -> Option<u8> {
    if cp == 0x20AC {
        Some(0x80u8)
    } else if cp == 0x201A {
        Some(0x82u8)
    } else if cp == 0x0192 {
        Some(0x83u8)
    } else if cp == 0x201E {
        Some(0x84u8)
    } else if cp == 0x2026 {
        Some(0x85u8)
    } else if cp == 0x2020 {
        Some(0x86u8)
    } else if cp == 0x2021 {
        Some(0x87u8)
    } else if cp == 0x02C6 {
        Some(0x88u8)
    } else if cp == 0x2030 {
        Some(0x89u8)
    } else if cp == 0x0160 {
        Some(0x8Au8)
    } else if cp == 0x2039 {
        Some(0x8Bu8)
    } else if cp == 0x0152 {
        Some(0x8Cu8)
    } else if cp == 0x017D {
        Some(0x8Eu8)
    } else if cp == 0x2018 {
        Some(0x91u8)
    } else if cp == 0x2019 {
        Some(0x92u8)
    } else if cp == 0x201C {
        Some(0x93u8)
    } else if cp == 0x201D {
        Some(0x94u8)
    } else if cp == 0x2022 {
        Some(0x95u8)
    } else if cp == 0x2013 {
        Some(0x96u8)
    } else if cp == 0x2014 {
        Some(0x97u8)
    } else if cp == 0x02DC {
        Some(0x98u8)
    } else if cp == 0x2122 {
        Some(0x99u8)
    } else if cp == 0x0161 {
        Some(0x9Au8)
    } else if cp == 0x203A {
        Some(0x9Bu8)
    } else if cp == 0x0153 {
        Some(0x9Cu8)
    } else if cp == 0x017E {
        Some(0x9Eu8)
    } else if cp == 0x0178 {
        Some(0x9Fu8)
    } else if 0xA0 <= cp && cp <= 0xFF {
        Some(cp as u8)
    } else {
        None
    }
}

/// Looks a byte of the table's range up, byte to code point.
pub fn lookup(b: u8) -> (r: Option<u32>)
    requires
        0x80 <= b,
    ensures
        r == table_entry(b),
{
    if b == 0x80 {
        Some(0x20AC)
    } else if b == 0x82 {
        Some(0x201A)
    } else if b == 0x83 {
        Some(0x0192)
    } else if b == 0x84 {
        Some(0x201E)
    } else if b == 0x85 {
        Some(0x2026)
    } else if b == 0x86 {
        Some(0x2020)
    } else if b == 0x87 {
        Some(0x2021)
    } else if b == 0x88 {
        Some(0x02C6)
    } else if b == 0x89 {
        Some(0x2030)
    } else if b == 0x8A {
        Some(0x0160)
    } else if b == 0x8B {
        Some(0x2039)
    } else if b == 0x8C {
        Some(0x0152)
    } else if b == 0x8E {
        Some(0x017D)
    } else if b == 0x91 {
        Some(0x2018)
    } else if b == 0x92 {
        Some(0x2019)
    } else if b == 0x93 {
        Some(0x201C)
    } else if b == 0x94 {
        Some(0x201D)
    } else if b == 0x95 {
        Some(0x2022)
    } else if b == 0x96 {
        Some(0x2013)
    } else if b == 0x97 {
        Some(0x2014)
    } else if b == 0x98 {
        Some(0x02DC)
    } else if b == 0x99 {
        Some(0x2122)
    } else if b == 0x9A {
        Some(0x0161)
    } else if b == 0x9B {
        Some(0x203A)
    } else if b == 0x9C {
        Some(0x0153)
    } else if b == 0x9E {
        Some(0x017E)
    } else if b == 0x9F {
        Some(0x0178)
    } else if 0xA0 <= b {
        Some(b as u32)
    } else {
        None
    }
}

/// Looks a code point up in the reverse direction, code point to byte.
pub fn reverse_lookup(cp: u32) -> (r: Option<u8>)
    ensures
        r == reverse_entry(cp),
{
    if cp == 0x20AC {
        Some(0x80)
    } else if cp == 0x201A {
        Some(0x82)
    } else if cp == 0x0192 {
        Some(0x83)
    } else if cp == 0x201E {
        Some(0x84)
    } else if cp == 0x2026 {
        Some(0x85)
    } else if cp == 0x2020 {
        Some(0x86)
    } else if cp == 0x2021 {
        Some(0x87)
    } else if cp == 0x02C6 {
        Some(0x88)
    } else if cp == 0x2030 {
        Some(0x89)
    } else if cp == 0x0160 {
        Some(0x8A)
    } else if cp == 0x2039 {
        Some(0x8B)
    } else if cp == 0x0152 {
        Some(0x8C)
    } else if cp == 0x017D {
        Some(0x8E)
    } else if cp == 0x2018 {
        Some(0x91)
    } else if cp == 0x2019 {
        Some(0x92)
    } else if cp == 0x201C {
        Some(0x93)
    } else if cp == 0x201D {
        Some(0x94)
    } else if cp == 0x2022 {
        Some(0x95)
    } else if cp == 0x2013 {
        Some(0x96)
    } else if cp == 0x2014 {
        Some(0x97)
    } else if cp == 0x02DC {
        Some(0x98)
    } else if cp == 0x2122 {
        Some(0x99)
    } else if cp == 0x0161 {
        Some(0x9A)
    } else if cp == 0x203A {
        Some(0x9B)
    } else if cp == 0x0153 {
        Some(0x9C)
    } else if cp == 0x017E {
        Some(0x9E)
    } else if cp == 0x0178 {
        Some(0x9F)
    } else if 0xA0 <= cp && cp <= 0xFF {
        Some(cp as u8)
    } else {
        None
    }
}

/// Each populated forward entry is found again by the reverse direction.
pub proof fn lemma_entry_reverse(b: u8)
    requires
        0x80 <= b,
    ensures
        match table_entry(b) {
            Some(cp) => reverse_entry(cp) == Some(b),
            None => true,
        },
{
}

/// Each populated reverse entry points back at a byte of the table's range
/// whose forward entry is the code point looked up.
pub proof fn lemma_reverse_entry(cp: u32)
    ensures
        match reverse_entry(cp) {
            Some(b) => 0x80 <= b && table_entry(b) == Some(cp),
            None => true,
        },
{
}

/// The index table is injective where populated: no two byte values map to
/// the same code point.
pub proof fn lemma_table_injective(b1: u8, b2: u8)
    requires
        0x80 <= b1,
        0x80 <= b2,
        table_entry(b1) is Some,
        table_entry(b1) == table_entry(b2),
    ensures
        b1 == b2,
{
    lemma_entry_reverse(b1);
    lemma_entry_reverse(b2);
}

} // verus!
