//! The packed runtime representation of values used by compiled code.
//!
//! A value is one `u128`: a 16-bit tag, a 16-bit name and 96 bits of slots.
//! Numbers sit in the slots as lanes of 8, 16, 32 or 64 bits; strings and
//! tuples hold a range `[start, end)` of 16 bits each and a 64-bit handle of
//! a buffer in a `Heap`. Names are kept in the heap's name table.

use vstd::prelude::*;
use crate::text::{signed_decimal_chars, push_signed_decimal, push_chars, str_chars, chars_to_string, debug_str, str_debug};

verus! {

/// The kind of a packed value: its representation and, for vectors of
/// numbers, how many lanes it holds.
#[derive(Clone, Copy, Debug, PartialEq, Eq, Structural)]
pub enum Tag {
    Zero,
    Unit,
    I8,
    I82,
    I83,
    I84,
    I85,
    I86,
    I87,
    I88,
    I89,
    I810,
    I811,
    I812,
    U8,
    U82,
    U83,
    U84,
    U85,
    U86,
    U87,
    U88,
    U89,
    U810,
    U811,
    U812,
    U16,
    U162,
    U163,
    U164,
    U165,
    U166,
    I16,
    I162,
    I163,
    I164,
    I165,
    I166,
    U32,
    U322,
    U323,
    I32,
    I322,
    I323,
    F32,
    F322,
    F323,
    U64,
    I64,
    F64,
    String,
    Tuple,
}

/// The 16-bit code of a tag, in the order the tags are declared.
pub open spec fn tag_code(t: Tag) -> u16 {
    match t {
        Tag::Zero => 0,
        Tag::Unit => 1,
        Tag::I8 => 2,
        Tag::I82 => 3,
        Tag::I83 => 4,
        Tag::I84 => 5,
        Tag::I85 => 6,
        Tag::I86 => 7,
        Tag::I87 => 8,
        Tag::I88 => 9,
        Tag::I89 => 10,
        Tag::I810 => 11,
        Tag::I811 => 12,
        Tag::I812 => 13,
        Tag::U8 => 14,
        Tag::U82 => 15,
        Tag::U83 => 16,
        Tag::U84 => 17,
        Tag::U85 => 18,
        Tag::U86 => 19,
        Tag::U87 => 20,
        Tag::U88 => 21,
        Tag::U89 => 22,
        Tag::U810 => 23,
        Tag::U811 => 24,
        Tag::U812 => 25,
        Tag::U16 => 26,
        Tag::U162 => 27,
        Tag::U163 => 28,
        Tag::U164 => 29,
        Tag::U165 => 30,
        Tag::U166 => 31,
        Tag::I16 => 32,
        Tag::I162 => 33,
        Tag::I163 => 34,
        Tag::I164 => 35,
        Tag::I165 => 36,
        Tag::I166 => 37,
        Tag::U32 => 38,
        Tag::U322 => 39,
        Tag::U323 => 40,
        Tag::I32 => 41,
        Tag::I322 => 42,
        Tag::I323 => 43,
        Tag::F32 => 44,
        Tag::F322 => 45,
        Tag::F323 => 46,
        Tag::U64 => 47,
        Tag::I64 => 48,
        Tag::F64 => 49,
        Tag::String => 50,
        Tag::Tuple => 51,
    }
}

/// The tag with the given code, if there is one.
pub open spec fn code_tag(c: u16) -> Option<Tag> {
    match c {
        0 => Some(Tag::Zero),
        1 => Some(Tag::Unit),
        2 => Some(Tag::I8),
        3 => Some(Tag::I82),
        4 => Some(Tag::I83),
        5 => Some(Tag::I84),
        6 => Some(Tag::I85),
        7 => Some(Tag::I86),
        8 => Some(Tag::I87),
        9 => Some(Tag::I88),
        10 => Some(Tag::I89),
        11 => Some(Tag::I810),
        12 => Some(Tag::I811),
        13 => Some(Tag::I812),
        14 => Some(Tag::U8),
        15 => Some(Tag::U82),
        16 => Some(Tag::U83),
        17 => Some(Tag::U84),
        18 => Some(Tag::U85),
        19 => Some(Tag::U86),
        20 => Some(Tag::U87),
        21 => Some(Tag::U88),
        22 => Some(Tag::U89),
        23 => Some(Tag::U810),
        24 => Some(Tag::U811),
        25 => Some(Tag::U812),
        26 => Some(Tag::U16),
        27 => Some(Tag::U162),
        28 => Some(Tag::U163),
        29 => Some(Tag::U164),
        30 => Some(Tag::U165),
        31 => Some(Tag::U166),
        32 => Some(Tag::I16),
        33 => Some(Tag::I162),
        34 => Some(Tag::I163),
        35 => Some(Tag::I164),
        36 => Some(Tag::I165),
        37 => Some(Tag::I166),
        38 => Some(Tag::U32),
        39 => Some(Tag::U322),
        40 => Some(Tag::U323),
        41 => Some(Tag::I32),
        42 => Some(Tag::I322),
        43 => Some(Tag::I323),
        44 => Some(Tag::F32),
        45 => Some(Tag::F322),
        46 => Some(Tag::F323),
        47 => Some(Tag::U64),
        48 => Some(Tag::I64),
        49 => Some(Tag::F64),
        50 => Some(Tag::String),
        51 => Some(Tag::Tuple),
        _ => None,
    }
}

/// The name of a tag, as its `Debug` form spells it.
pub open spec fn tag_name(t: Tag) -> Seq<char> {
    match t {
        Tag::Zero => "Zero"@,
        Tag::Unit => "Unit"@,
        Tag::I8 => "I8"@,
        Tag::I82 => "I82"@,
        Tag::I83 => "I83"@,
        Tag::I84 => "I84"@,
        Tag::I85 => "I85"@,
        Tag::I86 => "I86"@,
        Tag::I87 => "I87"@,
        Tag::I88 => "I88"@,
        Tag::I89 => "I89"@,
        Tag::I810 => "I810"@,
        Tag::I811 => "I811"@,
        Tag::I812 => "I812"@,
        Tag::U8 => "U8"@,
        Tag::U82 => "U82"@,
        Tag::U83 => "U83"@,
        Tag::U84 => "U84"@,
        Tag::U85 => "U85"@,
        Tag::U86 => "U86"@,
        Tag::U87 => "U87"@,
        Tag::U88 => "U88"@,
        Tag::U89 => "U89"@,
        Tag::U810 => "U810"@,
        Tag::U811 => "U811"@,
        Tag::U812 => "U812"@,
        Tag::U16 => "U16"@,
        Tag::U162 => "U162"@,
        Tag::U163 => "U163"@,
        Tag::U164 => "U164"@,
        Tag::U165 => "U165"@,
        Tag::U166 => "U166"@,
        Tag::I16 => "I16"@,
        Tag::I162 => "I162"@,
        Tag::I163 => "I163"@,
        Tag::I164 => "I164"@,
        Tag::I165 => "I165"@,
        Tag::I166 => "I166"@,
        Tag::U32 => "U32"@,
        Tag::U322 => "U322"@,
        Tag::U323 => "U323"@,
        Tag::I32 => "I32"@,
        Tag::I322 => "I322"@,
        Tag::I323 => "I323"@,
        Tag::F32 => "F32"@,
        Tag::F322 => "F322"@,
        Tag::F323 => "F323"@,
        Tag::U64 => "U64"@,
        Tag::I64 => "I64"@,
        Tag::F64 => "F64"@,
        Tag::String => "String"@,
        Tag::Tuple => "Tuple"@,
    }
}

/// Each tag has its own code, below 52, and the code gives the tag back.
pub proof fn lemma_tag_code(t: Tag)
    ensures
        tag_code(t) < 52,
        code_tag(tag_code(t)) == Some(t),
{
}

/// Every code below 52 is the code of a tag; no other code is.
pub proof fn lemma_code_tag(c: u16)
    ensures
        code_tag(c) is Some <==> c < 52,
        code_tag(c) is Some ==> tag_code(code_tag(c).unwrap()) == c,
{
}

impl Tag {
    /// The tag's code.
    pub fn code(&self) -> (res: u16)
        ensures
            res == tag_code(*self),
    {
        match self {
            Tag::Zero => 0,
            Tag::Unit => 1,
            Tag::I8 => 2,
            Tag::I82 => 3,
            Tag::I83 => 4,
            Tag::I84 => 5,
            Tag::I85 => 6,
            Tag::I86 => 7,
            Tag::I87 => 8,
            Tag::I88 => 9,
            Tag::I89 => 10,
            Tag::I810 => 11,
            Tag::I811 => 12,
            Tag::I812 => 13,
            Tag::U8 => 14,
            Tag::U82 => 15,
            Tag::U83 => 16,
            Tag::U84 => 17,
            Tag::U85 => 18,
            Tag::U86 => 19,
            Tag::U87 => 20,
            Tag::U88 => 21,
            Tag::U89 => 22,
            Tag::U810 => 23,
            Tag::U811 => 24,
            Tag::U812 => 25,
            Tag::U16 => 26,
            Tag::U162 => 27,
            Tag::U163 => 28,
            Tag::U164 => 29,
            Tag::U165 => 30,
            Tag::U166 => 31,
            Tag::I16 => 32,
            Tag::I162 => 33,
            Tag::I163 => 34,
            Tag::I164 => 35,
            Tag::I165 => 36,
            Tag::I166 => 37,
            Tag::U32 => 38,
            Tag::U322 => 39,
            Tag::U323 => 40,
            Tag::I32 => 41,
            Tag::I322 => 42,
            Tag::I323 => 43,
            Tag::F32 => 44,
            Tag::F322 => 45,
            Tag::F323 => 46,
            Tag::U64 => 47,
            Tag::I64 => 48,
            Tag::F64 => 49,
            Tag::String => 50,
            Tag::Tuple => 51,
        }
    }

    /// The tag with code `c`; `None` when no tag has that code.
    pub fn from_code(c: u16) -> (res: Option<Tag>)
        ensures
            res == code_tag(c),
    {
        match c {
            0 => Some(Tag::Zero),
            1 => Some(Tag::Unit),
            2 => Some(Tag::I8),
            3 => Some(Tag::I82),
            4 => Some(Tag::I83),
            5 => Some(Tag::I84),
            6 => Some(Tag::I85),
            7 => Some(Tag::I86),
            8 => Some(Tag::I87),
            9 => Some(Tag::I88),
            10 => Some(Tag::I89),
            11 => Some(Tag::I810),
            12 => Some(Tag::I811),
            13 => Some(Tag::I812),
            14 => Some(Tag::U8),
            15 => Some(Tag::U82),
            16 => Some(Tag::U83),
            17 => Some(Tag::U84),
            18 => Some(Tag::U85),
            19 => Some(Tag::U86),
            20 => Some(Tag::U87),
            21 => Some(Tag::U88),
            22 => Some(Tag::U89),
            23 => Some(Tag::U810),
            24 => Some(Tag::U811),
            25 => Some(Tag::U812),
            26 => Some(Tag::U16),
            27 => Some(Tag::U162),
            28 => Some(Tag::U163),
            29 => Some(Tag::U164),
            30 => Some(Tag::U165),
            31 => Some(Tag::U166),
            32 => Some(Tag::I16),
            33 => Some(Tag::I162),
            34 => Some(Tag::I163),
            35 => Some(Tag::I164),
            36 => Some(Tag::I165),
            37 => Some(Tag::I166),
            38 => Some(Tag::U32),
            39 => Some(Tag::U322),
            40 => Some(Tag::U323),
            41 => Some(Tag::I32),
            42 => Some(Tag::I322),
            43 => Some(Tag::I323),
            44 => Some(Tag::F32),
            45 => Some(Tag::F322),
            46 => Some(Tag::F323),
            47 => Some(Tag::U64),
            48 => Some(Tag::I64),
            49 => Some(Tag::F64),
            50 => Some(Tag::String),
            51 => Some(Tag::Tuple),
            _ => None,
        }
    }

    /// The name of the tag.
    pub fn name(&self) -> (res: String)
        ensures
            res@ == tag_name(*self),
    {
        match self {
            Tag::Zero => "Zero".to_string(),
            Tag::Unit => "Unit".to_string(),
            Tag::I8 => "I8".to_string(),
            Tag::I82 => "I82".to_string(),
            Tag::I83 => "I83".to_string(),
            Tag::I84 => "I84".to_string(),
            Tag::I85 => "I85".to_string(),
            Tag::I86 => "I86".to_string(),
            Tag::I87 => "I87".to_string(),
            Tag::I88 => "I88".to_string(),
            Tag::I89 => "I89".to_string(),
            Tag::I810 => "I810".to_string(),
            Tag::I811 => "I811".to_string(),
            Tag::I812 => "I812".to_string(),
            Tag::U8 => "U8".to_string(),
            Tag::U82 => "U82".to_string(),
            Tag::U83 => "U83".to_string(),
            Tag::U84 => "U84".to_string(),
            Tag::U85 => "U85".to_string(),
            Tag::U86 => "U86".to_string(),
            Tag::U87 => "U87".to_string(),
            Tag::U88 => "U88".to_string(),
            Tag::U89 => "U89".to_string(),
            Tag::U810 => "U810".to_string(),
            Tag::U811 => "U811".to_string(),
            Tag::U812 => "U812".to_string(),
            Tag::U16 => "U16".to_string(),
            Tag::U162 => "U162".to_string(),
            Tag::U163 => "U163".to_string(),
            Tag::U164 => "U164".to_string(),
            Tag::U165 => "U165".to_string(),
            Tag::U166 => "U166".to_string(),
            Tag::I16 => "I16".to_string(),
            Tag::I162 => "I162".to_string(),
            Tag::I163 => "I163".to_string(),
            Tag::I164 => "I164".to_string(),
            Tag::I165 => "I165".to_string(),
            Tag::I166 => "I166".to_string(),
            Tag::U32 => "U32".to_string(),
            Tag::U322 => "U322".to_string(),
            Tag::U323 => "U323".to_string(),
            Tag::I32 => "I32".to_string(),
            Tag::I322 => "I322".to_string(),
            Tag::I323 => "I323".to_string(),
            Tag::F32 => "F32".to_string(),
            Tag::F322 => "F322".to_string(),
            Tag::F323 => "F323".to_string(),
            Tag::U64 => "U64".to_string(),
            Tag::I64 => "I64".to_string(),
            Tag::F64 => "F64".to_string(),
            Tag::String => "String".to_string(),
            Tag::Tuple => "Tuple".to_string(),
        }
    }
}

// ---------------------------------------------------------------------------
// The bit layout.

/// The low 64 bits.
pub open spec fn low64(v: u128) -> u128 {
    v & 0xffff_ffff_ffff_ffff
}

/// The value whose high and low 64 bits are `hi` and `lo`.
pub open spec fn join64(lo: u64, hi: u64) -> u128 {
    ((hi as u128) << 64u128) | (lo as u128)
}

/// The tag code: the top 16 bits.
pub open spec fn tag_field(v: u128) -> u128 {
    v >> 112u128
}

/// The name code: the 16 bits below the tag.
pub open spec fn name_field(v: u128) -> u128 {
    (v >> 96u128) & 0xffff
}

/// The slots: the low 96 bits.
pub open spec fn slots_field(v: u128) -> u128 {
    v & 0xffff_ffff_ffff_ffff_ffff_ffff
}

/// The start of a string or tuple range.
pub open spec fn start_field(v: u128) -> u128 {
    (v >> 80u128) & 0xffff
}

/// The end of a string or tuple range.
pub open spec fn end_field(v: u128) -> u128 {
    (v >> 64u128) & 0xffff
}

/// The heap handle of a string or tuple.
pub open spec fn handle_field(v: u128) -> u128 {
    v & 0xffff_ffff_ffff_ffff
}

/// A tag code, a name code and the slots, packed into one value.
pub open spec fn packed(tag: u128, name: u128, slots: u128) -> u128 {
    (tag << 112u128) | (name << 96u128) | slots
}

/// The slots of a string or tuple: its range and its heap handle.
pub open spec fn packed_ref(start: u128, end: u128, handle: u128) -> u128 {
    (start << 80u128) | (end << 64u128) | handle
}

/// Splitting a value into halves and joining them gives it back; joining two
/// halves and splitting gives them back.
pub proof fn lemma_halves(v: u128, lo: u64, hi: u64)
    by (bit_vector)
    ensures
        join64(low64(v) as u64, (v >> 64u128) as u64) == v,
        low64(join64(lo, hi)) == lo,
        join64(lo, hi) >> 64u128 == hi,
        low64(v) < 0x1_0000_0000_0000_0000,
        v >> 64u128 < 0x1_0000_0000_0000_0000,
{
}

/// The fields of a packed value are the parts it was packed from; packing
/// the fields of any value gives it back.
pub proof fn lemma_packed(v: u128, tag: u128, name: u128, slots: u128)
    by (bit_vector)
    requires
        tag < 0x10000,
        name < 0x10000,
        slots < 0x1_0000_0000_0000_0000_0000_0000,
    ensures
        tag_field(packed(tag, name, slots)) == tag,
        name_field(packed(tag, name, slots)) == name,
        slots_field(packed(tag, name, slots)) == slots,
        packed(tag_field(v), name_field(v), slots_field(v)) == v,
        tag_field(v) < 0x10000,
        name_field(v) < 0x10000,
{
}

/// The range and handle of a reference are the parts it was packed from,
/// and they can be read from the whole value as from its slots.
pub proof fn lemma_packed_ref(v: u128, start: u128, end: u128, handle: u128)
    by (bit_vector)
    requires
        start < 0x10000,
        end < 0x10000,
        handle < 0x1_0000_0000_0000_0000,
    ensures
        packed_ref(start, end, handle) < 0x1_0000_0000_0000_0000_0000_0000,
        start_field(packed_ref(start, end, handle)) == start,
        end_field(packed_ref(start, end, handle)) == end,
        handle_field(packed_ref(start, end, handle)) == handle,
        start_field(v) == start_field(slots_field(v)),
        end_field(v) == end_field(slots_field(v)),
        handle_field(v) == handle_field(slots_field(v)),
        start_field(v) < 0x10000,
        end_field(v) < 0x10000,
{
}

// ---------------------------------------------------------------------------
// Lanes.

/// Lane `k` of 8 bits of `v`, counted from the low end.
pub open spec fn lane8(v: u128, k: u128) -> u128 {
    (v >> (8 * k)) & 0xff
}

/// The 8-bit two's complement number that a lane holds.
pub open spec fn signed8(b: u128) -> int {
    if b >= 0x80 {
        b - 0x100
    } else {
        b as int
    }
}

/// The lane that holds the signed number `x` in 8-bit two's complement.
pub open spec fn twos8(x: int) -> u128 {
    if x < 0 {
        (x + 0x100) as u128
    } else {
        x as u128
    }
}

/// Setting lane `i` above the occupied lanes leaves the lower lanes, holds
/// the new lane, and keeps the lanes above it empty.
pub proof fn lemma_set_lane8(v: u128, b: u128, i: u128, j: u128)
    by (bit_vector)
    requires
        v >> (8 * i) == 0,
        b <= 0xff,
        i < 12,
        j < i,
    ensures
        lane8(v | (b << (8 * i)), j) == lane8(v, j),
{
}

/// The lane just set holds its number, and nothing lies above it.
pub proof fn lemma_new_lane8(v: u128, b: u128, i: u128)
    by (bit_vector)
    requires
        v >> (8 * i) == 0,
        b <= 0xff,
        i < 12,
    ensures
        lane8(v | (b << (8 * i)), i) == b,
        (v | (b << (8 * i))) >> (8 * (i + 1)) == 0,
{
}

/// Lanes above the occupied ones are empty.
pub proof fn lemma_empty_lane8(v: u128, i: u128, j: u128)
    by (bit_vector)
    requires
        v >> (8 * i) == 0,
        i <= 12,
    ensures
        i <= j < 12 ==> lane8(v, j) == 0,
        v >> 96u128 == 0,
        v < 0x1_0000_0000_0000_0000_0000_0000,
{
}

/// The lanes of a packed value are those of its slots.
pub proof fn lemma_packed_lane8(t: u128, n: u128, v: u128, j: u128)
    by (bit_vector)
    requires
        t < 0x10000,
        n < 0x10000,
        v >> 96u128 == 0,
        j < 12,
    ensures
        lane8(packed(t, n, v), j) == lane8(v, j),
{
}

/// Lane `k` of 16 bits of `v`, counted from the low end.
pub open spec fn lane16(v: u128, k: u128) -> u128 {
    (v >> (16 * k)) & 0xffff
}

/// The 16-bit two's complement number that a lane holds.
pub open spec fn signed16(b: u128) -> int {
    if b >= 0x8000 {
        b - 0x10000
    } else {
        b as int
    }
}

/// The lane that holds the signed number `x` in 16-bit two's complement.
pub open spec fn twos16(x: int) -> u128 {
    if x < 0 {
        (x + 0x10000) as u128
    } else {
        x as u128
    }
}

/// Setting lane `i` above the occupied lanes leaves the lower lanes, holds
/// the new lane, and keeps the lanes above it empty.
pub proof fn lemma_set_lane16(v: u128, b: u128, i: u128, j: u128)
    by (bit_vector)
    requires
        v >> (16 * i) == 0,
        b <= 0xffff,
        i < 6,
        j < i,
    ensures
        lane16(v | (b << (16 * i)), j) == lane16(v, j),
{
}

/// The lane just set holds its number, and nothing lies above it.
pub proof fn lemma_new_lane16(v: u128, b: u128, i: u128)
    by (bit_vector)
    requires
        v >> (16 * i) == 0,
        b <= 0xffff,
        i < 6,
    ensures
        lane16(v | (b << (16 * i)), i) == b,
        (v | (b << (16 * i))) >> (16 * (i + 1)) == 0,
{
}

/// Lanes above the occupied ones are empty.
pub proof fn lemma_empty_lane16(v: u128, i: u128, j: u128)
    by (bit_vector)
    requires
        v >> (16 * i) == 0,
        i <= 6,
    ensures
        i <= j < 6 ==> lane16(v, j) == 0,
        v >> 96u128 == 0,
        v < 0x1_0000_0000_0000_0000_0000_0000,
{
}

/// The lanes of a packed value are those of its slots.
pub proof fn lemma_packed_lane16(t: u128, n: u128, v: u128, j: u128)
    by (bit_vector)
    requires
        t < 0x10000,
        n < 0x10000,
        v >> 96u128 == 0,
        j < 6,
    ensures
        lane16(packed(t, n, v), j) == lane16(v, j),
{
}

/// Lane `k` of 32 bits of `v`, counted from the low end.
pub open spec fn lane32(v: u128, k: u128) -> u128 {
    (v >> (32 * k)) & 0xffff_ffff
}

/// The 32-bit two's complement number that a lane holds.
pub open spec fn signed32(b: u128) -> int {
    if b >= 0x80000000 {
        b - 0x100000000
    } else {
        b as int
    }
}

/// The lane that holds the signed number `x` in 32-bit two's complement.
pub open spec fn twos32(x: int) -> u128 {
    if x < 0 {
        (x + 0x100000000) as u128
    } else {
        x as u128
    }
}

/// Setting lane `i` above the occupied lanes leaves the lower lanes, holds
/// the new lane, and keeps the lanes above it empty.
pub proof fn lemma_set_lane32(v: u128, b: u128, i: u128, j: u128)
    by (bit_vector)
    requires
        v >> (32 * i) == 0,
        b <= 0xffff_ffff,
        i < 3,
        j < i,
    ensures
        lane32(v | (b << (32 * i)), j) == lane32(v, j),
{
}

/// The lane just set holds its number, and nothing lies above it.
pub proof fn lemma_new_lane32(v: u128, b: u128, i: u128)
    by (bit_vector)
    requires
        v >> (32 * i) == 0,
        b <= 0xffff_ffff,
        i < 3,
    ensures
        lane32(v | (b << (32 * i)), i) == b,
        (v | (b << (32 * i))) >> (32 * (i + 1)) == 0,
{
}

/// Lanes above the occupied ones are empty.
pub proof fn lemma_empty_lane32(v: u128, i: u128, j: u128)
    by (bit_vector)
    requires
        v >> (32 * i) == 0,
        i <= 3,
    ensures
        i <= j < 3 ==> lane32(v, j) == 0,
        v >> 96u128 == 0,
        v < 0x1_0000_0000_0000_0000_0000_0000,
{
}

/// The lanes of a packed value are those of its slots.
pub proof fn lemma_packed_lane32(t: u128, n: u128, v: u128, j: u128)
    by (bit_vector)
    requires
        t < 0x10000,
        n < 0x10000,
        v >> 96u128 == 0,
        j < 3,
    ensures
        lane32(packed(t, n, v), j) == lane32(v, j),
{
}

/// The 64-bit two's complement number that the low 64 bits hold.
pub open spec fn signed64(b: u128) -> int {
    if b >= 0x8000_0000_0000_0000 {
        b - 0x1_0000_0000_0000_0000
    } else {
        b as int
    }
}

/// A number below 2^64 has nothing above its low 64 bits; nothing lies
/// above the lanes of an empty value.
pub proof fn lemma_small(v: u128)
    by (bit_vector)
    ensures
        v < 0x1_0000_0000_0000_0000 ==> v >> 64u128 == 0,
        (0u128 >> 0u128) == 0,
{
}

/// A masked number is no larger than its mask.
pub proof fn lemma_masked(x: u128)
    by (bit_vector)
    ensures
        x & 0xff <= 0xff,
        x & 0xffff <= 0xffff,
        x & 0xffff_ffff <= 0xffff_ffff,
        x & 0xffff_ffff_ffff_ffff <= 0xffff_ffff_ffff_ffff,
        x & 0xffff_ffff_ffff_ffff_ffff_ffff <= 0xffff_ffff_ffff_ffff_ffff_ffff,
{
}

/// The low 64 bits of a packed value are those of its slots.
pub proof fn lemma_packed_low64(t: u128, n: u128, v: u128)
    by (bit_vector)
    requires
        t < 0x10000,
        n < 0x10000,
        v >> 64u128 == 0,
    ensures
        low64(packed(t, n, v)) == v,
        slots_field(packed(t, n, v)) == v,
{
}

/// The codes `[tag_code(first), tag_code(first) + count)`: a family of
/// vector tags.
pub open spec fn in_family(c: u16, first: Tag, count: u16) -> bool {
    tag_code(first) <= c < tag_code(first) + count
}

/// Which slot reads are defined: a numeric or unit tag, and a lane index
/// within the 96 bits of the slots.
pub open spec fn slot_readable(c: u16, k: u128) -> bool {
    &&& tag_code(Tag::Unit) <= c <= tag_code(Tag::F64)
    &&& (in_family(c, Tag::I8, 12) || in_family(c, Tag::U8, 12)) ==> k < 12
    &&& (in_family(c, Tag::U16, 6) || in_family(c, Tag::I16, 6)) ==> k < 6
    &&& (in_family(c, Tag::U32, 3) || in_family(c, Tag::I32, 3) || in_family(c, Tag::F32, 3)) ==> k < 3
}

/// Slot `k` of `v` read as the tag with code `c` lays it out: a signed or
/// unsigned lane, the raw bits of a float lane, or for the 64-bit tags the
/// slots as one number.
pub open spec fn slot_value(v: u128, c: u16, k: u128) -> int {
    if c == tag_code(Tag::Unit) {
        0
    } else if in_family(c, Tag::I8, 12) {
        signed8(lane8(v, k))
    } else if in_family(c, Tag::U8, 12) {
        lane8(v, k) as int
    } else if in_family(c, Tag::U16, 6) {
        lane16(v, k) as int
    } else if in_family(c, Tag::I16, 6) {
        signed16(lane16(v, k))
    } else if in_family(c, Tag::U32, 3) || in_family(c, Tag::F32, 3) {
        lane32(v, k) as int
    } else if in_family(c, Tag::I32, 3) {
        signed32(lane32(v, k))
    } else if c == tag_code(Tag::I64) {
        signed64(low64(v))
    } else {
        slots_field(v) as int
    }
}

/// The tag of a vector of `n` lanes of the family starting at `first`: the
/// unit tag when it is empty.
pub open spec fn vector_tag(first: Tag, n: nat) -> u128 {
    if n == 0 {
        tag_code(Tag::Unit) as u128
    } else {
        (tag_code(first) + n - 1) as u128
    }
}


/// The lanes `xs`, packed from the low end into 8-bit lanes.
fn pack8(xs: &[u8]) -> (res: u128)
    requires
        xs@.len() <= 12,
    ensures
        res >> 96u128 == 0,
        res < 0x1_0000_0000_0000_0000_0000_0000,
        forall|k: int| 0 <= k < xs@.len() ==> #[trigger] lane8(res, k as u128) == xs@[k] as u128,
        forall|k: int| xs@.len() <= k < 12 ==> #[trigger] lane8(res, k as u128) == 0,
{
    let mut v: u128 = 0;
    let mut i: usize = 0;
    proof {
        lemma_small(0);
    }
    while i < xs.len()
        invariant
            i <= xs@.len() <= 12,
            v >> (8 * (i as u128)) == 0,
            forall|k: int| 0 <= k < i ==> #[trigger] lane8(v, k as u128) == xs@[k] as u128,
        decreases xs@.len() - i,
    {
        let b = xs[i] as u128;
        let sh: u128 = 8 * (i as u128);
        proof {
            lemma_new_lane8(v, b, i as u128);
            assert forall|k: int| 0 <= k < i implies #[trigger] lane8(v | (b << sh), k as u128) == xs@[k] as u128 by {
                lemma_set_lane8(v, b, i as u128, k as u128);
            }
        }
        v = v | (b << sh);
        i = i + 1;
    }
    proof {
        lemma_empty_lane8(v, i as u128, 0);
        assert forall|k: int| xs@.len() <= k < 12 implies #[trigger] lane8(v, k as u128) == 0 by {
            lemma_empty_lane8(v, i as u128, k as u128);
        }
    }
    v
}

/// The 8-bit two's complement lanes of the numbers `xs`.
fn twos_lanes8(xs: &[i8]) -> (res: Vec<u8>)
    ensures
        res@.len() == xs@.len(),
        forall|k: int| 0 <= k < xs@.len() ==> res@[k] as u128 == twos8(xs@[k] as int),
{
    let mut out: Vec<u8> = Vec::new();
    let mut i: usize = 0;
    while i < xs.len()
        invariant
            i <= xs@.len(),
            out@.len() == i,
            forall|k: int| 0 <= k < i ==> out@[k] as u128 == twos8(xs@[k] as int),
        decreases xs@.len() - i,
    {
        let x = xs[i];
        let b: u8 = if x < 0 {
            (x as i64 + 256) as u8
        } else {
            x as u8
        };
        out.push(b);
        i = i + 1;
    }
    out
}

/// The lanes `xs`, packed from the low end into 16-bit lanes.
fn pack16(xs: &[u16]) -> (res: u128)
    requires
        xs@.len() <= 6,
    ensures
        res >> 96u128 == 0,
        res < 0x1_0000_0000_0000_0000_0000_0000,
        forall|k: int| 0 <= k < xs@.len() ==> #[trigger] lane16(res, k as u128) == xs@[k] as u128,
        forall|k: int| xs@.len() <= k < 6 ==> #[trigger] lane16(res, k as u128) == 0,
{
    let mut v: u128 = 0;
    let mut i: usize = 0;
    proof {
        lemma_small(0);
    }
    while i < xs.len()
        invariant
            i <= xs@.len() <= 6,
            v >> (16 * (i as u128)) == 0,
            forall|k: int| 0 <= k < i ==> #[trigger] lane16(v, k as u128) == xs@[k] as u128,
        decreases xs@.len() - i,
    {
        let b = xs[i] as u128;
        let sh: u128 = 16 * (i as u128);
        proof {
            lemma_new_lane16(v, b, i as u128);
            assert forall|k: int| 0 <= k < i implies #[trigger] lane16(v | (b << sh), k as u128) == xs@[k] as u128 by {
                lemma_set_lane16(v, b, i as u128, k as u128);
            }
        }
        v = v | (b << sh);
        i = i + 1;
    }
    proof {
        lemma_empty_lane16(v, i as u128, 0);
        assert forall|k: int| xs@.len() <= k < 6 implies #[trigger] lane16(v, k as u128) == 0 by {
            lemma_empty_lane16(v, i as u128, k as u128);
        }
    }
    v
}

/// The 16-bit two's complement lanes of the numbers `xs`.
fn twos_lanes16(xs: &[i16]) -> (res: Vec<u16>)
    ensures
        res@.len() == xs@.len(),
        forall|k: int| 0 <= k < xs@.len() ==> res@[k] as u128 == twos16(xs@[k] as int),
{
    let mut out: Vec<u16> = Vec::new();
    let mut i: usize = 0;
    while i < xs.len()
        invariant
            i <= xs@.len(),
            out@.len() == i,
            forall|k: int| 0 <= k < i ==> out@[k] as u128 == twos16(xs@[k] as int),
        decreases xs@.len() - i,
    {
        let x = xs[i];
        let b: u16 = if x < 0 {
            (x as i64 + 65536) as u16
        } else {
            x as u16
        };
        out.push(b);
        i = i + 1;
    }
    out
}

/// The lanes `xs`, packed from the low end into 32-bit lanes.
fn pack32(xs: &[u32]) -> (res: u128)
    requires
        xs@.len() <= 3,
    ensures
        res >> 96u128 == 0,
        res < 0x1_0000_0000_0000_0000_0000_0000,
        forall|k: int| 0 <= k < xs@.len() ==> #[trigger] lane32(res, k as u128) == xs@[k] as u128,
        forall|k: int| xs@.len() <= k < 3 ==> #[trigger] lane32(res, k as u128) == 0,
{
    let mut v: u128 = 0;
    let mut i: usize = 0;
    proof {
        lemma_small(0);
    }
    while i < xs.len()
        invariant
            i <= xs@.len() <= 3,
            v >> (32 * (i as u128)) == 0,
            forall|k: int| 0 <= k < i ==> #[trigger] lane32(v, k as u128) == xs@[k] as u128,
        decreases xs@.len() - i,
    {
        let b = xs[i] as u128;
        let sh: u128 = 32 * (i as u128);
        proof {
            lemma_new_lane32(v, b, i as u128);
            assert forall|k: int| 0 <= k < i implies #[trigger] lane32(v | (b << sh), k as u128) == xs@[k] as u128 by {
                lemma_set_lane32(v, b, i as u128, k as u128);
            }
        }
        v = v | (b << sh);
        i = i + 1;
    }
    proof {
        lemma_empty_lane32(v, i as u128, 0);
        assert forall|k: int| xs@.len() <= k < 3 implies #[trigger] lane32(v, k as u128) == 0 by {
            lemma_empty_lane32(v, i as u128, k as u128);
        }
    }
    v
}

/// The 32-bit two's complement lanes of the numbers `xs`.
fn twos_lanes32(xs: &[i32]) -> (res: Vec<u32>)
    ensures
        res@.len() == xs@.len(),
        forall|k: int| 0 <= k < xs@.len() ==> res@[k] as u128 == twos32(xs@[k] as int),
{
    let mut out: Vec<u32> = Vec::new();
    let mut i: usize = 0;
    while i < xs.len()
        invariant
            i <= xs@.len(),
            out@.len() == i,
            forall|k: int| 0 <= k < i ==> out@[k] as u128 == twos32(xs@[k] as int),
        decreases xs@.len() - i,
    {
        let x = xs[i];
        let b: u32 = if x < 0 {
            (x as i64 + 4294967296) as u32
        } else {
            x as u32
        };
        out.push(b);
        i = i + 1;
    }
    out
}

// ---------------------------------------------------------------------------
// Strings and tuples.

/// The value has the string tag.
pub open spec fn is_string(v: u128) -> bool {
    tag_field(v) == tag_code(Tag::String) as u128
}

/// The value has the tuple tag.
pub open spec fn is_tuple(v: u128) -> bool {
    tag_field(v) == tag_code(Tag::Tuple) as u128
}

/// The first position in `[i, end)` where `buf` holds `z`.
pub open spec fn first_at<T>(buf: Seq<T>, z: T, i: int, end: int) -> Option<int>
    decreases end - i,
{
    if i >= end {
        None
    } else if buf[i] == z {
        Some(i)
    } else {
        first_at(buf, z, i + 1, end)
    }
}

/// `buf` with `x` written over the first `z` in `[start, end)`, if there is one.
pub open spec fn push_into<T>(buf: Seq<T>, z: T, start: int, end: int, x: T) -> Seq<T> {
    match first_at(buf, z, start, end) {
        Some(i) => buf.update(i, x),
        None => buf,
    }
}

/// `buf` after writing the items `xs`, in order, each over the first `z` in
/// `[start, end)`: what filling a container with `push` leaves.
pub open spec fn pushes<T>(buf: Seq<T>, z: T, start: int, end: int, xs: Seq<T>) -> Seq<T>
    decreases xs.len(),
{
    if xs.len() == 0 {
        buf
    } else {
        push_into(pushes(buf, z, start, end, xs.drop_last()), z, start, end, xs.last())
    }
}

/// Pushing keeps the length of the buffer.
pub proof fn lemma_pushes_len<T>(buf: Seq<T>, z: T, start: int, end: int, xs: Seq<T>)
    requires
        0 <= start,
        end <= buf.len(),
    ensures
        pushes(buf, z, start, end, xs).len() == buf.len(),
    decreases xs.len(),
{
    if xs.len() > 0 {
        lemma_pushes_len(buf, z, start, end, xs.drop_last());
        lemma_first_at_range(pushes(buf, z, start, end, xs.drop_last()), z, start, end);
    }
}

/// A first position lies in the range searched and holds what was searched for.
pub proof fn lemma_first_at_range<T>(buf: Seq<T>, z: T, i: int, end: int)
    ensures
        first_at(buf, z, i, end) is Some ==> i <= first_at(buf, z, i, end).unwrap() < end
            && buf[first_at(buf, z, i, end).unwrap()] == z,
    decreases end - i,
{
    if i < end {
        lemma_first_at_range(buf, z, i + 1, end);
    }
}

/// The first `z` from `i` on is at `k` when none lies in `[i, k)`.
pub proof fn lemma_first_at<T>(buf: Seq<T>, z: T, i: int, k: int, end: int)
    requires
        i <= k < end,
        buf[k] == z,
        forall|j: int| i <= j < k ==> buf[j] != z,
    ensures
        first_at(buf, z, i, end) == Some(k),
    decreases k - i,
{
    if i < k {
        lemma_first_at(buf, z, i + 1, k, end);
    }
}

/// Pushing items that are never `z` into a container of `n` free places
/// fills it from the front: the items, then the free places left.
pub proof fn lemma_pushes_fill<T>(n: nat, z: T, xs: Seq<T>)
    requires
        xs.len() <= n,
        forall|j: int| 0 <= j < xs.len() ==> xs[j] != z,
    ensures
        pushes(Seq::new(n, |i: int| z), z, 0, n as int, xs) == xs + Seq::new((n - xs.len()) as nat, |i: int| z),
    decreases xs.len(),
{
    if xs.len() > 0 {
        let ys = xs.drop_last();
        lemma_pushes_fill(n, z, ys);
        let b = ys + Seq::new((n - ys.len()) as nat, |i: int| z);
        assert forall|j: int| 0 <= j < ys.len() implies b[j] != z by {
            assert(b[j] == xs[j]);
        }
        lemma_first_at(b, z, 0, ys.len() as int, n as int);
        assert(b.update(ys.len() as int, xs.last()) =~= xs + Seq::new((n - xs.len()) as nat, |i: int| z));
    } else {
        assert(Seq::new(n, |i: int| z) =~= xs + Seq::new((n - xs.len()) as nat, |i: int| z));
    }
}

/// The characters `[start, end)` of a string buffer; none when the range is empty.
pub open spec fn literal_chars(buf: Seq<char>, start: int, end: int) -> Seq<char> {
    if start < end {
        buf.subrange(start, end)
    } else {
        Seq::empty()
    }
}

/// The numbers `from`, `from + step`, ... below `to`.
pub open spec fn range_items(from: int, to: int, step: int) -> Seq<int>
    decreases if from < to { to - from } else { 0 },
{
    if from >= to || step <= 0 {
        Seq::empty()
    } else {
        seq![from] + range_items(from + step, to, step)
    }
}

/// The name code of the items of a range: that of `U64`.
pub open spec fn range_item_name(names: Seq<Seq<char>>) -> int {
    intern_code(names, "U64"@)
}

/// The buffer of a range: the numbers as `U64` values named by `code`.
pub open spec fn range_buffer(from: int, to: int, step: int, code: int) -> Seq<u128> {
    Seq::new(
        range_items(from, to, step).len(),
        |k: int| packed(tag_code(Tag::U64) as u128, code as u128, range_items(from, to, step)[k] as u128),
    )
}

/// A range's items are at least `from` and below `to`.
pub proof fn lemma_range_items(from: int, to: int, step: int)
    ensures
        forall|k: int| 0 <= k < range_items(from, to, step).len() ==> from <= #[trigger] range_items(from, to, step)[k] < to,
    decreases if from < to { to - from } else { 0 },
{
    if from < to && step > 0 {
        lemma_range_items(from + step, to, step);
        let r = range_items(from, to, step);
        let t = range_items(from + step, to, step);
        assert forall|k: int| 0 <= k < r.len() implies from <= #[trigger] r[k] < to by {
            if k > 0 {
                assert(r[k] == t[k - 1]);
            }
        }
    }
}

/// A range is the arithmetic progression from `from` by `step` that stops
/// at the first number not below `to`: its `k`th item is `from + k * step`,
/// every item is below `to`, and one more step would not be.
pub proof fn lemma_range_progression(from: int, to: int, step: int)
    requires
        step > 0,
    ensures
        forall|k: int| 0 <= k < range_items(from, to, step).len() ==> #[trigger] range_items(from, to, step)[k] == from + k * step
            && from + k * step < to,
        from + range_items(from, to, step).len() * step >= to,
    decreases if from < to { to - from } else { 0 },
{
    let r = range_items(from, to, step);
    if from < to {
        lemma_range_progression(from + step, to, step);
        let t = range_items(from + step, to, step);
        assert forall|k: int| 0 <= k < r.len() implies #[trigger] r[k] == from + k * step && from + k * step < to by {
            if k > 0 {
                assert(r[k] == t[k - 1]);
                assert(from + step + (k - 1) * step == from + k * step) by (nonlinear_arith);
            }
        }
        assert(from + step + t.len() * step == from + r.len() * step) by (nonlinear_arith)
            requires
                r.len() == t.len() + 1,
        ;
    }
}

/// Writing `x` over the first free place: where `[start, end)` holds a `z`,
/// the first one becomes `x` and nothing else changes; where it holds none,
/// nothing changes.
pub proof fn lemma_push_into<T>(buf: Seq<T>, z: T, start: int, end: int, x: T)
    requires
        0 <= start <= end <= buf.len(),
    ensures
        (forall|j: int| start <= j < end ==> buf[j] != z) ==> push_into(buf, z, start, end, x) == buf,
        forall|k: int| start <= k < end && buf[k] == z && (forall|j: int| start <= j < k ==> buf[j] != z)
            ==> push_into(buf, z, start, end, x) == #[trigger] buf.update(k, x),
{
    lemma_first_at_range(buf, z, start, end);
    assert forall|k: int| start <= k < end && buf[k] == z && (forall|j: int| start <= j < k ==> buf[j] != z)
        implies push_into(buf, z, start, end, x) == #[trigger] buf.update(k, x) by {
        lemma_first_at(buf, z, start, k, end);
    }
    if forall|j: int| start <= j < end ==> buf[j] != z {
        if first_at(buf, z, start, end) is Some {
            let i = first_at(buf, z, start, end).unwrap();
            assert(buf[i] == z);
        }
    }
}

/// The reference to `[start, end)` of the heap buffer `handle`, with the
/// given tag code and name code.
pub open spec fn ref_value(tag: u128, name: u128, start: u128, end: u128, handle: u128) -> u128 {
    packed(tag, name, packed_ref(start, end, handle))
}

// ---------------------------------------------------------------------------
// The heap.

/// The contents of a heap: the character buffers of strings, the value
/// buffers of tuples, and the table of names.
pub struct HeapView {
    pub strings: Seq<Seq<char>>,
    pub tuples: Seq<Seq<u128>>,
    pub names: Seq<Seq<char>>,
}

/// The buffers that strings and tuples refer to, and the names of values.
pub struct Heap {
    strings: Vec<Vec<char>>,
    tuples: Vec<Vec<u128>>,
    names: Vec<String>,
}

impl Heap {
    /// The name table never outgrows the 16-bit name codes.
    #[verifier::type_invariant]
    closed spec fn wf(self) -> bool {
        self.names@.len() <= name_capacity()
    }
}

impl View for Heap {
    type V = HeapView;

    closed spec fn view(&self) -> HeapView {
        HeapView {
            strings: self.strings@.map_values(|b: Vec<char>| b@),
            tuples: self.tuples@.map_values(|b: Vec<u128>| b@),
            names: self.names@.map_values(|n: String| n@),
        }
    }
}

/// The position of the first entry `nom` in a name table.
pub open spec fn find_name(names: Seq<Seq<char>>, nom: Seq<char>) -> Option<int>
    decreases names.len(),
{
    if names.len() == 0 {
        None
    } else {
        match find_name(names.drop_last(), nom) {
            Some(i) => Some(i),
            None => if names.last() == nom {
                Some(names.len() - 1)
            } else {
                None
            },
        }
    }
}

/// The name table can hold this many names; code 0 stands for no name.
pub open spec fn name_capacity() -> nat {
    0xffff
}

/// The name code that interning `nom` into `names` gives: one more than the
/// position of its first entry, else one more than the position of a new
/// entry at the end, else (the table being full) 0, no name.
pub open spec fn intern_code(names: Seq<Seq<char>>, nom: Seq<char>) -> int {
    match find_name(names, nom) {
        Some(i) => i + 1,
        None => if names.len() < name_capacity() {
            names.len() + 1int
        } else {
            0
        },
    }
}

/// What every heap keeps: at most `name_capacity()` names, and fewer
/// buffers of each kind than 64-bit handles can tell apart.
pub open spec fn heap_bounded(h: HeapView) -> bool {
    &&& h.names.len() <= name_capacity()
    &&& h.strings.len() < 0x1_0000_0000_0000_0000
    &&& h.tuples.len() < 0x1_0000_0000_0000_0000
}

/// A name code is 0 or the position of an entry of the table, counted
/// from 1: it fits in 16 bits wherever the table does.
pub proof fn lemma_intern_code_bounded(names: Seq<Seq<char>>, nom: Seq<char>)
    requires
        names.len() <= name_capacity(),
    ensures
        0 <= intern_code(names, nom) <= name_capacity(),
        intern_names(names, nom).len() <= name_capacity(),
{
    lemma_find_name(names, nom);
}

/// The name table after interning `nom`.
pub open spec fn intern_names(names: Seq<Seq<char>>, nom: Seq<char>) -> Seq<Seq<char>> {
    match find_name(names, nom) {
        Some(_) => names,
        None => if names.len() < name_capacity() {
            names.push(nom)
        } else {
            names
        },
    }
}

/// `h1` is `h0` after interning `nom`, which got the name code `code`.
pub open spec fn interns(h0: HeapView, h1: HeapView, nom: Seq<char>, code: u128) -> bool {
    &&& h1.strings == h0.strings
    &&& h1.tuples == h0.tuples
    &&& code == intern_code(h0.names, nom)
    &&& h1.names == intern_names(h0.names, nom)
}

/// The name of a value: its entry in the name table, or `_`.
pub open spec fn value_name(h: HeapView, v: u128) -> Seq<char> {
    let c = name_field(v);
    if 1 <= c <= h.names.len() {
        h.names[c - 1]
    } else {
        "_"@
    }
}

/// Where interning gave a name code, that code names `nom`; it gives none
/// only when the table is full and holds no entry `nom`.
pub proof fn lemma_interns(h0: HeapView, h1: HeapView, nom: Seq<char>, code: u128)
    requires
        interns(h0, h1, nom, code),
    ensures
        code > 0 ==> 1 <= code <= h1.names.len() && h1.names[code - 1] == nom,
        code == 0 <==> find_name(h0.names, nom) is None && h0.names.len() >= name_capacity(),
{
    lemma_find_name(h0.names, nom);
}

/// A found position holds the name; the name is found where it occurs.
pub proof fn lemma_find_name(names: Seq<Seq<char>>, nom: Seq<char>)
    ensures
        find_name(names, nom) is Some ==> 0 <= find_name(names, nom).unwrap() < names.len()
            && names[find_name(names, nom).unwrap()] == nom,
        find_name(names, nom) is None ==> forall|i: int| 0 <= i < names.len() ==> names[i] != nom,
    decreases names.len(),
{
    if names.len() > 0 {
        lemma_find_name(names.drop_last(), nom);
        if find_name(names, nom) is None {
            assert forall|i: int| 0 <= i < names.len() implies names[i] != nom by {
                if i < names.len() - 1 {
                    assert(names[i] == names.drop_last()[i]);
                }
            }
        }
    }
}

impl Heap {
    /// An empty heap.
    pub fn new() -> (res: Heap)
        ensures
            res@.strings == Seq::<Seq<char>>::empty(),
            res@.tuples == Seq::<Seq<u128>>::empty(),
            res@.names == Seq::<Seq<char>>::empty(),
    {
        let h = Heap { strings: Vec::new(), tuples: Vec::new(), names: Vec::new() };
        assert(h@.strings =~= Seq::<Seq<char>>::empty());
        assert(h@.tuples =~= Seq::<Seq<u128>>::empty());
        assert(h@.names =~= Seq::<Seq<char>>::empty());
        h
    }

    /// Every heap keeps its name table within the 16-bit name codes and its
    /// buffers' handles within 64 bits.
    pub fn bounded(&self)
        ensures
            heap_bounded(self@),
    {
        proof {
            use_type_invariant(self);
        }
        let _s: usize = self.strings.len();
        let _t: usize = self.tuples.len();
    }

    /// The name code of `nom`, entered into the name table if it is new and
    /// there is room; 0 when the table is full.
    pub fn intern(&mut self, nom: &str) -> (res: u16)
        ensures
            interns(old(self)@, final(self)@, nom@, res as u128),
    {
        proof {
            use_type_invariant(&*self);
        }
        let ghost names0 = old(self)@.names;
        let n = self.names.len();
        let mut k: usize = 0;
        while k < n
            invariant
                n == self.names@.len(),
                n <= name_capacity(),
                k <= n,
                self@ == old(self)@,
                names0 == self@.names,
                find_name(names0.subrange(0, k as int), nom@) is None,
            decreases n - k,
        {
            let found = self.names[k].as_str().to_string() == nom.to_string();
            proof {
                assert(names0.subrange(0, k + 1).drop_last() =~= names0.subrange(0, k as int));
                assert(names0[k as int] == self.names@[k as int]@);
            }
            if found {
                proof {
                    assert(find_name(names0.subrange(0, k + 1), nom@) == Some(k as int));
                    lemma_find_name(names0, nom@);
                    lemma_find_prefix(names0, nom@, k as int + 1);
                }
                return (k + 1) as u16;
            }
            k = k + 1;
        }
        assert(names0.subrange(0, n as int) =~= names0);
        if n < 0xffff {
            let mut names: Vec<String> = Vec::new();
            std::mem::swap(&mut names, &mut self.names);
            names.push(nom.to_string());
            self.names = names;
            assert(self@.names =~= names0.push(nom@));
            assert(self@.strings =~= old(self)@.strings);
            assert(self@.tuples =~= old(self)@.tuples);
            (n + 1) as u16
        } else {
            0
        }
    }
}

impl Heap {
    /// Adds the string buffer `buf`; its handle is its position.
    fn add_string(&mut self, buf: Vec<char>) -> (res: u64)
        ensures
            final(self)@.strings == old(self)@.strings.push(buf@),
            final(self)@.tuples == old(self)@.tuples,
            final(self)@.names == old(self)@.names,
            res == old(self)@.strings.len(),
    {
        proof {
            use_type_invariant(&*self);
        }
        let h = self.strings.len() as u64;
        let mut strings: Vec<Vec<char>> = Vec::new();
        std::mem::swap(&mut strings, &mut self.strings);
        strings.push(buf);
        self.strings = strings;
        assert(self@.strings =~= old(self)@.strings.push(buf@));
        h
    }

    /// Adds the tuple buffer `buf`; its handle is its position.
    fn add_tuple(&mut self, buf: Vec<u128>) -> (res: u64)
        ensures
            final(self)@.tuples == old(self)@.tuples.push(buf@),
            final(self)@.strings == old(self)@.strings,
            final(self)@.names == old(self)@.names,
            res == old(self)@.tuples.len(),
    {
        proof {
            use_type_invariant(&*self);
        }
        let h = self.tuples.len() as u64;
        let mut tuples: Vec<Vec<u128>> = Vec::new();
        std::mem::swap(&mut tuples, &mut self.tuples);
        tuples.push(buf);
        self.tuples = tuples;
        assert(self@.tuples =~= old(self)@.tuples.push(buf@));
        h
    }

    /// Overwrites item `i` of tuple buffer `h` with `x`.
    fn set_tuple_item(&mut self, h: usize, i: usize, x: u128)
        requires
            h < old(self)@.tuples.len(),
            i < old(self)@.tuples[h as int].len(),
        ensures
            final(self)@.tuples == old(self)@.tuples.update(h as int, old(self)@.tuples[h as int].update(i as int, x)),
            final(self)@.strings == old(self)@.strings,
            final(self)@.names == old(self)@.names,
    {
        proof {
            use_type_invariant(&*self);
        }
        let mut tuples: Vec<Vec<u128>> = Vec::new();
        std::mem::swap(&mut tuples, &mut self.tuples);
        let mut buf: Vec<u128> = Vec::new();
        std::mem::swap(&mut buf, &mut tuples[h]);
        assert(buf@ == old(self)@.tuples[h as int]);
        buf.set(i, x);
        tuples.set(h, buf);
        self.tuples = tuples;
        assert(self@.tuples =~= old(self)@.tuples.update(h as int, old(self)@.tuples[h as int].update(i as int, x)));
    }

    /// Overwrites character `i` of string buffer `h` with `c`.
    fn set_string_item(&mut self, h: usize, i: usize, c: char)
        requires
            h < old(self)@.strings.len(),
            i < old(self)@.strings[h as int].len(),
        ensures
            final(self)@.strings == old(self)@.strings.update(h as int, old(self)@.strings[h as int].update(i as int, c)),
            final(self)@.tuples == old(self)@.tuples,
            final(self)@.names == old(self)@.names,
    {
        proof {
            use_type_invariant(&*self);
        }
        let mut strings: Vec<Vec<char>> = Vec::new();
        std::mem::swap(&mut strings, &mut self.strings);
        let mut buf: Vec<char> = Vec::new();
        std::mem::swap(&mut buf, &mut strings[h]);
        assert(buf@ == old(self)@.strings[h as int]);
        buf.set(i, c);
        strings.set(h, buf);
        self.strings = strings;
        assert(self@.strings =~= old(self)@.strings.update(h as int, old(self)@.strings[h as int].update(i as int, c)));
    }

    /// The number of string buffers.
    pub fn string_count(&self) -> (res: usize)
        ensures
            res == self@.strings.len(),
    {
        self.strings.len()
    }

    /// The number of tuple buffers.
    pub fn tuple_count(&self) -> (res: usize)
        ensures
            res == self@.tuples.len(),
    {
        self.tuples.len()
    }

    /// The length of string buffer `h`.
    pub fn string_len(&self, h: usize) -> (res: usize)
        requires
            h < self@.strings.len(),
        ensures
            res == self@.strings[h as int].len(),
    {
        self.strings[h].len()
    }

    /// The length of tuple buffer `h`.
    pub fn tuple_len(&self, h: usize) -> (res: usize)
        requires
            h < self@.tuples.len(),
        ensures
            res == self@.tuples[h as int].len(),
    {
        self.tuples[h].len()
    }

    /// Character `i` of string buffer `h`.
    pub fn string_item(&self, h: usize, i: usize) -> (res: char)
        requires
            h < self@.strings.len(),
            i < self@.strings[h as int].len(),
        ensures
            res == self@.strings[h as int][i as int],
    {
        self.strings[h][i]
    }

    /// Item `i` of tuple buffer `h`.
    pub fn tuple_item(&self, h: usize, i: usize) -> (res: u128)
        requires
            h < self@.tuples.len(),
            i < self@.tuples[h as int].len(),
        ensures
            res == self@.tuples[h as int][i as int],
    {
        self.tuples[h][i]
    }
}

/// Where a name first occurs in a prefix, it first occurs there in the whole table.
pub proof fn lemma_find_prefix(names: Seq<Seq<char>>, nom: Seq<char>, k: int)
    requires
        0 <= k <= names.len(),
        find_name(names.subrange(0, k), nom) is Some,
    ensures
        find_name(names, nom) == find_name(names.subrange(0, k), nom),
    decreases names.len() - k,
{
    if k < names.len() {
        assert(names.subrange(0, k + 1).drop_last() =~= names.subrange(0, k));
        lemma_find_prefix(names, nom, k + 1);
    } else {
        assert(names.subrange(0, k) =~= names);
    }
}

// ---------------------------------------------------------------------------
// Values.

/// A packed value.
#[derive(Clone, Copy)]
pub struct Value(pub u128);

impl Value {
    /// The value whose low and high 64 bits are `lo` and `hi`.
    pub fn from_lohi(lo: u64, hi: u64) -> (res: Value)
        ensures
            res.0 == join64(lo, hi),
    {
        Value(((hi as u128) << 64u32) | (lo as u128))
    }

    /// The low and high 64 bits of the value.
    pub fn lohi(&self) -> (res: (u64, u64))
        ensures
            res.0 == low64(self.0),
            res.1 == self.0 >> 64u128,
            join64(res.0, res.1) == self.0,
    {
        proof {
            lemma_halves(self.0, 0, 0);
        }
        let lo = (self.0 & 0xffff_ffff_ffff_ffff) as u64;
        let hi = (self.0 >> 64u32) as u64;
        (lo, hi)
    }

    /// The value with tag code `tag`, name code `name` and slots `slots`.
    pub fn from_parts(tag: u16, name: u16, slots: u128) -> (res: Value)
        ensures
            res.0 == packed(tag as u128, name as u128, slots),
    {
        Value(((tag as u128) << 112u32) | ((name as u128) << 96u32) | slots)
    }

    /// The tag code, the name code and the slots of the value.
    pub fn to_parts(&self) -> (res: (u16, u16, u128))
        ensures
            res.0 == tag_field(self.0),
            res.1 == name_field(self.0),
            res.2 == slots_field(self.0),
            packed(res.0 as u128, res.1 as u128, res.2) == self.0,
    {
        proof {
            lemma_packed(self.0, 0, 0, 0);
        }
        let tag = (self.0 >> 112u32) as u16;
        let name = ((self.0 >> 96u32) & 0xffff) as u16;
        let slots = self.0 & 0xffff_ffff_ffff_ffff_ffff_ffff;
        (tag, name, slots)
    }

    /// The value whose bits are all zero: the tag `Zero`.
    pub fn zero() -> (res: Value)
        ensures
            res.0 == 0,
    {
        Value(0)
    }

    /// The name of the value: its entry in the heap's name table, or `_`.
    pub fn name(&self, heap: &Heap) -> (res: String)
        ensures
            res@ == value_name(heap@, self.0),
    {
        proof {
            lemma_packed(self.0, 0, 0, 0);
        }
        let c = ((self.0 >> 96u32) & 0xffff) as usize;
        if 1 <= c && c <= heap.names.len() {
            let n = heap.names[c - 1].clone();
            assert(heap@.names[c - 1] == heap.names@[c - 1]@);
            n
        } else {
            "_".to_string()
        }
    }
}


impl Value {
    /// The unit value named `nom`.
    pub fn unit(heap: &mut Heap, nom: &str) -> (res: Value)
        ensures
            interns(old(heap)@, final(heap)@, nom@, name_field(res.0)),
            res.0 == packed(tag_code(Tag::Unit) as u128, name_field(res.0), 0),
    {
        let name = heap.intern(nom);
        let v = Value::from_parts(Tag::Unit.code(), name, 0);
        proof {
            lemma_packed(v.0, tag_code(Tag::Unit) as u128, name as u128, 0);
        }
        v
    }

    /// The vector of the 8-bit numbers `slots`, one per lane from
    /// the low end, named `nom`; the unit value when `slots` is empty.
    pub fn u8s(heap: &mut Heap, slots: &[u8], nom: &str) -> (res: Value)
        requires
            slots@.len() <= 12,
        ensures
            interns(old(heap)@, final(heap)@, nom@, name_field(res.0)),
            tag_field(res.0) == vector_tag(Tag::U8, slots@.len()),
            forall|k: int|
                0 <= k < slots@.len() ==> #[trigger] slot_value(res.0, tag_code(Tag::U8), k as u128)
                    == slots@[k],
            forall|k: int| slots@.len() <= k < 12 ==> #[trigger] lane8(res.0, k as u128) == 0,
    {
        let name = heap.intern(nom);
        let bits = pack8(slots);
        let n = slots.len() as u16;
        let tag: u16 = if n == 0 {
            Tag::Unit.code()
        } else {
            Tag::U8.code() + n - 1
        };
        let v = Value::from_parts(tag, name, bits);
        proof {
            lemma_packed(v.0, tag as u128, name as u128, bits);
            assert forall|k: int| 0 <= k < 12 implies #[trigger] lane8(v.0, k as u128) == lane8(bits, k as u128) by {
                lemma_packed_lane8(tag as u128, name as u128, bits, k as u128);
            }
            assert forall|k: int| 0 <= k < slots@.len() implies #[trigger] slot_value(v.0, tag_code(Tag::U8), k as u128) == slots@[k] by {
                assert(lane8(v.0, k as u128) == lane8(bits, k as u128));
            }
        }
        v
    }

    /// The 8-bit number `slot`, named `nom`.
    pub fn u8(heap: &mut Heap, slot: u8, nom: &str) -> (res: Value)
        ensures
            interns(old(heap)@, final(heap)@, nom@, name_field(res.0)),
            tag_field(res.0) == tag_code(Tag::U8),
            slot_value(res.0, tag_code(Tag::U8), 0) == slot,
            forall|k: int| 1 <= k < 12 ==> #[trigger] lane8(res.0, k as u128) == 0,
    {
        let xs = vec![slot];
        let v = Value::u8s(heap, xs.as_slice(), nom);
        let ghost k: int = 0;
        assert(slot_value(v.0, tag_code(Tag::U8), k as u128) == xs@[k]);
        v
    }

    /// The vector of the 8-bit signed numbers `slots`, in two's complement one per lane from
    /// the low end, named `nom`; the unit value when `slots` is empty.
    pub fn i8s(heap: &mut Heap, slots: &[i8], nom: &str) -> (res: Value)
        requires
            slots@.len() <= 12,
        ensures
            interns(old(heap)@, final(heap)@, nom@, name_field(res.0)),
            tag_field(res.0) == vector_tag(Tag::I8, slots@.len()),
            forall|k: int|
                0 <= k < slots@.len() ==> #[trigger] slot_value(res.0, tag_code(Tag::I8), k as u128)
                    == slots@[k],
            forall|k: int| slots@.len() <= k < 12 ==> #[trigger] lane8(res.0, k as u128) == 0,
    {
        let name = heap.intern(nom);
        let lanes = twos_lanes8(slots);
        let bits = pack8(lanes.as_slice());
        let n = slots.len() as u16;
        let tag: u16 = if n == 0 {
            Tag::Unit.code()
        } else {
            Tag::I8.code() + n - 1
        };
        let v = Value::from_parts(tag, name, bits);
        proof {
            lemma_packed(v.0, tag as u128, name as u128, bits);
            assert forall|k: int| 0 <= k < 12 implies #[trigger] lane8(v.0, k as u128) == lane8(bits, k as u128) by {
                lemma_packed_lane8(tag as u128, name as u128, bits, k as u128);
            }
            assert forall|k: int| 0 <= k < slots@.len() implies #[trigger] slot_value(v.0, tag_code(Tag::I8), k as u128) == slots@[k] by {
                assert(lane8(v.0, k as u128) == lane8(bits, k as u128));
            }
        }
        v
    }

    /// The 8-bit signed number `slot`, named `nom`.
    pub fn i8(heap: &mut Heap, slot: i8, nom: &str) -> (res: Value)
        ensures
            interns(old(heap)@, final(heap)@, nom@, name_field(res.0)),
            tag_field(res.0) == tag_code(Tag::I8),
            slot_value(res.0, tag_code(Tag::I8), 0) == slot,
            forall|k: int| 1 <= k < 12 ==> #[trigger] lane8(res.0, k as u128) == 0,
    {
        let xs = vec![slot];
        let v = Value::i8s(heap, xs.as_slice(), nom);
        let ghost k: int = 0;
        assert(slot_value(v.0, tag_code(Tag::I8), k as u128) == xs@[k]);
        v
    }

    /// The vector of the 16-bit numbers `slots`, one per lane from
    /// the low end, named `nom`; the unit value when `slots` is empty.
    pub fn u16s(heap: &mut Heap, slots: &[u16], nom: &str) -> (res: Value)
        requires
            slots@.len() <= 6,
        ensures
            interns(old(heap)@, final(heap)@, nom@, name_field(res.0)),
            tag_field(res.0) == vector_tag(Tag::U16, slots@.len()),
            forall|k: int|
                0 <= k < slots@.len() ==> #[trigger] slot_value(res.0, tag_code(Tag::U16), k as u128)
                    == slots@[k],
            forall|k: int| slots@.len() <= k < 6 ==> #[trigger] lane16(res.0, k as u128) == 0,
    {
        let name = heap.intern(nom);
        let bits = pack16(slots);
        let n = slots.len() as u16;
        let tag: u16 = if n == 0 {
            Tag::Unit.code()
        } else {
            Tag::U16.code() + n - 1
        };
        let v = Value::from_parts(tag, name, bits);
        proof {
            lemma_packed(v.0, tag as u128, name as u128, bits);
            assert forall|k: int| 0 <= k < 6 implies #[trigger] lane16(v.0, k as u128) == lane16(bits, k as u128) by {
                lemma_packed_lane16(tag as u128, name as u128, bits, k as u128);
            }
            assert forall|k: int| 0 <= k < slots@.len() implies #[trigger] slot_value(v.0, tag_code(Tag::U16), k as u128) == slots@[k] by {
                assert(lane16(v.0, k as u128) == lane16(bits, k as u128));
            }
        }
        v
    }

    /// The 16-bit number `slot`, named `nom`.
    pub fn u16(heap: &mut Heap, slot: u16, nom: &str) -> (res: Value)
        ensures
            interns(old(heap)@, final(heap)@, nom@, name_field(res.0)),
            tag_field(res.0) == tag_code(Tag::U16),
            slot_value(res.0, tag_code(Tag::U16), 0) == slot,
            forall|k: int| 1 <= k < 6 ==> #[trigger] lane16(res.0, k as u128) == 0,
    {
        let xs = vec![slot];
        let v = Value::u16s(heap, xs.as_slice(), nom);
        let ghost k: int = 0;
        assert(slot_value(v.0, tag_code(Tag::U16), k as u128) == xs@[k]);
        v
    }

    /// The vector of the 16-bit signed numbers `slots`, in two's complement one per lane from
    /// the low end, named `nom`; the unit value when `slots` is empty.
    pub fn i16s(heap: &mut Heap, slots: &[i16], nom: &str) -> (res: Value)
        requires
            slots@.len() <= 6,
        ensures
            interns(old(heap)@, final(heap)@, nom@, name_field(res.0)),
            tag_field(res.0) == vector_tag(Tag::I16, slots@.len()),
            forall|k: int|
                0 <= k < slots@.len() ==> #[trigger] slot_value(res.0, tag_code(Tag::I16), k as u128)
                    == slots@[k],
            forall|k: int| slots@.len() <= k < 6 ==> #[trigger] lane16(res.0, k as u128) == 0,
    {
        let name = heap.intern(nom);
        let lanes = twos_lanes16(slots);
        let bits = pack16(lanes.as_slice());
        let n = slots.len() as u16;
        let tag: u16 = if n == 0 {
            Tag::Unit.code()
        } else {
            Tag::I16.code() + n - 1
        };
        let v = Value::from_parts(tag, name, bits);
        proof {
            lemma_packed(v.0, tag as u128, name as u128, bits);
            assert forall|k: int| 0 <= k < 6 implies #[trigger] lane16(v.0, k as u128) == lane16(bits, k as u128) by {
                lemma_packed_lane16(tag as u128, name as u128, bits, k as u128);
            }
            assert forall|k: int| 0 <= k < slots@.len() implies #[trigger] slot_value(v.0, tag_code(Tag::I16), k as u128) == slots@[k] by {
                assert(lane16(v.0, k as u128) == lane16(bits, k as u128));
            }
        }
        v
    }

    /// The 16-bit signed number `slot`, named `nom`.
    pub fn i16(heap: &mut Heap, slot: i16, nom: &str) -> (res: Value)
        ensures
            interns(old(heap)@, final(heap)@, nom@, name_field(res.0)),
            tag_field(res.0) == tag_code(Tag::I16),
            slot_value(res.0, tag_code(Tag::I16), 0) == slot,
            forall|k: int| 1 <= k < 6 ==> #[trigger] lane16(res.0, k as u128) == 0,
    {
        let xs = vec![slot];
        let v = Value::i16s(heap, xs.as_slice(), nom);
        let ghost k: int = 0;
        assert(slot_value(v.0, tag_code(Tag::I16), k as u128) == xs@[k]);
        v
    }

    /// The vector of the 32-bit numbers `slots`, one per lane from
    /// the low end, named `nom`; the unit value when `slots` is empty.
    pub fn u32s(heap: &mut Heap, slots: &[u32], nom: &str) -> (res: Value)
        requires
            slots@.len() <= 3,
        ensures
            interns(old(heap)@, final(heap)@, nom@, name_field(res.0)),
            tag_field(res.0) == vector_tag(Tag::U32, slots@.len()),
            forall|k: int|
                0 <= k < slots@.len() ==> #[trigger] slot_value(res.0, tag_code(Tag::U32), k as u128)
                    == slots@[k],
            forall|k: int| slots@.len() <= k < 3 ==> #[trigger] lane32(res.0, k as u128) == 0,
    {
        let name = heap.intern(nom);
        let bits = pack32(slots);
        let n = slots.len() as u16;
        let tag: u16 = if n == 0 {
            Tag::Unit.code()
        } else {
            Tag::U32.code() + n - 1
        };
        let v = Value::from_parts(tag, name, bits);
        proof {
            lemma_packed(v.0, tag as u128, name as u128, bits);
            assert forall|k: int| 0 <= k < 3 implies #[trigger] lane32(v.0, k as u128) == lane32(bits, k as u128) by {
                lemma_packed_lane32(tag as u128, name as u128, bits, k as u128);
            }
            assert forall|k: int| 0 <= k < slots@.len() implies #[trigger] slot_value(v.0, tag_code(Tag::U32), k as u128) == slots@[k] by {
                assert(lane32(v.0, k as u128) == lane32(bits, k as u128));
            }
        }
        v
    }

    /// The 32-bit number `slot`, named `nom`.
    pub fn u32(heap: &mut Heap, slot: u32, nom: &str) -> (res: Value)
        ensures
            interns(old(heap)@, final(heap)@, nom@, name_field(res.0)),
            tag_field(res.0) == tag_code(Tag::U32),
            slot_value(res.0, tag_code(Tag::U32), 0) == slot,
            forall|k: int| 1 <= k < 3 ==> #[trigger] lane32(res.0, k as u128) == 0,
    {
        let xs = vec![slot];
        let v = Value::u32s(heap, xs.as_slice(), nom);
        let ghost k: int = 0;
        assert(slot_value(v.0, tag_code(Tag::U32), k as u128) == xs@[k]);
        v
    }

    /// The vector of the 32-bit signed numbers `slots`, in two's complement one per lane from
    /// the low end, named `nom`; the unit value when `slots` is empty.
    pub fn i32s(heap: &mut Heap, slots: &[i32], nom: &str) -> (res: Value)
        requires
            slots@.len() <= 3,
        ensures
            interns(old(heap)@, final(heap)@, nom@, name_field(res.0)),
            tag_field(res.0) == vector_tag(Tag::I32, slots@.len()),
            forall|k: int|
                0 <= k < slots@.len() ==> #[trigger] slot_value(res.0, tag_code(Tag::I32), k as u128)
                    == slots@[k],
            forall|k: int| slots@.len() <= k < 3 ==> #[trigger] lane32(res.0, k as u128) == 0,
    {
        let name = heap.intern(nom);
        let lanes = twos_lanes32(slots);
        let bits = pack32(lanes.as_slice());
        let n = slots.len() as u16;
        let tag: u16 = if n == 0 {
            Tag::Unit.code()
        } else {
            Tag::I32.code() + n - 1
        };
        let v = Value::from_parts(tag, name, bits);
        proof {
            lemma_packed(v.0, tag as u128, name as u128, bits);
            assert forall|k: int| 0 <= k < 3 implies #[trigger] lane32(v.0, k as u128) == lane32(bits, k as u128) by {
                lemma_packed_lane32(tag as u128, name as u128, bits, k as u128);
            }
            assert forall|k: int| 0 <= k < slots@.len() implies #[trigger] slot_value(v.0, tag_code(Tag::I32), k as u128) == slots@[k] by {
                assert(lane32(v.0, k as u128) == lane32(bits, k as u128));
            }
        }
        v
    }

    /// The 32-bit signed number `slot`, named `nom`.
    pub fn i32(heap: &mut Heap, slot: i32, nom: &str) -> (res: Value)
        ensures
            interns(old(heap)@, final(heap)@, nom@, name_field(res.0)),
            tag_field(res.0) == tag_code(Tag::I32),
            slot_value(res.0, tag_code(Tag::I32), 0) == slot,
            forall|k: int| 1 <= k < 3 ==> #[trigger] lane32(res.0, k as u128) == 0,
    {
        let xs = vec![slot];
        let v = Value::i32s(heap, xs.as_slice(), nom);
        let ghost k: int = 0;
        assert(slot_value(v.0, tag_code(Tag::I32), k as u128) == xs@[k]);
        v
    }

    /// The vector of the 32-bit the raw bits of 32-bit floats `slots`, one per lane from
    /// the low end, named `nom`; the unit value when `slots` is empty.
    pub fn f32s_bits(heap: &mut Heap, slots: &[u32], nom: &str) -> (res: Value)
        requires
            slots@.len() <= 3,
        ensures
            interns(old(heap)@, final(heap)@, nom@, name_field(res.0)),
            tag_field(res.0) == vector_tag(Tag::F32, slots@.len()),
            forall|k: int|
                0 <= k < slots@.len() ==> #[trigger] slot_value(res.0, tag_code(Tag::F32), k as u128)
                    == slots@[k],
            forall|k: int| slots@.len() <= k < 3 ==> #[trigger] lane32(res.0, k as u128) == 0,
    {
        let name = heap.intern(nom);
        let bits = pack32(slots);
        let n = slots.len() as u16;
        let tag: u16 = if n == 0 {
            Tag::Unit.code()
        } else {
            Tag::F32.code() + n - 1
        };
        let v = Value::from_parts(tag, name, bits);
        proof {
            lemma_packed(v.0, tag as u128, name as u128, bits);
            assert forall|k: int| 0 <= k < 3 implies #[trigger] lane32(v.0, k as u128) == lane32(bits, k as u128) by {
                lemma_packed_lane32(tag as u128, name as u128, bits, k as u128);
            }
            assert forall|k: int| 0 <= k < slots@.len() implies #[trigger] slot_value(v.0, tag_code(Tag::F32), k as u128) == slots@[k] by {
                assert(lane32(v.0, k as u128) == lane32(bits, k as u128));
            }
        }
        v
    }

    /// The 32-bit float bits `slot`, named `nom`.
    pub fn f32_bits(heap: &mut Heap, slot: u32, nom: &str) -> (res: Value)
        ensures
            interns(old(heap)@, final(heap)@, nom@, name_field(res.0)),
            tag_field(res.0) == tag_code(Tag::F32),
            slot_value(res.0, tag_code(Tag::F32), 0) == slot,
            forall|k: int| 1 <= k < 3 ==> #[trigger] lane32(res.0, k as u128) == 0,
    {
        let xs = vec![slot];
        let v = Value::f32s_bits(heap, xs.as_slice(), nom);
        let ghost k: int = 0;
        assert(slot_value(v.0, tag_code(Tag::F32), k as u128) == xs@[k]);
        v
    }

    /// The 64-bit number `slot`, named `nom`.
    pub fn u64(heap: &mut Heap, slot: u64, nom: &str) -> (res: Value)
        ensures
            interns(old(heap)@, final(heap)@, nom@, name_field(res.0)),
            tag_field(res.0) == tag_code(Tag::U64),
            slots_field(res.0) == slot,
            slot_value(res.0, tag_code(Tag::U64), 0) == slot,
    {
        Value::wide(heap, Tag::U64, slot as u128, nom)
    }

    /// The 64-bit signed number `slot`, in two's complement, named `nom`.
    pub fn i64(heap: &mut Heap, slot: i64, nom: &str) -> (res: Value)
        ensures
            interns(old(heap)@, final(heap)@, nom@, name_field(res.0)),
            tag_field(res.0) == tag_code(Tag::I64),
            slots_field(res.0) as int == if slot < 0 { slot + 0x1_0000_0000_0000_0000 } else { slot as int },
            slot_value(res.0, tag_code(Tag::I64), 0) == slot,
    {
        let bits: u128 = if slot < 0 {
            (slot as i128 + 0x1_0000_0000_0000_0000) as u128
        } else {
            slot as u128
        };
        Value::wide(heap, Tag::I64, bits, nom)
    }

    /// The raw bits `slot` of a 64-bit float, named `nom`.
    pub fn f64_bits(heap: &mut Heap, slot: u64, nom: &str) -> (res: Value)
        ensures
            interns(old(heap)@, final(heap)@, nom@, name_field(res.0)),
            tag_field(res.0) == tag_code(Tag::F64),
            slots_field(res.0) == slot,
            slot_value(res.0, tag_code(Tag::F64), 0) == slot,
    {
        Value::wide(heap, Tag::F64, slot as u128, nom)
    }

    /// A value of a 64-bit tag holding `bits`.
    fn wide(heap: &mut Heap, tag: Tag, bits: u128, nom: &str) -> (res: Value)
        requires
            bits < 0x1_0000_0000_0000_0000,
        ensures
            interns(old(heap)@, final(heap)@, nom@, name_field(res.0)),
            tag_field(res.0) == tag_code(tag),
            slots_field(res.0) == bits,
            low64(res.0) == bits,
    {
        let name = heap.intern(nom);
        let t = tag.code();
        let v = Value::from_parts(t, name, bits);
        proof {
            lemma_small(bits);
            lemma_packed(v.0, t as u128, name as u128, bits);
            lemma_packed_low64(t as u128, name as u128, bits);
        }
        v
    }

    /// The tag of the value; its code must be one.
    pub fn tag(&self) -> (res: Tag)
        requires
            tag_field(self.0) < 52,
        ensures
            tag_code(res) == tag_field(self.0),
    {
        proof {
            lemma_packed(self.0, 0, 0, 0);
            lemma_code_tag(tag_field(self.0) as u16);
        }
        let c = (self.0 >> 112u32) as u16;
        match Tag::from_code(c) {
            Some(t) => t,
            None => Tag::Zero,
        }
    }

    /// The name of the value's tag.
    pub fn tag_as_str(&self) -> (res: String)
        requires
            tag_field(self.0) < 52,
        ensures
            res@ == tag_name(code_tag(tag_field(self.0) as u16).unwrap()),
    {
        let t = self.tag();
        proof {
            lemma_tag_code(t);
        }
        t.name()
    }

    /// Slot `slot` of the value read as `tag` lays it out.
    pub fn slot(&self, tag: Tag, slot: usize) -> (res: i128)
        requires
            slot_readable(tag_code(tag), slot as u128),
        ensures
            res == slot_value(self.0, tag_code(tag), slot as u128),
    {
        let c = tag.code();
        let k = slot as u128;
        let v = self.0;
        proof {
            lemma_masked(v >> (8 * k));
            lemma_masked(v >> (16 * k));
            lemma_masked(v >> (32 * k));
            lemma_masked(v);
        }
        if c == Tag::Unit.code() {
            0
        } else if c < Tag::U16.code() {
            let b = (v >> (8 * k)) & 0xff;
            if c < Tag::U8.code() && b >= 0x80 {
                b as i128 - 0x100
            } else {
                b as i128
            }
        } else if c < Tag::U32.code() {
            let b = (v >> (16 * k)) & 0xffff;
            if c >= Tag::I16.code() && b >= 0x8000 {
                b as i128 - 0x1_0000
            } else {
                b as i128
            }
        } else if c < Tag::U64.code() {
            let b = (v >> (32 * k)) & 0xffff_ffff;
            if c >= Tag::I32.code() && c < Tag::F32.code() && b >= 0x8000_0000 {
                b as i128 - 0x1_0000_0000
            } else {
                b as i128
            }
        } else if c == Tag::I64.code() {
            let b = v & 0xffff_ffff_ffff_ffff;
            if b >= 0x8000_0000_0000_0000 {
                b as i128 - 0x1_0000_0000_0000_0000
            } else {
                b as i128
            }
        } else {
            proof {
                lemma_packed(v, 0, 0, 0);
            }
            (v & 0xffff_ffff_ffff_ffff_ffff_ffff) as i128
        }
    }
}

impl Value {
    /// The reference to `[start, end)` of buffer `handle`, with tag code `tag`
    /// and name code `name`.
    fn make_ref(tag: u16, name: u16, start: u128, end: u128, handle: u64) -> (res: Value)
        requires
            start < 0x10000,
            end < 0x10000,
        ensures
            res.0 == ref_value(tag as u128, name as u128, start, end, handle as u128),
            tag_field(res.0) == tag,
            name_field(res.0) == name,
            start_field(res.0) == start,
            end_field(res.0) == end,
            handle_field(res.0) == handle,
    {
        let slots: u128 = (start << 80u32) | (end << 64u32) | (handle as u128);
        let v = Value::from_parts(tag, name, slots);
        proof {
            lemma_packed_ref(v.0, start, end, handle as u128);
            lemma_packed(v.0, tag as u128, name as u128, slots);
        }
        v
    }

    /// The position in the heap of a string's buffer.
    pub(crate) fn string_index(&self, heap: &Heap) -> (res: usize)
        requires
            is_string(self.0),
            handle_field(self.0) < heap@.strings.len(),
        ensures
            res == handle_field(self.0),
    {
        let n = heap.string_count();
        let h = self.cptr();
        h as usize
    }

    /// The position in the heap of a tuple's buffer.
    pub(crate) fn tuple_index(&self, heap: &Heap) -> (res: usize)
        requires
            is_tuple(self.0),
            handle_field(self.0) < heap@.tuples.len(),
        ensures
            res == handle_field(self.0),
    {
        let n = heap.tuple_count();
        let h = self.tptr();
        h as usize
    }

    /// The string `lit`, named `nom`, in a new heap buffer.
    pub fn string(heap: &mut Heap, lit: &str, nom: &str) -> (res: Value)
        requires
            lit@.len() < 0x10000,
        ensures
            final(heap)@.names == intern_names(old(heap)@.names, nom@),
            final(heap)@.strings == old(heap)@.strings.push(lit@),
            final(heap)@.tuples == old(heap)@.tuples,
            res.0 == ref_value(
                tag_code(Tag::String) as u128,
                intern_code(old(heap)@.names, nom@) as u128,
                0,
                lit@.len() as u128,
                old(heap)@.strings.len() as u128,
            ),
            tag_field(res.0) == tag_code(Tag::String) as u128,
            start_field(res.0) == 0,
            end_field(res.0) == lit@.len(),
            handle_field(res.0) == old(heap)@.strings.len(),
    {
        let name = heap.intern(nom);
        let cs = str_chars(lit);
        let n = cs.len();
        let h = heap.add_string(cs);
        Value::make_ref(Tag::String.code(), name, 0, n as u128, h)
    }

    /// A string of `cap` characters `'\0'`, to be filled by `pushc`.
    pub fn string_with_capacity(heap: &mut Heap, cap: u64) -> (res: Value)
        requires
            cap < 0x10000,
        ensures
            final(heap)@.names == intern_names(old(heap)@.names, "String"@),
            final(heap)@.strings == old(heap)@.strings.push(Seq::new(cap as nat, |i: int| '\0')),
            final(heap)@.tuples == old(heap)@.tuples,
            res.0 == ref_value(
                tag_code(Tag::String) as u128,
                intern_code(old(heap)@.names, "String"@) as u128,
                0,
                cap as u128,
                old(heap)@.strings.len() as u128,
            ),
            tag_field(res.0) == tag_code(Tag::String) as u128,
            start_field(res.0) == 0,
            end_field(res.0) == cap,
            handle_field(res.0) == old(heap)@.strings.len(),
    {
        let name = heap.intern("String");
        let mut cs: Vec<char> = Vec::new();
        let mut k: u64 = 0;
        while k < cap
            invariant
                k <= cap,
                cs@ == Seq::new(k as nat, |i: int| '\0'),
            decreases cap - k,
        {
            cs.push('\0');
            k = k + 1;
            assert(cs@ =~= Seq::new(k as nat, |i: int| '\0'));
        }
        let h = heap.add_string(cs);
        Value::make_ref(Tag::String.code(), name, 0, cap as u128, h)
    }

    /// The tuple of the values `vs`, named `nom`, in a new heap buffer.
    pub fn tuple(heap: &mut Heap, vs: &[Value], nom: &str) -> (res: Value)
        requires
            vs@.len() < 0x10000,
        ensures
            final(heap)@.names == intern_names(old(heap)@.names, nom@),
            final(heap)@.tuples == old(heap)@.tuples.push(Seq::new(vs@.len(), |i: int| vs@[i].0)),
            final(heap)@.strings == old(heap)@.strings,
            res.0 == ref_value(
                tag_code(Tag::Tuple) as u128,
                intern_code(old(heap)@.names, nom@) as u128,
                0,
                vs@.len() as u128,
                old(heap)@.tuples.len() as u128,
            ),
            tag_field(res.0) == tag_code(Tag::Tuple) as u128,
            start_field(res.0) == 0,
            end_field(res.0) == vs@.len(),
            handle_field(res.0) == old(heap)@.tuples.len(),
    {
        let name = heap.intern(nom);
        let mut buf: Vec<u128> = Vec::new();
        let mut k: usize = 0;
        while k < vs.len()
            invariant
                k <= vs@.len(),
                buf@ == Seq::new(k as nat, |i: int| vs@[i].0),
            decreases vs@.len() - k,
        {
            buf.push(vs[k].0);
            k = k + 1;
            assert(buf@ =~= Seq::new(k as nat, |i: int| vs@[i].0));
        }
        let n = vs.len();
        let h = heap.add_tuple(buf);
        Value::make_ref(Tag::Tuple.code(), name, 0, n as u128, h)
    }

    /// A tuple of `cap` zero values, to be filled by `push`.
    pub fn tuple_with_capacity(heap: &mut Heap, cap: u64) -> (res: Value)
        requires
            cap < 0x10000,
        ensures
            final(heap)@.names == intern_names(old(heap)@.names, "Tuple"@),
            final(heap)@.tuples == old(heap)@.tuples.push(Seq::new(cap as nat, |i: int| 0u128)),
            final(heap)@.strings == old(heap)@.strings,
            res.0 == ref_value(
                tag_code(Tag::Tuple) as u128,
                intern_code(old(heap)@.names, "Tuple"@) as u128,
                0,
                cap as u128,
                old(heap)@.tuples.len() as u128,
            ),
            tag_field(res.0) == tag_code(Tag::Tuple) as u128,
            start_field(res.0) == 0,
            end_field(res.0) == cap,
            handle_field(res.0) == old(heap)@.tuples.len(),
    {
        let mut vs: Vec<Value> = Vec::new();
        let mut k: u64 = 0;
        while k < cap
            invariant
                k <= cap,
                vs@.len() == k,
                forall|i: int| 0 <= i < k ==> (#[trigger] vs@[i]).0 == 0,
            decreases cap - k,
        {
            vs.push(Value::zero());
            k = k + 1;
        }
        let v = Value::tuple(heap, vs.as_slice(), "Tuple");
        assert(Seq::new(vs@.len(), |i: int| vs@[i].0) =~= Seq::new(cap as nat, |i: int| 0u128));
        v
    }

    /// The tuple of the `U64` values `from`, `from + step`, ... below `to`.
    pub fn range(heap: &mut Heap, from: u64, to: u64, step: u64) -> (res: Value)
        requires
            step > 0,
            range_items(from as int, to as int, step as int).len() < 0x10000,
        ensures
            final(heap)@.names == intern_names(intern_names(old(heap)@.names, "U64"@), "Tuple"@),
            final(heap)@.tuples == old(heap)@.tuples.push(
                range_buffer(from as int, to as int, step as int, range_item_name(old(heap)@.names)),
            ),
            final(heap)@.strings == old(heap)@.strings,
            res.0 == ref_value(
                tag_code(Tag::Tuple) as u128,
                intern_code(intern_names(old(heap)@.names, "U64"@), "Tuple"@) as u128,
                0,
                range_items(from as int, to as int, step as int).len() as u128,
                old(heap)@.tuples.len() as u128,
            ),
            tag_field(res.0) == tag_code(Tag::Tuple) as u128,
            start_field(res.0) == 0,
            end_field(res.0) == range_items(from as int, to as int, step as int).len(),
            handle_field(res.0) == old(heap)@.tuples.len(),
    {
        let ghost all = range_items(from as int, to as int, step as int);
        let ghost names0 = heap@.names;
        let c = heap.intern("U64");
        let ghost h1 = heap@;
        let mut vs: Vec<Value> = Vec::new();
        let mut i: u64 = from;
        let mut going = from < to;
        let ghost mut done: Seq<int> = Seq::empty();
        let ghost mut rest: Seq<int> = all;
        while going
            invariant
                heap@ == h1,
                c == range_item_name(names0),
                all == range_items(from as int, to as int, step as int),
                all.len() < 0x10000,
                step > 0,
                done + rest == all,
                vs@.len() == done.len(),
                forall|k: int| 0 <= k < done.len() ==> (#[trigger] vs@[k]).0 == packed(tag_code(Tag::U64) as u128, c as u128, done[k] as u128),
                forall|k: int| 0 <= k < done.len() ==> 0 <= #[trigger] done[k] <= u64::MAX,
                going ==> i < to && rest == range_items(i as int, to as int, step as int),
                !going ==> rest.len() == 0,
            decreases rest.len(),
        {
            proof {
                assert(rest == seq![i as int] + range_items(i + step, to as int, step as int));
                assert(done.push(i as int) + range_items(i + step, to as int, step as int) =~= done + rest);
            }
            vs.push(Value::from_parts(Tag::U64.code(), c, i as u128));
            proof {
                done = done.push(i as int);
                rest = range_items(i + step, to as int, step as int);
            }
            match i.checked_add(step) {
                Some(j) => {
                    i = j;
                    going = i < to;
                },
                None => {
                    going = false;
                },
            }
        }
        assert(done =~= all);
        let v = Value::tuple(heap, vs.as_slice(), "Tuple");
        assert(Seq::new(vs@.len(), |k: int| vs@[k].0) =~= range_buffer(from as int, to as int, step as int, range_item_name(names0)));
        v
    }

    /// The start of the range of a string or tuple.
    pub fn start(&self) -> (res: usize)
        requires
            is_string(self.0) || is_tuple(self.0),
        ensures
            res == start_field(self.0),
    {
        proof {
            lemma_packed_ref(self.0, 0, 0, 0);
        }
        ((self.0 >> 80u32) & 0xffff) as usize
    }

    /// The end of the range of a string or tuple.
    pub fn end(&self) -> (res: usize)
        requires
            is_string(self.0) || is_tuple(self.0),
        ensures
            res == end_field(self.0),
    {
        proof {
            lemma_packed_ref(self.0, 0, 0, 0);
        }
        ((self.0 >> 64u32) & 0xffff) as usize
    }

    /// Shortens a tuple to end at `end`; the name is dropped.
    pub fn set_end(&mut self, end: usize)
        requires
            is_tuple(old(self).0),
            end <= end_field(old(self).0),
        ensures
            final(self).0 == ref_value(
                tag_code(Tag::Tuple) as u128,
                0,
                start_field(old(self).0),
                end as u128,
                handle_field(old(self).0),
            ),
    {
        proof {
            lemma_packed_ref(self.0, 0, 0, 0);
        }
        let h = self.tptr();
        let s = self.start();
        let v = Value::make_ref(Tag::Tuple.code(), 0, s as u128, end as u128, h);
        self.0 = v.0;
    }

    /// The heap handle of a string.
    pub fn cptr(&self) -> (res: u64)
        requires
            is_string(self.0),
        ensures
            res == handle_field(self.0),
    {
        proof {
            lemma_halves(self.0, 0, 0);
        }
        (self.0 & 0xffff_ffff_ffff_ffff) as u64
    }

    /// The heap handle of a tuple.
    pub fn tptr(&self) -> (res: u64)
        requires
            is_tuple(self.0),
        ensures
            res == handle_field(self.0),
    {
        proof {
            lemma_halves(self.0, 0, 0);
        }
        (self.0 & 0xffff_ffff_ffff_ffff) as u64
    }

    /// The same string restricted to `[start, end)` of its buffer.
    pub fn slice(&self, start: usize, end: usize) -> (res: Value)
        requires
            is_string(self.0),
            start < 0x10000,
            end < 0x10000,
        ensures
            res.0 == ref_value(tag_field(self.0), name_field(self.0), start as u128, end as u128, handle_field(self.0)),
    {
        let (tag, name, _) = self.to_parts();
        let h = self.cptr();
        Value::make_ref(tag, name, start as u128, end as u128, h)
    }

    /// The characters of a string.
    pub fn literal(&self, heap: &Heap) -> (res: String)
        requires
            is_string(self.0),
            handle_field(self.0) < heap@.strings.len(),
            start_field(self.0) < end_field(self.0) ==> end_field(self.0) <= heap@.strings[handle_field(self.0) as int].len(),
        ensures
            res@ == literal_chars(
                heap@.strings[handle_field(self.0) as int],
                start_field(self.0) as int,
                end_field(self.0) as int,
            ),
    {
        let h = self.string_index(heap);
        let s = self.start();
        let e = self.end();
        let ghost buf = heap@.strings[h as int];
        let mut out: Vec<char> = Vec::new();
        let mut k = s;
        while k < e
            invariant
                s <= k,
                s < e ==> k <= e <= buf.len(),
                h < heap@.strings.len(),
                buf == heap@.strings[h as int],
                out@ == (if s < e { buf.subrange(s as int, k as int) } else { Seq::empty() }),
            decreases e - k,
        {
            out.push(heap.string_item(h, k));
            k = k + 1;
            assert(out@ =~= buf.subrange(s as int, k as int));
        }
        chars_to_string(&out)
    }

    /// Item `slot` of a tuple.
    pub fn vslot(&self, heap: &Heap, slot: usize) -> (res: Value)
        requires
            is_tuple(self.0),
            start_field(self.0) <= slot < end_field(self.0),
            handle_field(self.0) < heap@.tuples.len(),
            slot < heap@.tuples[handle_field(self.0) as int].len(),
        ensures
            res.0 == heap@.tuples[handle_field(self.0) as int][slot as int],
    {
        let h = self.tuple_index(heap);
        Value(heap.tuple_item(h, slot))
    }

    /// Character `slot` of a string.
    pub fn cslot(&self, heap: &Heap, slot: usize) -> (res: char)
        requires
            is_string(self.0),
            start_field(self.0) <= slot < end_field(self.0),
            handle_field(self.0) < heap@.strings.len(),
            slot < heap@.strings[handle_field(self.0) as int].len(),
        ensures
            res == heap@.strings[handle_field(self.0) as int][slot as int],
    {
        let h = self.string_index(heap);
        heap.string_item(h, slot)
    }

    /// Writes `x` over the first zero item in the tuple's range, if any.
    pub fn push(&self, heap: &mut Heap, x: Value)
        requires
            is_tuple(self.0),
            handle_field(self.0) < old(heap)@.tuples.len(),
            start_field(self.0) < end_field(self.0) ==> end_field(self.0) <= old(heap)@.tuples[handle_field(self.0) as int].len(),
        ensures
            final(heap)@.tuples == old(heap)@.tuples.update(
                handle_field(self.0) as int,
                push_into(
                    old(heap)@.tuples[handle_field(self.0) as int],
                    0u128,
                    start_field(self.0) as int,
                    end_field(self.0) as int,
                    x.0,
                ),
            ),
            final(heap)@.strings == old(heap)@.strings,
            final(heap)@.names == old(heap)@.names,
    {
        let h = self.tuple_index(heap);
        let s = self.start();
        let e = self.end();
        let ghost buf = old(heap)@.tuples[h as int];
        let mut k = s;
        while k < e
            invariant
                s == start_field(self.0),
                e == end_field(self.0),
                h == handle_field(self.0),
                s <= k,
                s < e ==> e <= buf.len(),
                k < e ==> k < buf.len(),
                h < heap@.tuples.len(),
                heap@ == old(heap)@,
                buf == heap@.tuples[h as int],
                first_at(buf, 0u128, s as int, e as int) == first_at(buf, 0u128, k as int, e as int),
            decreases e - k,
        {
            if heap.tuple_item(h, k) == 0 {
                heap.set_tuple_item(h, k, x.0);
                return;
            }
            k = k + 1;
        }
        assert(old(heap)@.tuples.update(h as int, buf) =~= old(heap)@.tuples);
    }

    /// Writes `c` over the first `'\0'` in the string's range, if any.
    pub fn pushc(&self, heap: &mut Heap, c: char)
        requires
            is_string(self.0),
            handle_field(self.0) < old(heap)@.strings.len(),
            start_field(self.0) < end_field(self.0) ==> end_field(self.0) <= old(heap)@.strings[handle_field(self.0) as int].len(),
        ensures
            final(heap)@.strings == old(heap)@.strings.update(
                handle_field(self.0) as int,
                push_into(
                    old(heap)@.strings[handle_field(self.0) as int],
                    '\0',
                    start_field(self.0) as int,
                    end_field(self.0) as int,
                    c,
                ),
            ),
            final(heap)@.tuples == old(heap)@.tuples,
            final(heap)@.names == old(heap)@.names,
    {
        let h = self.string_index(heap);
        let s = self.start();
        let e = self.end();
        let ghost buf = old(heap)@.strings[h as int];
        let mut k = s;
        while k < e
            invariant
                s == start_field(self.0),
                e == end_field(self.0),
                h == handle_field(self.0),
                s <= k,
                s < e ==> e <= buf.len(),
                k < e ==> k < buf.len(),
                h < heap@.strings.len(),
                heap@ == old(heap)@,
                buf == heap@.strings[h as int],
                first_at(buf, '\0', s as int, e as int) == first_at(buf, '\0', k as int, e as int),
            decreases e - k,
        {
            if heap.string_item(h, k) == '\0' {
                heap.set_string_item(h, k, c);
                return;
            }
            k = k + 1;
        }
        assert(old(heap)@.strings.update(h as int, buf) =~= old(heap)@.strings);
    }
}

// ---------------------------------------------------------------------------
// Text.

/// The number of lanes of a numeric vector tag; 0 for other tags.
pub open spec fn lane_count(c: u16) -> int {
    if in_family(c, Tag::I8, 12) {
        c - tag_code(Tag::I8) + 1
    } else if in_family(c, Tag::U8, 12) {
        c - tag_code(Tag::U8) + 1
    } else if in_family(c, Tag::U16, 6) {
        c - tag_code(Tag::U16) + 1
    } else if in_family(c, Tag::I16, 6) {
        c - tag_code(Tag::I16) + 1
    } else if in_family(c, Tag::U32, 3) {
        c - tag_code(Tag::U32) + 1
    } else if in_family(c, Tag::I32, 3) {
        c - tag_code(Tag::I32) + 1
    } else {
        0
    }
}

/// The decimal texts of lanes `[0, k)` of `v`, read as tag code `c`,
/// separated by commas.
pub open spec fn lanes_text(v: u128, c: u16, k: int) -> Seq<char>
    decreases k,
{
    if k <= 0 {
        Seq::empty()
    } else {
        lanes_text(v, c, k - 1) + (if k > 1 {
            seq![',']
        } else {
            Seq::empty()
        }) + signed_decimal_chars(slot_value(v, c, (k - 1) as u128))
    }
}

/// The `Debug` text of `v`, looking into tuples at most `d` deep: `_` for
/// the zero tag, `()` for unit, the decimal numbers of the lanes (between
/// parentheses and separated by commas when there are several), the quoted
/// characters of a string, and the items of a tuple between parentheses,
/// separated by commas (`()` when it is empty). `None` for float
/// tags, for codes that are no tag, for ranges outside their buffers, and
/// where tuples nest deeper than `d`.
pub open spec fn value_text(h: HeapView, v: u128, d: nat) -> Option<Seq<char>>
    decreases d, 0int, 0int,
{
    let c = tag_field(v) as u16;
    if tag_field(v) >= 52 {
        None
    } else if c == tag_code(Tag::Zero) {
        Some("_"@)
    } else if c == tag_code(Tag::Unit) {
        Some("()"@)
    } else if lane_count(c) == 1 {
        Some(signed_decimal_chars(slot_value(v, c, 0)))
    } else if lane_count(c) > 1 {
        Some(seq!['('] + lanes_text(v, c, lane_count(c)) + seq![')'])
    } else if c == tag_code(Tag::U64) || c == tag_code(Tag::I64) {
        Some(signed_decimal_chars(slot_value(v, c, 0)))
    } else if c == tag_code(Tag::String) {
        if handle_field(v) < h.strings.len() && (start_field(v) < end_field(v) ==> end_field(v)
            <= h.strings[handle_field(v) as int].len()) {
            Some(
                str_debug(
                    literal_chars(
                        h.strings[handle_field(v) as int],
                        start_field(v) as int,
                        end_field(v) as int,
                    ),
                ),
            )
        } else {
            None
        }
    } else if c == tag_code(Tag::Tuple) {
        if d > 0 && handle_field(v) < h.tuples.len() && (start_field(v) < end_field(v) ==> end_field(v)
            <= h.tuples[handle_field(v) as int].len()) {
            let s = start_field(v) as int;
            let e = end_field(v) as int;
            match items_text(h, h.tuples[handle_field(v) as int], s, e, (d - 1) as nat) {
                Some(t) => Some(seq!['('] + t + seq![')']),
                None => None,
            }
        } else {
            None
        }
    } else {
        None
    }
}

/// The `Debug` texts of the items `buf[s..k]`, separated by commas.
pub open spec fn items_text(h: HeapView, buf: Seq<u128>, s: int, k: int, d: nat) -> Option<Seq<char>>
    decreases d, 1int, k - s,
{
    if k <= s {
        Some(Seq::empty())
    } else {
        match items_text(h, buf, s, k - 1, d) {
            Some(p) => match value_text(h, buf[k - 1], d) {
                Some(t) => Some(p + (if k - 1 > s {
                    seq![',']
                } else {
                    Seq::empty()
                }) + t),
                None => None,
            },
            None => None,
        }
    }
}

/// A depth to which the text of `v` is defined, if there is one.
pub open spec fn text_depth(h: HeapView, v: u128) -> nat {
    choose|d: nat| value_text(h, v, d) is Some
}

/// `v` has a `Debug` text.
pub open spec fn printable(h: HeapView, v: u128) -> bool {
    exists|d: nat| value_text(h, v, d) is Some
}

/// The `Debug` text of a printable value.
pub open spec fn debug_text(h: HeapView, v: u128) -> Seq<char> {
    value_text(h, v, text_depth(h, v)).unwrap()
}

impl Value {
    /// Appends the `Debug` text of `v` to `out`.
    fn push_text(out: &mut Vec<char>, heap: &Heap, v: u128, Ghost(d): Ghost<nat>)
        requires
            value_text(heap@, v, d) is Some,
        ensures
            final(out)@ == old(out)@ + value_text(heap@, v, d).unwrap(),
        decreases d,
    {
        let x = Value(v);
        proof {
            lemma_packed(v, 0, 0, 0);
        }
        let c = (v >> 112u32) as u16;
        let tag = match Tag::from_code(c) {
            Some(t) => t,
            None => Tag::Zero,
        };
        proof {
            lemma_code_tag(c);
        }
        if c == 0 {
            push_chars(out, &str_chars("_"));
        } else if c == 1 {
            push_chars(out, &str_chars("()"));
        } else if c < Tag::U64.code() {
            let n: usize = if c < Tag::U8.code() {
                (c - Tag::I8.code() + 1) as usize
            } else if c < Tag::U16.code() {
                (c - Tag::U8.code() + 1) as usize
            } else if c < Tag::I16.code() {
                (c - Tag::U16.code() + 1) as usize
            } else if c < Tag::U32.code() {
                (c - Tag::I16.code() + 1) as usize
            } else if c < Tag::I32.code() {
                (c - Tag::U32.code() + 1) as usize
            } else {
                (c - Tag::I32.code() + 1) as usize
            };
            assert(tag_code(tag) == c);
            if n == 1 {
                let sv = x.slot(tag, 0);
                push_signed_decimal(out, sv);
            } else {
                let ghost start = out@;
                out.push('(');
                let mut k: usize = 0;
                while k < n
                    invariant
                        k <= n,
                        n == lane_count(c),
                        2 <= n <= 12,
                        tag_code(tag) == c,
                        x.0 == v,
                        in_family(c, Tag::I8, 12) || in_family(c, Tag::U8, 12) ==> n <= 12,
                        in_family(c, Tag::U16, 6) || in_family(c, Tag::I16, 6) ==> n <= 6,
                        in_family(c, Tag::U32, 3) || in_family(c, Tag::I32, 3) ==> n <= 3,
                        tag_code(Tag::I8) <= c < tag_code(Tag::F32),
                        out@ == start + seq!['('] + lanes_text(v, c, k as int),
                    decreases n - k,
                {
                    if k > 0 {
                        out.push(',');
                    }
                    let sv = x.slot(tag, k);
                    push_signed_decimal(out, sv);
                    k = k + 1;
                    assert(out@ =~= start + seq!['('] + lanes_text(v, c, k as int));
                }
                out.push(')');
                assert(out@ =~= start + (seq!['('] + lanes_text(v, c, n as int) + seq![')']));
            }
        } else if c == Tag::U64.code() || c == Tag::I64.code() {
            let sv = x.slot(tag, 0);
            push_signed_decimal(out, sv);
        } else if c == Tag::String.code() {
            let h = x.string_index(heap);
            let lit = x.literal(heap);
            let shown = debug_str(lit.as_str());
            push_chars(out, &shown);
        } else {
            let ghost start = out@;
            let h = x.tuple_index(heap);
            let s = x.start();
            let e = x.end();
            let ghost buf = heap@.tuples[h as int];
            out.push('(');
            let mut k = s;
            while k < e
                invariant
                    s <= k,
                    s < e ==> k <= e <= buf.len(),
                    s >= e ==> k == s,
                    d > 0,
                    h < heap@.tuples.len(),
                    buf == heap@.tuples[h as int],
                    items_text(heap@, buf, s as int, e as int, (d - 1) as nat) is Some,
                    items_text(heap@, buf, s as int, k as int, (d - 1) as nat) is Some,
                    out@ == start + seq!['('] + items_text(heap@, buf, s as int, k as int, (d - 1) as nat).unwrap(),
                decreases e - k,
            {
                proof {
                    lemma_items_text_prefix(heap@, buf, s as int, k as int + 1, e as int, (d - 1) as nat);
                }
                if k > s {
                    out.push(',');
                }
                let item = heap.tuple_item(h, k);
                Value::push_text(out, heap, item, Ghost((d - 1) as nat));
                k = k + 1;
                assert(out@ =~= start + seq!['('] + items_text(heap@, buf, s as int, k as int, (d - 1) as nat).unwrap());
            }
            out.push(')');
            proof {
                assert(items_text(heap@, buf, s as int, k as int, (d - 1) as nat) == items_text(heap@, buf, s as int, e as int, (d - 1) as nat));
                assert(c == tag_code(Tag::Tuple));
                assert(tag_field(v) == c);
                assert(lane_count(c) == 0);
                assert(value_text(heap@, v, d) == Some(seq!['('] + items_text(heap@, buf, s as int, e as int, (d - 1) as nat).unwrap() + seq![')']));
            }
            assert(out@ =~= start + value_text(heap@, v, d).unwrap());
        }
    }

    /// The `Debug` text of the value.
    pub fn debug_string(&self, heap: &Heap) -> (res: String)
        requires
            printable(heap@, self.0),
        ensures
            res@ == debug_text(heap@, self.0),
    {
        let mut out: Vec<char> = Vec::new();
        Value::push_text(&mut out, heap, self.0, Ghost(text_depth(heap@, self.0)));
        assert(out@ =~= debug_text(heap@, self.0));
        chars_to_string(&out)
    }

    /// Whether two printable values have the same `Debug` text.
    pub fn same_text(&self, other: &Value, heap: &Heap) -> (res: bool)
        requires
            printable(heap@, self.0),
            printable(heap@, other.0),
        ensures
            res == (debug_text(heap@, self.0) == debug_text(heap@, other.0)),
    {
        let mut a: Vec<char> = Vec::new();
        Value::push_text(&mut a, heap, self.0, Ghost(text_depth(heap@, self.0)));
        let mut b: Vec<char> = Vec::new();
        Value::push_text(&mut b, heap, other.0, Ghost(text_depth(heap@, other.0)));
        assert(a@ =~= debug_text(heap@, self.0));
        assert(b@ =~= debug_text(heap@, other.0));
        if a.len() != b.len() {
            return false;
        }
        let mut k: usize = 0;
        while k < a.len()
            invariant
                k <= a@.len(),
                a@.len() == b@.len(),
                a@ == debug_text(heap@, self.0),
                b@ == debug_text(heap@, other.0),
                forall|j: int| 0 <= j < k ==> a@[j] == b@[j],
            decreases a@.len() - k,
        {
            if a[k] != b[k] {
                return false;
            }
            k = k + 1;
        }
        assert(a@ =~= b@);
        true
    }
}

/// Where the texts of items up to `m` are defined, so are those up to any `k` before it.
pub proof fn lemma_items_text_prefix(h: HeapView, buf: Seq<u128>, s: int, k: int, m: int, d: nat)
    requires
        k <= m,
        items_text(h, buf, s, m, d) is Some,
    ensures
        items_text(h, buf, s, k, d) is Some,
    decreases m - k,
{
    if k < m {
        lemma_items_text_prefix(h, buf, s, k, m - 1, d);
    }
}

/// Looking one level deeper into tuples does not change a text that is
/// already defined.
proof fn lemma_text_deeper(h: HeapView, v: u128, d: nat)
    requires
        value_text(h, v, d) is Some,
    ensures
        value_text(h, v, d + 1) == value_text(h, v, d),
    decreases d, 0int, 0int,
{
    let c = tag_field(v) as u16;
    if tag_field(v) < 52 && c == tag_code(Tag::Tuple) && d > 0 {
        let hh = handle_field(v);
        if hh < h.tuples.len() {
            lemma_items_deeper(h, h.tuples[hh as int], start_field(v) as int, end_field(v) as int, (d - 1) as nat);
        }
    }
}

/// The same for the texts of the items of a tuple.
proof fn lemma_items_deeper(h: HeapView, buf: Seq<u128>, s: int, k: int, d: nat)
    requires
        items_text(h, buf, s, k, d) is Some,
    ensures
        items_text(h, buf, s, k, d + 1) == items_text(h, buf, s, k, d),
    decreases d, 1int, k - s,
{
    if k > s {
        lemma_items_deeper(h, buf, s, k - 1, d);
        lemma_text_deeper(h, buf[k - 1], d);
    }
}

/// A value's text is the same at every depth where it is defined.
proof fn lemma_text_any_depth(h: HeapView, v: u128, d1: nat, d2: nat)
    requires
        value_text(h, v, d1) is Some,
        value_text(h, v, d2) is Some,
        d1 <= d2,
    ensures
        value_text(h, v, d1) == value_text(h, v, d2),
    decreases d2 - d1,
{
    if d1 < d2 {
        lemma_text_deeper(h, v, d1);
        lemma_text_any_depth(h, v, d1 + 1, d2);
    }
}

/// The `Debug` texts of the items `buf[s..k]`, each as it prints on its
/// own, separated by commas.
pub open spec fn joined_texts(h: HeapView, buf: Seq<u128>, s: int, k: int) -> Seq<char>
    decreases k - s,
{
    if k <= s {
        Seq::empty()
    } else {
        joined_texts(h, buf, s, k - 1) + (if k - 1 > s {
            seq![',']
        } else {
            Seq::empty()
        }) + debug_text(h, buf[k - 1])
    }
}

/// The items whose texts are defined at depth `d` print as they do there.
proof fn lemma_items_joined(h: HeapView, buf: Seq<u128>, s: int, k: int, d: nat)
    requires
        items_text(h, buf, s, k, d) is Some,
    ensures
        items_text(h, buf, s, k, d) == Some(joined_texts(h, buf, s, k)),
    decreases k - s,
{
    if k > s {
        lemma_items_joined(h, buf, s, k - 1, d);
        let x = buf[k - 1];
        assert(value_text(h, x, d) is Some);
        let t = text_depth(h, x);
        assert(value_text(h, x, t) is Some);
        if t <= d {
            lemma_text_any_depth(h, x, t, d);
        } else {
            lemma_text_any_depth(h, x, d, t);
        }
    }
}

/// A tuple prints as the texts of its items, each as it prints on its own,
/// separated by commas with none after the last, between parentheses: `()`
/// when it has none.
pub proof fn lemma_tuple_text(h: HeapView, v: u128)
    requires
        printable(h, v),
        tag_field(v) == tag_code(Tag::Tuple) as u128,
    ensures
        debug_text(h, v) == seq!['('] + joined_texts(h, h.tuples[handle_field(v) as int], start_field(v) as int, end_field(v) as int) + seq![')'],
{
    lemma_tag_code(Tag::Tuple);
    let d = text_depth(h, v);
    assert(value_text(h, v, d) is Some);
    lemma_items_joined(h, h.tuples[handle_field(v) as int], start_field(v) as int, end_field(v) as int, (d - 1) as nat);
}

/// A value built with a name goes by that name, unless the name table was
/// full and did not hold it.
pub proof fn lemma_value_name(h0: HeapView, h1: HeapView, nom: Seq<char>, v: u128)
    requires
        interns(h0, h1, nom, name_field(v)),
    ensures
        name_field(v) > 0 ==> value_name(h1, v) == nom,
        name_field(v) == 0 <==> find_name(h0.names, nom) is None && h0.names.len() >= name_capacity(),
{
    lemma_interns(h0, h1, nom, name_field(v));
}

/// The fields of a reference are the parts it was built from.
pub proof fn lemma_ref_fields(tag: u128, name: u128, start: u128, end: u128, handle: u128)
    requires
        tag < 0x10000,
        name < 0x10000,
        start < 0x10000,
        end < 0x10000,
        handle < 0x1_0000_0000_0000_0000,
    ensures
        tag_field(ref_value(tag, name, start, end, handle)) == tag,
        name_field(ref_value(tag, name, start, end, handle)) == name,
        start_field(ref_value(tag, name, start, end, handle)) == start,
        end_field(ref_value(tag, name, start, end, handle)) == end,
        handle_field(ref_value(tag, name, start, end, handle)) == handle,
{
    let r = packed_ref(start, end, handle);
    lemma_packed_ref(ref_value(tag, name, start, end, handle), start, end, handle);
    lemma_packed(ref_value(tag, name, start, end, handle), tag, name, r);
}

/// A slice of a string reads the characters `[start, end)` of the same
/// buffer, under the same tag and name.
pub proof fn lemma_slice_fields(v: u128, start: u128, end: u128)
    requires
        start < 0x10000,
        end < 0x10000,
    ensures
        tag_field(ref_value(tag_field(v), name_field(v), start, end, handle_field(v))) == tag_field(v),
        name_field(ref_value(tag_field(v), name_field(v), start, end, handle_field(v))) == name_field(v),
        start_field(ref_value(tag_field(v), name_field(v), start, end, handle_field(v))) == start,
        end_field(ref_value(tag_field(v), name_field(v), start, end, handle_field(v))) == end,
        handle_field(ref_value(tag_field(v), name_field(v), start, end, handle_field(v))) == handle_field(v),
{
    lemma_packed(v, 0, 0, 0);
    lemma_halves(v, 0, 0);
    lemma_ref_fields(tag_field(v), name_field(v), start, end, handle_field(v));
}

/// Single numbers print as their decimal text (signed for the signed
/// tags), unit as `()`, the zero value as `_`, and a string as its
/// characters as `str`'s `Debug` shows them.
pub proof fn lemma_scalar_text(h: HeapView, v: u128)
    ensures
        tag_field(v) == tag_code(Tag::U64) as u128 ==> printable(h, v)
            && debug_text(h, v) == crate::text::decimal_chars(slots_field(v) as nat),
        tag_field(v) == tag_code(Tag::I64) as u128 ==> printable(h, v)
            && debug_text(h, v) == signed_decimal_chars(signed64(low64(v))),
        tag_field(v) == tag_code(Tag::U8) as u128 ==> printable(h, v)
            && debug_text(h, v) == crate::text::decimal_chars(lane8(v, 0) as nat),
        tag_field(v) == tag_code(Tag::Unit) as u128 ==> printable(h, v) && debug_text(h, v) == "()"@,
        tag_field(v) == tag_code(Tag::Zero) as u128 ==> printable(h, v) && debug_text(h, v) == "_"@,
        tag_field(v) == tag_code(Tag::String) as u128 && handle_field(v) < h.strings.len()
            && start_field(v) <= end_field(v) <= h.strings[handle_field(v) as int].len()
            ==> printable(h, v) && debug_text(h, v) == str_debug(
                h.strings[handle_field(v) as int].subrange(start_field(v) as int, end_field(v) as int)),
{
    let c = tag_field(v) as u16;
    if tag_field(v) < 52 {
        assert(value_text(h, v, 0) is Some ==> value_text(h, v, text_depth(h, v)) == value_text(h, v, 0)) by {
            if value_text(h, v, 0) is Some {
                assert(value_text(h, v, text_depth(h, v)) is Some);
                if c != tag_code(Tag::Tuple) {
                    assert(value_text(h, v, text_depth(h, v)) == value_text(h, v, 0));
                }
            }
        }
        if tag_field(v) == tag_code(Tag::String) as u128 && handle_field(v) < h.strings.len()
            && start_field(v) <= end_field(v) <= h.strings[handle_field(v) as int].len() {
            let buf = h.strings[handle_field(v) as int];
            assert(literal_chars(buf, start_field(v) as int, end_field(v) as int)
                =~= buf.subrange(start_field(v) as int, end_field(v) as int));
        }
    }
}

} // verus!
