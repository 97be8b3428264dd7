//! A toy byte codec: each nibble of a byte is replaced by its image under a
//! fixed self-inverse-free permutation of the sixteen nibble values, and a
//! byte is encoded nibble by nibble.  Decoding applies the inverse table.

use vstd::prelude::*;

verus! {

/// The encoding table on nibble values (only values below 16 are meaningful).
pub open spec fn spec_encode_nibble(n: u8) -> u8 {
    if n == 0x0 {
        0x0
    } else if n == 0x1 {
        0x1
    } else if n == 0x2 {
        0x3
    } else if n == 0x3 {
        0x2
    } else if n == 0x4 {
        0x6
    } else if n == 0x5 {
        0x7
    } else if n == 0x6 {
        0x5
    } else if n == 0x7 {
        0x4
    } else if n == 0x8 {
        0xC
    } else if n == 0x9 {
        0xD
    } else if n == 0xA {
        0xF
    } else if n == 0xB {
        0xE
    } else if n == 0xC {
        0xA
    } else if n == 0xD {
        0xB
    } else if n == 0xE {
        0x9
    } else {
        0x8
    }
}

/// The decoding table: the inverse of `spec_encode_nibble`.
pub open spec fn spec_decode_nibble(n: u8) -> u8 {
    if n == 0x0 {
        0x0
    } else if n == 0x1 {
        0x1
    } else if n == 0x3 {
        0x2
    } else if n == 0x2 {
        0x3
    } else if n == 0x6 {
        0x4
    } else if n == 0x7 {
        0x5
    } else if n == 0x5 {
        0x6
    } else if n == 0x4 {
        0x7
    } else if n == 0xC {
        0x8
    } else if n == 0xD {
        0x9
    } else if n == 0xF {
        0xA
    } else if n == 0xE {
        0xB
    } else if n == 0xA {
        0xC
    } else if n == 0xB {
        0xD
    } else if n == 0x9 {
        0xE
    } else {
        0xF
    }
}

/// A whole byte is encoded one nibble at a time.
pub open spec fn spec_encode_hex(b: u8) -> u8 {
    (spec_encode_nibble((b >> 4) as u8) << 4 | spec_encode_nibble((b & 0x0F) as u8)) as u8
}

/// A whole byte is decoded one nibble at a time.
pub open spec fn spec_decode_hex(b: u8) -> u8 {
    (spec_decode_nibble((b >> 4) as u8) << 4 | spec_decode_nibble((b & 0x0F) as u8)) as u8
}

fn encode_hex_nibble(nibble: u8) -> (r: u8)
    requires
        nibble < 16,
    ensures
        r == spec_encode_nibble(nibble),
        r < 16,
{
    match nibble {
        0x0 => 0x0,
        0x1 => 0x1,
        0x2 => 0x3,
        0x3 => 0x2,
        0x4 => 0x6,
        0x5 => 0x7,
        0x6 => 0x5,
        0x7 => 0x4,
        0x8 => 0xC,
        0x9 => 0xD,
        0xA => 0xF,
        0xB => 0xE,
        0xC => 0xA,
        0xD => 0xB,
        0xE => 0x9,
        _ => 0x8,
    }
}

fn decode_hex_nibble(encoded: u8) -> (r: u8)
    requires
        encoded < 16,
    ensures
        r == spec_decode_nibble(encoded),
        r < 16,
{
    match encoded {
        0x0 => 0x0,
        0x1 => 0x1,
        0x3 => 0x2,
        0x2 => 0x3,
        0x6 => 0x4,
        0x7 => 0x5,
        0x5 => 0x6,
        0x4 => 0x7,
        0xC => 0x8,
        0xD => 0x9,
        0xF => 0xA,
        0xE => 0xB,
        0xA => 0xC,
        0xB => 0xD,
        0x9 => 0xE,
        _ => 0xF,
    }
}

/// Encode one byte, nibble by nibble.
pub fn encode_hex(byte: u8) -> (r: u8)
    ensures
        r == spec_encode_hex(byte),
{
    let low_nibble = byte & 0x0F;
    let high_nibble = byte >> 4;
    assert(low_nibble < 16 && high_nibble < 16) by (bit_vector)
        requires
            low_nibble == byte & 0x0F,
            high_nibble == byte >> 4,
    ;

    let encoded_low_nibble = encode_hex_nibble(low_nibble);
    let encoded_high_nibble = encode_hex_nibble(high_nibble);

    encoded_high_nibble << 4 | encoded_low_nibble
}

/// Decode one byte, nibble by nibble.
pub fn decode_hex(byte: u8) -> (r: u8)
    ensures
        r == spec_decode_hex(byte),
{
    let low_nibble = byte & 0x0F;
    let high_nibble = byte >> 4;
    assert(low_nibble < 16 && high_nibble < 16) by (bit_vector)
        requires
            low_nibble == byte & 0x0F,
            high_nibble == byte >> 4,
    ;

    let decoded_low_nibble = decode_hex_nibble(low_nibble);
    let decoded_high_nibble = decode_hex_nibble(high_nibble);

    decoded_high_nibble << 4 | decoded_low_nibble
}

/// Encode every byte of a buffer.
pub fn encode_hex_data(data: &[u8]) -> (r: Vec<u8>)
    ensures
        r@ == data@.map_values(|b: u8| spec_encode_hex(b)),
{
    let mut result: Vec<u8> = Vec::new();
    let mut i: usize = 0;
    while i < data.len()
        invariant
            i <= data@.len(),
            result@ == data@.take(i as int).map_values(|b: u8| spec_encode_hex(b)),
        decreases data@.len() - i,
    {
        result.push(encode_hex(data[i]));
        i = i + 1;
    }
    assert(data@.take(data@.len() as int) =~= data@);
    result
}

/// Decode every byte of a buffer.
pub fn decode_hex_data(data: &[u8]) -> (r: Vec<u8>)
    ensures
        r@ == data@.map_values(|b: u8| spec_decode_hex(b)),
{
    let mut result: Vec<u8> = Vec::new();
    let mut i: usize = 0;
    while i < data.len()
        invariant
            i <= data@.len(),
            result@ == data@.take(i as int).map_values(|b: u8| spec_decode_hex(b)),
        decreases data@.len() - i,
    {
        result.push(decode_hex(data[i]));
        i = i + 1;
    }
    assert(data@.take(data@.len() as int) =~= data@);
    result
}

/// Encoding inverts decoding on every byte.
pub proof fn lemma_encode_decode_roundtrip(b: u8)
    ensures
        spec_encode_hex(spec_decode_hex(b)) == b,
{
    let h = (b >> 4) as u8;
    let l = (b & 0x0F) as u8;
    assert(h < 16 && l < 16) by (bit_vector)
        requires
            h == (b >> 4) as u8,
            l == (b & 0x0F) as u8,
    ;
    let dh = spec_decode_nibble(h);
    let dl = spec_decode_nibble(l);
    assert(dh < 16 && dl < 16);
    let d = (dh << 4 | dl) as u8;
    assert((d >> 4) == dh && (d & 0x0F) == dl) by (bit_vector)
        requires
            d == (dh << 4 | dl) as u8,
            dh < 16,
            dl < 16,
    ;
    assert(spec_encode_nibble(dh) == h && spec_encode_nibble(dl) == l);
    assert((h << 4 | l) == b) by (bit_vector)
        requires
            h == (b >> 4) as u8,
            l == (b & 0x0F) as u8,
    ;
}

/// Decoding inverts encoding on every byte.
pub proof fn lemma_decode_encode_roundtrip(b: u8)
    ensures
        spec_decode_hex(spec_encode_hex(b)) == b,
{
    let h = (b >> 4) as u8;
    let l = (b & 0x0F) as u8;
    assert(h < 16 && l < 16) by (bit_vector)
        requires
            h == (b >> 4) as u8,
            l == (b & 0x0F) as u8,
    ;
    let eh = spec_encode_nibble(h);
    let el = spec_encode_nibble(l);
    assert(eh < 16 && el < 16);
    let e = (eh << 4 | el) as u8;
    assert((e >> 4) == eh && (e & 0x0F) == el) by (bit_vector)
        requires
            e == (eh << 4 | el) as u8,
            eh < 16,
            el < 16,
    ;
    assert(spec_decode_nibble(eh) == h && spec_decode_nibble(el) == l);
    assert((h << 4 | l) == b) by (bit_vector)
        requires
            h == (b >> 4) as u8,
            l == (b & 0x0F) as u8,
    ;
}

} // verus!
