//! CRC-32 with the IEEE polynomial, as the `crc` crate computes it, and the fact that
//! makes it worth storing: it changes whenever a single byte of its input changes.
//!
//! The specification is the bitwise form of the reflected CRC-32: the register starts
//! at all ones, each byte is xored into its low bits and shifted out over eight steps
//! (xoring the reflected polynomial `0xEDB88320` whenever a one leaves), and the result
//! is the register inverted. The `crc` crate computes the same with a table of the
//! eight-step shifts of each byte.
use vstd::prelude::*;

verus! {

/// One step of the reflected CRC-32 shift register.
pub open spec fn crc_shift(c: u32) -> u32 {
    if c & 1 == 1 {
        (c >> 1) ^ 0xEDB8_8320u32
    } else {
        c >> 1
    }
}

/// Eight steps of the shift register: one byte's worth.
pub open spec fn crc_shift8(c: u32) -> u32 {
    crc_shift(crc_shift(crc_shift(crc_shift(crc_shift(crc_shift(crc_shift(crc_shift(c))))))))
}

/// The register after it has taken in the byte `b`.
pub open spec fn crc_step(c: u32, b: u8) -> u32 {
    crc_shift8(c ^ (b as u32))
}

/// The register after it has taken in `bytes`, first byte first.
pub open spec fn crc_register(c: u32, bytes: Seq<u8>) -> u32
    decreases bytes.len(),
{
    if bytes.len() == 0 {
        c
    } else {
        crc_register(crc_step(c, bytes[0]), bytes.drop_first())
    }
}

/// The CRC-32 (IEEE) of `bytes`.
pub open spec fn crc32_ieee(bytes: Seq<u8>) -> u32 {
    !crc_register(0xFFFF_FFFFu32, bytes)
}

/// Calls `crc::crc32::checksum_ieee`, whose result is the CRC-32 (IEEE) of the bytes:
/// `update(0, &IEEE_TABLE, bytes)` inverts the register, takes in each byte through the
/// table of eight-step shifts of the polynomial `0xEDB88320`, and inverts it again.
#[verifier::external_body]
pub(crate) fn checksum_ieee(bytes: &[u8]) -> (res: u32)
    ensures
        res == crc32_ieee(bytes@),
{
    crc::crc32::checksum_ieee(bytes)
}

proof fn lemma_shift_linear(a: u32, b: u32)
    ensures
        crc_shift(a) ^ crc_shift(b) == crc_shift(a ^ b),
{
    assert((if a & 1 == 1 { (a >> 1) ^ 0xEDB8_8320u32 } else { a >> 1 }) ^ (if b & 1 == 1 {
        (b >> 1) ^ 0xEDB8_8320u32
    } else {
        b >> 1
    }) == (if (a ^ b) & 1 == 1 {
        ((a ^ b) >> 1) ^ 0xEDB8_8320u32
    } else {
        (a ^ b) >> 1
    })) by (bit_vector);
}

proof fn lemma_shift_nonzero(a: u32)
    requires
        a != 0,
    ensures
        crc_shift(a) != 0,
{
    assert(a != 0 ==> (if a & 1 == 1 { (a >> 1) ^ 0xEDB8_8320u32 } else { a >> 1 }) != 0)
        by (bit_vector);
}

proof fn lemma_shift8_linear_nonzero(a: u32, b: u32)
    ensures
        crc_shift8(a) ^ crc_shift8(b) == crc_shift8(a ^ b),
        a != b ==> crc_shift8(a) != crc_shift8(b),
{
    let x = a;
    let y = b;
    // Each step keeps the xor of the two registers equal to the step applied to their xor.
    lemma_shift_linear(x, y);
    lemma_shift_linear(crc_shift(x), crc_shift(y));
    lemma_shift_linear(crc_shift(crc_shift(x)), crc_shift(crc_shift(y)));
    lemma_shift_linear(crc_shift(crc_shift(crc_shift(x))), crc_shift(crc_shift(crc_shift(y))));
    lemma_shift_linear(
        crc_shift(crc_shift(crc_shift(crc_shift(x)))),
        crc_shift(crc_shift(crc_shift(crc_shift(y)))),
    );
    lemma_shift_linear(
        crc_shift(crc_shift(crc_shift(crc_shift(crc_shift(x))))),
        crc_shift(crc_shift(crc_shift(crc_shift(crc_shift(y))))),
    );
    lemma_shift_linear(
        crc_shift(crc_shift(crc_shift(crc_shift(crc_shift(crc_shift(x)))))),
        crc_shift(crc_shift(crc_shift(crc_shift(crc_shift(crc_shift(y)))))),
    );
    lemma_shift_linear(
        crc_shift(crc_shift(crc_shift(crc_shift(crc_shift(crc_shift(crc_shift(x))))))),
        crc_shift(crc_shift(crc_shift(crc_shift(crc_shift(crc_shift(crc_shift(y))))))),
    );
    if a != b {
        let d = a ^ b;
        assert(a != b ==> a ^ b != 0) by (bit_vector);
        lemma_shift_nonzero(d);
        lemma_shift_nonzero(crc_shift(d));
        lemma_shift_nonzero(crc_shift(crc_shift(d)));
        lemma_shift_nonzero(crc_shift(crc_shift(crc_shift(d))));
        lemma_shift_nonzero(crc_shift(crc_shift(crc_shift(crc_shift(d)))));
        lemma_shift_nonzero(crc_shift(crc_shift(crc_shift(crc_shift(crc_shift(d))))));
        lemma_shift_nonzero(crc_shift(crc_shift(crc_shift(crc_shift(crc_shift(crc_shift(d)))))));
        lemma_shift_nonzero(
            crc_shift(crc_shift(crc_shift(crc_shift(crc_shift(crc_shift(crc_shift(d))))))),
        );
        let p = crc_shift8(a);
        let q = crc_shift8(b);
        assert(p ^ q != 0 ==> p != q) by (bit_vector);
    }
}

/// Registers that differ still differ after taking in the same byte.
proof fn lemma_step_keeps_registers_apart(c1: u32, c2: u32, b: u8)
    requires
        c1 != c2,
    ensures
        crc_step(c1, b) != crc_step(c2, b),
{
    let bb = b as u32;
    assert(c1 != c2 ==> (c1 ^ bb) != (c2 ^ bb)) by (bit_vector);
    lemma_shift8_linear_nonzero(c1 ^ bb, c2 ^ bb);
}

/// The same register differs after taking in two different bytes.
proof fn lemma_step_tells_bytes_apart(c: u32, b1: u8, b2: u8)
    requires
        b1 != b2,
    ensures
        crc_step(c, b1) != crc_step(c, b2),
{
    let x1 = b1 as u32;
    let x2 = b2 as u32;
    assert(b1 != b2 ==> x1 != x2);
    assert(x1 != x2 ==> (c ^ x1) != (c ^ x2)) by (bit_vector);
    lemma_shift8_linear_nonzero(c ^ x1, c ^ x2);
}

/// Registers that differ still differ after taking in the same bytes.
proof fn lemma_register_keeps_apart(c1: u32, c2: u32, bytes: Seq<u8>)
    requires
        c1 != c2,
    ensures
        crc_register(c1, bytes) != crc_register(c2, bytes),
    decreases bytes.len(),
{
    if bytes.len() > 0 {
        lemma_step_keeps_registers_apart(c1, c2, bytes[0]);
        lemma_register_keeps_apart(crc_step(c1, bytes[0]), crc_step(c2, bytes[0]), bytes.drop_first());
    }
}

/// The register tells apart two inputs that differ in one byte.
proof fn lemma_register_single_change(c: u32, bytes: Seq<u8>, j: int, x: u8)
    requires
        0 <= j < bytes.len(),
        x != bytes[j],
    ensures
        crc_register(c, bytes.update(j, x)) != crc_register(c, bytes),
    decreases bytes.len(),
{
    let changed = bytes.update(j, x);
    if j == 0 {
        lemma_step_tells_bytes_apart(c, x, bytes[0]);
        assert(changed.drop_first() =~= bytes.drop_first());
        lemma_register_keeps_apart(crc_step(c, x), crc_step(c, bytes[0]), bytes.drop_first());
    } else {
        assert(changed.drop_first() =~= bytes.drop_first().update(j - 1, x));
        lemma_register_single_change(crc_step(c, bytes[0]), bytes.drop_first(), j - 1, x);
    }
}

/// CRC-32 detects every change of a single byte: changing any one byte of any input
/// changes its CRC-32.
pub proof fn lemma_crc32_detects_single_byte_change(bytes: Seq<u8>, j: int, x: u8)
    requires
        0 <= j < bytes.len(),
        x != bytes[j],
    ensures
        crc32_ieee(bytes.update(j, x)) != crc32_ieee(bytes),
{
    lemma_register_single_change(0xFFFF_FFFFu32, bytes, j, x);
    let r1 = crc_register(0xFFFF_FFFFu32, bytes.update(j, x));
    let r2 = crc_register(0xFFFF_FFFFu32, bytes);
    assert(r1 != r2 ==> !r1 != !r2) by (bit_vector);
}

} // verus!
