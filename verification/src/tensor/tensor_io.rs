use vstd::prelude::*;

use crate::brain::framing::{le32_bytes, le32_value, lemma_le32_round_trip};
use crate::tensor::errors::{tensor_error_text, TensorError};
use crate::tensor::shape::{element_count, element_count_or_max, product_overflows};
use crate::text::{append_decimal, decimal_seq};

verus! {

/// The length of a binary tensor's header: the magic, then four little-endian `u64` sizes.
pub const TENSOR4D_HEADER_LEN: usize = 36;

/// `T4D1`, the first bytes of a binary tensor.
pub open spec fn tensor4d_magic() -> Seq<u8> {
    seq![84u8, 52u8, 68u8, 49u8]
}

/// Why a tensor cannot be saved or read. A file or JSON error carries the text of the
/// error that the file system or the JSON codec gave.
#[derive(Debug, Clone, PartialEq, Eq)]
pub enum TensorIoError {
    Io(String),
    Json(String),
    Tensor(TensorError),
    InvalidMagic,
    CorruptPayload { expected_bytes: usize, actual_bytes: usize },
}

pub open spec fn tensor_io_error_text(e: TensorIoError) -> Seq<char> {
    match e {
        TensorIoError::Io(m) => "tensor I/O error: "@ + m@,
        TensorIoError::Json(m) => "tensor JSON error: "@ + m@,
        TensorIoError::Tensor(t) => "tensor error: "@ + tensor_error_text(t),
        TensorIoError::InvalidMagic => "invalid tensor binary magic header"@,
        TensorIoError::CorruptPayload { expected_bytes, actual_bytes } => "corrupt tensor payload: expected "@
            + decimal_seq(expected_bytes as nat) + " bytes, got "@ + decimal_seq(actual_bytes as nat)
            + " bytes"@,
    }
}

impl TensorIoError {
    /// The text that the error displays.
    pub fn message(&self) -> (r: String)
        ensures
            r@ == tensor_io_error_text(*self),
    {
        match self {
            TensorIoError::Io(m) => {
                let mut out = "tensor I/O error: ".to_string();
                out.append(m.as_str());
                out
            },
            TensorIoError::Json(m) => {
                let mut out = "tensor JSON error: ".to_string();
                out.append(m.as_str());
                out
            },
            TensorIoError::Tensor(t) => {
                let mut out = "tensor error: ".to_string();
                let text = t.message();
                out.append(text.as_str());
                out
            },
            TensorIoError::InvalidMagic => "invalid tensor binary magic header".to_string(),
            TensorIoError::CorruptPayload { expected_bytes, actual_bytes } => {
                let mut out = "corrupt tensor payload: expected ".to_string();
                append_decimal(&mut out, *expected_bytes as u64);
                out.append(" bytes, got ");
                append_decimal(&mut out, *actual_bytes as u64);
                out.append(" bytes");
                out
            },
        }
    }
}

/// The eight little-endian bytes of `n`.
pub open spec fn le64_bytes(n: nat) -> Seq<u8> {
    le32_bytes(n % 0x1_0000_0000) + le32_bytes(n / 0x1_0000_0000)
}

/// The value of eight little-endian bytes.
pub open spec fn le64_value(b: Seq<u8>) -> nat
    recommends
        b.len() >= 8,
{
    le32_value(b) + 0x1_0000_0000 * le32_value(b.skip(4))
}

/// The bytes of the values of a tensor, each value by the four little-endian bytes of its bits.
pub open spec fn words_bytes(d: Seq<u32>) -> Seq<u8> {
    Seq::new(4 * d.len(), |j: int| le32_bytes(d[j / 4] as nat)[j % 4])
}

/// The values whose bits the bytes hold, four little-endian bytes each; a last incomplete
/// group is not read.
pub open spec fn words_of(p: Seq<u8>) -> Seq<u32> {
    Seq::new(p.len() / 4, |i: int| le32_value(p.subrange(4 * i, 4 * i + 4)) as u32)
}

/// The bytes of a binary tensor of the given shape: the magic, the four sizes, then the bits
/// of its values.
pub open spec fn tensor4d_bytes(shape: (usize, usize, usize, usize), data: Seq<u32>) -> Seq<u8> {
    tensor4d_magic() + le64_bytes(shape.0 as nat) + le64_bytes(shape.1 as nat) + le64_bytes(
        shape.2 as nat,
    ) + le64_bytes(shape.3 as nat) + words_bytes(data)
}

/// `4 * count`, at most `usize::MAX`.
pub open spec fn byte_count_or_max(count: usize) -> usize {
    if 4 * count > usize::MAX {
        usize::MAX
    } else {
        (4 * count) as usize
    }
}

/// The shape a binary tensor's header declares.
pub open spec fn header_shape(b: Seq<u8>) -> (usize, usize, usize, usize) {
    (
        le64_value(b.subrange(4, 12)) as usize,
        le64_value(b.subrange(12, 20)) as usize,
        le64_value(b.subrange(20, 28)) as usize,
        le64_value(b.subrange(28, 36)) as usize,
    )
}

/// The number of payload bytes a binary tensor's header calls for.
pub open spec fn header_payload_len(b: Seq<u8>) -> usize {
    let s = header_shape(b);
    byte_count_or_max(element_count_or_max(s.0, s.1, s.2, s.3))
}

/// Copies the bits of the values.
fn copy_words(data: &[u32]) -> (r: Vec<u32>)
    ensures
        r@ == data@,
{
    let mut out: Vec<u32> = Vec::new();
    let mut i: usize = 0;
    while i < data.len()
        invariant
            i <= data.len(),
            out@ == data@.take(i as int),
        decreases data.len() - i,
    {
        out.push(data[i]);
        i = i + 1;
        assert(out@ =~= data@.take(i as int));
    }
    assert(data@.take(data.len() as int) =~= data@);
    out
}

/// The two halves of the little-endian bytes of a `u64`.
proof fn lemma_le64_split(n: nat)
    requires
        n < 0x1_0000_0000_0000_0000,
    ensures
        n % 0x1_0000_0000 < 0x1_0000_0000,
        n / 0x1_0000_0000 < 0x1_0000_0000,
        le64_bytes(n).len() == 8,
        le64_value(le64_bytes(n)) == n,
{
    lemma_le32_round_trip(n % 0x1_0000_0000);
    lemma_le32_round_trip(n / 0x1_0000_0000);
    let b = le64_bytes(n);
    assert(b.skip(4) =~= le32_bytes(n / 0x1_0000_0000));
    assert(le32_value(b) == le32_value(le32_bytes(n % 0x1_0000_0000)));
}

fn push_le64(out: &mut Vec<u8>, n: u64)
    ensures
        final(out)@ == old(out)@ + le64_bytes(n as nat),
{
    let lo = n % 0x1_0000_0000;
    let hi = n / 0x1_0000_0000;
    crate::brain::framing::push_le32(out, lo as u32);
    crate::brain::framing::push_le32(out, hi as u32);
    assert(out@ =~= old(out)@ + le64_bytes(n as nat));
}

/// The value of the four little-endian bytes at `at`.
fn read_le32(bytes: &[u8], at: usize) -> (r: u32)
    requires
        at + 4 <= bytes@.len(),
    ensures
        r as nat == le32_value(bytes@.subrange(at as int, at + 4)),
{
    let b0 = bytes[at] as u32;
    let b1 = bytes[at + 1] as u32;
    let b2 = bytes[at + 2] as u32;
    let b3 = bytes[at + 3] as u32;
    b0 + 256 * b1 + 65536 * b2 + 16777216 * b3
}

/// The value of the eight little-endian bytes at `at`.
fn read_le64(bytes: &[u8], at: usize) -> (r: u64)
    requires
        at + 8 <= bytes@.len(),
    ensures
        r as nat == le64_value(bytes@.subrange(at as int, at + 8)),
{
    assert(bytes@.len() == bytes.len());
    let lo = read_le32(bytes, at);
    let hi = read_le32(bytes, at + 4);
    proof {
        let s = bytes@.subrange(at as int, at + 8);
        assert(s.subrange(0, 4) =~= bytes@.subrange(at as int, at + 4));
        assert(s.skip(4).subrange(0, 4) =~= bytes@.subrange(at + 4, at + 8));
    }
    (lo as u64) + 0x1_0000_0000u64 * (hi as u64)
}

/// Appending the bits of one more value appends its four little-endian bytes.
proof fn lemma_words_bytes_push(d: Seq<u32>, v: u32)
    ensures
        words_bytes(d.push(v)) == words_bytes(d) + le32_bytes(v as nat),
{
    let l = words_bytes(d.push(v));
    let r = words_bytes(d) + le32_bytes(v as nat);
    assert(l.len() == r.len());
    assert forall|j: int| 0 <= j < l.len() implies l[j] == r[j] by {
        if j < 4 * d.len() {
            assert(j / 4 < d.len());
        } else {
            assert(j / 4 == d.len());
            assert(j % 4 == j - 4 * d.len());
        }
    }
    assert(l =~= r);
}

/// The bytes of a binary tensor: the `T4D1` magic, the four sizes as little-endian `u64`,
/// then the little-endian bytes of the bits (`f32::to_bits`) of each value.
pub fn tensor4d_to_binary_bytes(shape: (usize, usize, usize, usize), data: &[u32]) -> (r: Vec<u8>)
    requires
        data@.len() == shape.0 * shape.1 * shape.2 * shape.3,
        36 + 4 * data@.len() <= usize::MAX,
    ensures
        r@ == tensor4d_bytes(shape, data@),
{
    let mut out: Vec<u8> = Vec::new();
    out.push(84u8);
    out.push(52u8);
    out.push(68u8);
    out.push(49u8);
    push_le64(&mut out, shape.0 as u64);
    push_le64(&mut out, shape.1 as u64);
    push_le64(&mut out, shape.2 as u64);
    push_le64(&mut out, shape.3 as u64);
    let ghost header = out@;
    assert(header =~= tensor4d_magic() + le64_bytes(shape.0 as nat) + le64_bytes(shape.1 as nat)
        + le64_bytes(shape.2 as nat) + le64_bytes(shape.3 as nat));
    let mut i: usize = 0;
    while i < data.len()
        invariant
            i <= data.len(),
            out@ == header + words_bytes(data@.take(i as int)),
        decreases data.len() - i,
    {
        proof {
            lemma_words_bytes_push(data@.take(i as int), data@[i as int]);
            assert(data@.take(i as int).push(data@[i as int]) =~= data@.take(i + 1));
        }
        crate::brain::framing::push_le32(&mut out, data[i]);
        i = i + 1;
        assert(out@ =~= header + words_bytes(data@.take(i as int)));
    }
    assert(data@.take(data.len() as int) =~= data@);
    out
}

/// Reads a binary tensor: its shape and the bits (`f32::from_bits`) of its values. Bytes
/// shorter than the header and a payload of another length than the shape calls for are
/// corrupt; bytes that do not start with `T4D1` are refused.
pub fn tensor4d_from_binary_bytes(bytes: &[u8]) -> (r: Result<((usize, usize, usize, usize), Vec<u32>), TensorIoError>)
    ensures
        ({
            let b = bytes@;
            if b.len() < 36 {
                r matches Err(TensorIoError::CorruptPayload { expected_bytes, actual_bytes })
                    && expected_bytes == 36 && actual_bytes == b.len()
            } else if b.take(4) != tensor4d_magic() {
                r matches Err(TensorIoError::InvalidMagic)
            } else if b.len() - 36 != header_payload_len(b) {
                r matches Err(TensorIoError::CorruptPayload { expected_bytes, actual_bytes })
                    && expected_bytes == header_payload_len(b) && actual_bytes == b.len() - 36
            } else {
                r matches Ok((shape, data)) && shape == header_shape(b) && data@ == words_of(b.skip(36))
            }
        }),
{
    if bytes.len() < TENSOR4D_HEADER_LEN {
        return Err(TensorIoError::CorruptPayload { expected_bytes: TENSOR4D_HEADER_LEN, actual_bytes: bytes.len() });
    }
    if !(bytes[0] == 84u8 && bytes[1] == 52u8 && bytes[2] == 68u8 && bytes[3] == 49u8) {
        proof {
            if bytes@.take(4) == tensor4d_magic() {
                assert(bytes@.take(4)[0] == 84u8);
                assert(bytes@.take(4)[1] == 52u8);
                assert(bytes@.take(4)[2] == 68u8);
                assert(bytes@.take(4)[3] == 49u8);
            }
        }
        return Err(TensorIoError::InvalidMagic);
    }
    assert(bytes@.take(4) =~= tensor4d_magic());
    let n = read_le64(bytes, 4) as usize;
    let c = read_le64(bytes, 12) as usize;
    let h = read_le64(bytes, 20) as usize;
    let w = read_le64(bytes, 28) as usize;
    let count = element_count(n, c, h, w);
    let expected_bytes = match count.checked_mul(4) {
        Some(b) => b,
        None => usize::MAX,
    };
    let payload_len = bytes.len() - TENSOR4D_HEADER_LEN;
    if payload_len != expected_bytes {
        return Err(TensorIoError::CorruptPayload { expected_bytes, actual_bytes: payload_len });
    }
    let ghost p = bytes@.skip(36);
    let words = payload_len / 4;
    let mut data: Vec<u32> = Vec::new();
    let mut i: usize = 0;
    while i < words
        invariant
            i <= words,
            words == p.len() / 4,
            p == bytes@.skip(36),
            bytes@.len() == 36 + p.len(),
            bytes@.len() == bytes.len(),
            data@ == words_of(p).take(i as int),
        decreases words - i,
    {
        assert(4 * i + 4 <= p.len());
        let v = read_le32(bytes, 36 + 4 * i);
        proof {
            assert(bytes@.subrange(36 + 4 * i, 36 + 4 * i + 4) =~= p.subrange(4 * i, 4 * i + 4));
            assert(words_of(p).take(i + 1) =~= words_of(p).take(i as int).push(v));
        }
        data.push(v);
        i = i + 1;
    }
    assert(words_of(p).take(words as int) =~= words_of(p));
    Ok(((n, c, h, w), data))
}

/// The bits of values read back from their bytes.
proof fn lemma_words_round_trip(data: Seq<u32>)
    ensures
        words_bytes(data).len() == 4 * data.len(),
        words_of(words_bytes(data)) == data,
{
    let p = words_bytes(data);
    assert forall|i: int| 0 <= i < data.len() implies #[trigger] words_of(p)[i] == data[i] by {
        lemma_le32_round_trip(data[i] as nat);
        let q = p.subrange(4 * i, 4 * i + 4);
        assert forall|k: int| 0 <= k < 4 implies q[k] == le32_bytes(data[i] as nat)[k] by {
            assert((4 * i + k) / 4 == i);
            assert((4 * i + k) % 4 == k);
        }
        assert(q =~= le32_bytes(data[i] as nat));
    }
    assert(words_of(p) =~= data);
}

/// The parts of five byte strings of 4 and 8 bytes put one after the other.
proof fn lemma_header_parts(m: Seq<u8>, a: Seq<u8>, b: Seq<u8>, c: Seq<u8>, d: Seq<u8>)
    requires
        m.len() == 4,
        a.len() == 8,
        b.len() == 8,
        c.len() == 8,
        d.len() == 8,
    ensures
        ({
            let hdr = m + a + b + c + d;
            &&& hdr.len() == 36
            &&& hdr.take(4) == m
            &&& hdr.subrange(4, 12) == a
            &&& hdr.subrange(12, 20) == b
            &&& hdr.subrange(20, 28) == c
            &&& hdr.subrange(28, 36) == d
        }),
{
    let hdr = m + a + b + c + d;
    assert(hdr.take(4) =~= m);
    assert(hdr.subrange(4, 12) =~= a);
    assert(hdr.subrange(12, 20) =~= b);
    assert(hdr.subrange(20, 28) =~= c);
    assert(hdr.subrange(28, 36) =~= d);
}

/// The bytes of a size give it back.
proof fn lemma_le64_usize(x: usize)
    ensures
        le64_bytes(x as nat).len() == 8,
        le64_value(le64_bytes(x as nat)) as usize == x,
{
    lemma_le64_split(x as nat);
}

/// The header of a binary tensor: 36 bytes that give back its shape.
#[verifier::spinoff_prover]
proof fn lemma_header_round_trip(shape: (usize, usize, usize, usize))
    ensures
        ({
            let hdr = tensor4d_magic() + le64_bytes(shape.0 as nat) + le64_bytes(shape.1 as nat)
                + le64_bytes(shape.2 as nat) + le64_bytes(shape.3 as nat);
            &&& hdr.len() == 36
            &&& hdr.take(4) == tensor4d_magic()
            &&& header_shape(hdr) == shape
        }),
{
    lemma_le64_usize(shape.0);
    lemma_le64_usize(shape.1);
    lemma_le64_usize(shape.2);
    lemma_le64_usize(shape.3);
    lemma_header_parts(
        tensor4d_magic(),
        le64_bytes(shape.0 as nat),
        le64_bytes(shape.1 as nat),
        le64_bytes(shape.2 as nat),
        le64_bytes(shape.3 as nat),
    );
}

/// A binary tensor reads back as the shape and values it was written from: for every tensor
/// whose values fill its shape, as the element-count check of a tensor accepts them, and whose
/// encoding fits in memory.
pub proof fn lemma_tensor4d_round_trip(shape: (usize, usize, usize, usize), data: Seq<u32>)
    requires
        data.len() == element_count_or_max(shape.0, shape.1, shape.2, shape.3),
        36 + 4 * data.len() <= usize::MAX,
    ensures
        ({
            let b = tensor4d_bytes(shape, data);
            &&& b.len() == 36 + 4 * data.len()
            &&& b.take(4) == tensor4d_magic()
            &&& header_shape(b) == shape
            &&& b.len() - 36 == header_payload_len(b)
            &&& words_of(b.skip(36)) == data
        }),
{
    assert(!product_overflows(shape.0, shape.1, shape.2, shape.3));
    let hdr = tensor4d_magic() + le64_bytes(shape.0 as nat) + le64_bytes(shape.1 as nat) + le64_bytes(
        shape.2 as nat,
    ) + le64_bytes(shape.3 as nat);
    lemma_header_round_trip(shape);
    lemma_words_round_trip(data);
    let b = tensor4d_bytes(shape, data);
    assert(b == hdr + words_bytes(data));
    assert(b.take(36) =~= hdr);
    assert(b.skip(36) =~= words_bytes(data));
    assert(b.take(4) =~= hdr.take(4));
    assert(b.subrange(4, 12) =~= hdr.subrange(4, 12));
    assert(b.subrange(12, 20) =~= hdr.subrange(12, 20));
    assert(b.subrange(20, 28) =~= hdr.subrange(20, 28));
    assert(b.subrange(28, 36) =~= hdr.subrange(28, 36));
    assert(header_shape(b) == header_shape(hdr));
    assert(element_count_or_max(shape.0, shape.1, shape.2, shape.3) == data.len());
}

} // verus!
