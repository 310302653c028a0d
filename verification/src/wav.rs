use crate::errors::MicError;
use vstd::prelude::*;

verus! {

// A finished segment is serialized as a single-channel, 16-bit signed linear
// PCM stream inside a RIFF/WAVE container: a fixed 44-byte header (RIFF chunk,
// canonical 16-byte fmt chunk, data chunk header) followed by the samples in
// little-endian order. Every byte of the container is pinned down here, and a
// decoder plus a round-trip proof show the encoding loses nothing.

/// The `k`-th little-endian byte of a non-negative value.
pub open spec fn byte_at(v: int, k: int) -> u8
    recommends
        0 <= v,
        0 <= k < 4,
{
    ((v / pow256(k)) % 256) as u8
}

/// 256^k for the byte positions of 16- and 32-bit fields.
pub open spec fn pow256(k: int) -> int {
    if k <= 0 {
        1
    } else if k == 1 {
        0x100
    } else if k == 2 {
        0x10000
    } else {
        0x1000000
    }
}

/// The unsigned 16-bit code a sample is stored as (two's complement).
pub open spec fn sample_code(s: i16) -> int {
    if s >= 0 {
        s as int
    } else {
        s + 0x10000
    }
}

/// The sample an unsigned 16-bit code stands for (two's complement).
pub open spec fn code_sample(u: int) -> i16
    recommends
        0 <= u < 0x10000,
{
    if u < 0x8000 {
        u as i16
    } else {
        (u - 0x10000) as i16
    }
}

/// The PCM body: each sample as two little-endian bytes, in order.
pub open spec fn pcm_bytes(samples: Seq<i16>) -> Seq<u8>
    decreases samples.len(),
{
    if samples.len() == 0 {
        Seq::<u8>::empty()
    } else {
        seq![byte_at(sample_code(samples[0]), 0), byte_at(sample_code(samples[0]), 1)]
            + pcm_bytes(samples.skip(1))
    }
}

/// Whether `n` samples at `rate` fit the container's 32-bit size fields.
pub open spec fn wav_fits(rate: u32, n: int) -> bool {
    &&& 36 + 2 * n <= u32::MAX
    &&& 2 * (rate as int) <= u32::MAX
}

/// The byte at position `i` of the 44-byte container header: the RIFF chunk
/// ("RIFF", overall size, "WAVE"), the canonical 16-byte fmt chunk (linear
/// PCM, mono, the sample rate and the derived byte rate, block align 2,
/// 16 bits per sample), and the data chunk header ("data", payload size).
pub open spec fn header_byte(rate: u32, n: int, i: int) -> u8
    recommends
        wav_fits(rate, n),
        0 <= i < 44,
{
    let riff_size = 36 + 2 * n;
    let byte_rate = 2 * (rate as int);
    let data_size = 2 * n;
    if i == 0 {
        0x52
    } else if i == 1 {
        0x49
    } else if i == 2 {
        0x46
    } else if i == 3 {
        0x46
    } else if i < 8 {
        byte_at(riff_size, i - 4)
    } else if i == 8 {
        0x57
    } else if i == 9 {
        0x41
    } else if i == 10 {
        0x56
    } else if i == 11 {
        0x45
    } else if i == 12 {
        0x66
    } else if i == 13 {
        0x6d
    } else if i == 14 {
        0x74
    } else if i == 15 {
        0x20
    } else if i == 16 {
        16
    } else if i < 20 {
        0
    } else if i == 20 {
        1
    } else if i == 21 {
        0
    } else if i == 22 {
        1
    } else if i == 23 {
        0
    } else if i < 28 {
        byte_at(rate as int, i - 24)
    } else if i < 32 {
        byte_at(byte_rate, i - 28)
    } else if i == 32 {
        2
    } else if i == 33 {
        0
    } else if i == 34 {
        16
    } else if i == 35 {
        0
    } else if i == 36 {
        0x64
    } else if i == 37 {
        0x61
    } else if i == 38 {
        0x74
    } else if i == 39 {
        0x61
    } else {
        byte_at(data_size, i - 40)
    }
}

/// The 44-byte container header for `n` mono 16-bit samples at `rate`.
pub open spec fn wav_header(rate: u32, n: int) -> Seq<u8>
    recommends
        wav_fits(rate, n),
{
    Seq::new(44, |i: int| header_byte(rate, n, i))
}

/// The complete container for a segment.
pub open spec fn wav_bytes(rate: u32, samples: Seq<i16>) -> Seq<u8>
    recommends
        wav_fits(rate, samples.len() as int),
{
    wav_header(rate, samples.len() as int) + pcm_bytes(samples)
}

/// The value a little-endian field of two or four bytes at `i` holds.
pub open spec fn field_at(b: Seq<u8>, i: int, width: int) -> int {
    if width == 2 {
        b[i] + 0x100 * b[i + 1]
    } else {
        b[i] + 0x100 * b[i + 1] + 0x10000 * b[i + 2] + 0x1000000 * b[i + 3]
    }
}

/// What a container parses to: the sample rate and the samples, or nothing
/// if any part of the header is not the one `wav_bytes` writes.
pub open spec fn wav_parse(b: Seq<u8>) -> Option<(u32, Seq<i16>)> {
    if b.len() < 44 || (b.len() - 44) % 2 != 0 {
        None
    } else {
        let n = (b.len() - 44) / 2;
        let rate_val = field_at(b, 24, 4);
        if b[0] == 0x52 && b[1] == 0x49 && b[2] == 0x46 && b[3] == 0x46 && field_at(b, 4, 4)
            == b.len() - 8 && b[8] == 0x57 && b[9] == 0x41 && b[10] == 0x56 && b[11] == 0x45
            && b[12] == 0x66 && b[13] == 0x6d && b[14] == 0x74 && b[15] == 0x20 && field_at(
            b,
            16,
            4,
        ) == 16 && field_at(b, 20, 2) == 1 && field_at(b, 22, 2) == 1 && field_at(b, 28, 4) == 2
            * rate_val && field_at(b, 32, 2) == 2 && field_at(b, 34, 2) == 16 && b[36] == 0x64
            && b[37] == 0x61 && b[38] == 0x74 && b[39] == 0x61 && field_at(b, 40, 4) == 2 * n {
            Some((rate_val as u32, parse_pcm(b.skip(44))))
        } else {
            None
        }
    }
}

/// The samples a PCM body holds, two bytes each.
pub open spec fn parse_pcm(d: Seq<u8>) -> Seq<i16>
    decreases d.len(),
{
    if d.len() < 2 {
        Seq::<i16>::empty()
    } else {
        seq![code_sample(field_at(d, 0, 2))] + parse_pcm(d.skip(2))
    }
}

/// The PCM body is two bytes per sample.
pub proof fn lemma_pcm_len(samples: Seq<i16>)
    ensures
        pcm_bytes(samples).len() == 2 * samples.len(),
    decreases samples.len(),
{
    if samples.len() > 0 {
        lemma_pcm_len(samples.skip(1));
    }
}

/// A non-negative 32-bit value is recovered from its four little-endian bytes.
proof fn lemma_bytes_recompose(v: int)
    requires
        0 <= v <= u32::MAX,
    ensures
        byte_at(v, 0) + 0x100 * byte_at(v, 1) + 0x10000 * byte_at(v, 2) + 0x1000000 * byte_at(
            v,
            3,
        ) == v,
{
    assert(v == 256 * (v / 256) + v % 256) by (nonlinear_arith)
        requires 0 <= v;
    assert(v / 256 == 256 * (v / 256 / 256) + (v / 256) % 256) by (nonlinear_arith)
        requires 0 <= v;
    assert(v / 256 / 256 == 256 * (v / 256 / 256 / 256) + (v / 256 / 256) % 256)
        by (nonlinear_arith)
        requires 0 <= v;
    assert(v / 0x100 / 0x100 == v / 0x10000) by (nonlinear_arith)
        requires 0 <= v;
    assert(v / 0x10000 / 0x100 == v / 0x1000000) by (nonlinear_arith)
        requires 0 <= v;
    assert(v / 0x1000000 % 256 == v / 0x1000000) by (nonlinear_arith)
        requires 0 <= v <= u32::MAX;
}

/// A value below 2^16 is recovered from its two little-endian bytes.
proof fn lemma_bytes_recompose16(v: int)
    requires
        0 <= v < 0x10000,
    ensures
        byte_at(v, 0) + 0x100 * byte_at(v, 1) == v,
{
    assert(v == 256 * (v / 256) + v % 256) by (nonlinear_arith)
        requires 0 <= v;
    assert(v / 256 % 256 == v / 256) by (nonlinear_arith)
        requires 0 <= v < 0x10000;
}

/// Storing a sample and reading the code back is the identity.
pub proof fn lemma_sample_code_round(s: i16)
    ensures
        0 <= sample_code(s) < 0x10000,
        code_sample(sample_code(s)) == s,
{
}

/// Parsing the PCM body written for `samples` gives back `samples`.
proof fn lemma_parse_pcm_round(samples: Seq<i16>)
    ensures
        parse_pcm(pcm_bytes(samples)) =~= samples,
    decreases samples.len(),
{
    if samples.len() > 0 {
        let b = pcm_bytes(samples);
        let head = seq![byte_at(sample_code(samples[0]), 0), byte_at(sample_code(samples[0]), 1)];
        let rest = pcm_bytes(samples.skip(1));
        lemma_pcm_len(samples);
        lemma_pcm_len(samples.skip(1));
        assert(b.skip(2) =~= rest);
        lemma_sample_code_round(samples[0]);
        lemma_bytes_recompose16(sample_code(samples[0]));
        assert(field_at(b, 0, 2) == sample_code(samples[0]));
        lemma_parse_pcm_round(samples.skip(1));
    }
}

/// The header's fields read back as what was written into them.
proof fn lemma_header_fields(rate: u32, n: int)
    requires
        wav_fits(rate, n),
        0 <= n,
    ensures
        ({
            let h = wav_header(rate, n);
            &&& h.len() == 44
            &&& h[0] == 0x52 && h[1] == 0x49 && h[2] == 0x46 && h[3] == 0x46
            &&& h[8] == 0x57 && h[9] == 0x41 && h[10] == 0x56 && h[11] == 0x45
            &&& h[12] == 0x66 && h[13] == 0x6d && h[14] == 0x74 && h[15] == 0x20
            &&& h[36] == 0x64 && h[37] == 0x61 && h[38] == 0x74 && h[39] == 0x61
            &&& field_at(h, 4, 4) == 36 + 2 * n
            &&& field_at(h, 16, 4) == 16
            &&& field_at(h, 20, 2) == 1
            &&& field_at(h, 22, 2) == 1
            &&& field_at(h, 24, 4) == rate as int
            &&& field_at(h, 28, 4) == 2 * (rate as int)
            &&& field_at(h, 32, 2) == 2
            &&& field_at(h, 34, 2) == 16
            &&& field_at(h, 40, 4) == 2 * n
        }),
{
    lemma_bytes_recompose(36 + 2 * n);
    lemma_bytes_recompose(rate as int);
    lemma_bytes_recompose(2 * (rate as int));
    lemma_bytes_recompose(2 * n);
}

/// The container parser recovers the sample rate and every sample that
/// `wav_bytes` wrote: nothing is lost in encoding.
#[verifier::rlimit(50)]
pub proof fn lemma_wav_round_trip(rate: u32, samples: Seq<i16>)
    requires
        wav_fits(rate, samples.len() as int),
    ensures
        wav_parse(wav_bytes(rate, samples)) == Some((rate, samples)),
{
    let n = samples.len() as int;
    let b = wav_bytes(rate, samples);
    let h = wav_header(rate, n);
    lemma_pcm_len(samples);
    lemma_header_fields(rate, n);
    assert(b.len() == 44 + 2 * n);
    assert(forall|i: int| 0 <= i < 44 ==> b[i] == h[i]);
    assert(field_at(b, 4, 4) == field_at(h, 4, 4));
    assert(field_at(b, 16, 4) == field_at(h, 16, 4));
    assert(field_at(b, 20, 2) == field_at(h, 20, 2));
    assert(field_at(b, 22, 2) == field_at(h, 22, 2));
    assert(field_at(b, 24, 4) == field_at(h, 24, 4));
    assert(field_at(b, 28, 4) == field_at(h, 28, 4));
    assert(field_at(b, 32, 2) == field_at(h, 32, 2));
    assert(field_at(b, 34, 2) == field_at(h, 34, 2));
    assert(field_at(b, 40, 4) == field_at(h, 40, 4));
    assert(b.skip(44) =~= pcm_bytes(samples));
    lemma_parse_pcm_round(samples);
    assert(wav_parse(b) == Some((rate, samples)));
}

/// Pushes a 16-bit field in little-endian order.
fn push_u16_le(out: &mut Vec<u8>, x: u16)
    ensures
        final(out)@ =~= old(out)@ + seq![byte_at(x as int, 0), byte_at(x as int, 1)],
{
    out.push((x % 0x100) as u8);
    out.push((x / 0x100) as u8);
}

/// Pushes a 32-bit field in little-endian order.
fn push_u32_le(out: &mut Vec<u8>, x: u32)
    ensures
        final(out)@ =~= old(out)@ + seq![
            byte_at(x as int, 0),
            byte_at(x as int, 1),
            byte_at(x as int, 2),
            byte_at(x as int, 3),
        ],
{
    out.push((x % 0x100) as u8);
    out.push((x / 0x100 % 0x100) as u8);
    out.push((x / 0x10000 % 0x100) as u8);
    out.push((x / 0x1000000) as u8);
    proof {
        assert(x / 0x1000000 < 0x100) by (nonlinear_arith)
            requires x <= u32::MAX;
        assert(x as int / 0x100 % 0x100 == byte_at(x as int, 1));
        assert(x as int / 0x10000 % 0x100 == byte_at(x as int, 2));
        assert(x as int / 0x1000000 % 0x100 == x as int / 0x1000000) by (nonlinear_arith)
            requires 0 <= x <= u32::MAX;
    }
}

/// Serializes a finished segment as a mono 16-bit PCM container.
///
/// An empty segment is rejected as `EmptyInput`; a segment whose byte count
/// overflows the container's 32-bit size fields is rejected as
/// `EncodingError`. Every other segment encodes to exactly `wav_bytes`.
pub fn encode_wav(sample_rate: u32, samples: &Vec<i16>) -> (r: Result<Vec<u8>, MicError>)
    ensures
        samples@.len() == 0 ==> r == Err::<Vec<u8>, MicError>(MicError::EmptyInput),
        samples@.len() > 0 && !wav_fits(sample_rate, samples@.len() as int) ==> r == Err::<
            Vec<u8>,
            MicError,
        >(MicError::EncodingError),
        samples@.len() > 0 && wav_fits(sample_rate, samples@.len() as int) ==> matches!(r, Ok(_))
            && r->Ok_0@ == wav_bytes(sample_rate, samples@),
{
    let n = samples.len();
    if n == 0 {
        return Err(MicError::EmptyInput);
    }
    if n > ((u32::MAX - 36) / 2) as usize || sample_rate > u32::MAX / 2 {
        proof {
            assert(n > ((u32::MAX - 36) / 2) as usize ==> 36 + 2 * (n as int) > u32::MAX);
            assert(sample_rate > u32::MAX / 2 ==> 2 * (sample_rate as int) > u32::MAX);
        }
        return Err(MicError::EncodingError);
    }
    let data_size: u32 = 2 * (n as u32);
    let riff_size: u32 = 36 + data_size;
    let byte_rate: u32 = 2 * sample_rate;
    let mut out: Vec<u8> = Vec::new();
    out.push(0x52);
    out.push(0x49);
    out.push(0x46);
    out.push(0x46);
    push_u32_le(&mut out, riff_size);
    out.push(0x57);
    out.push(0x41);
    out.push(0x56);
    out.push(0x45);
    out.push(0x66);
    out.push(0x6d);
    out.push(0x74);
    out.push(0x20);
    push_u32_le(&mut out, 16);
    push_u16_le(&mut out, 1);
    push_u16_le(&mut out, 1);
    push_u32_le(&mut out, sample_rate);
    push_u32_le(&mut out, byte_rate);
    push_u16_le(&mut out, 2);
    push_u16_le(&mut out, 16);
    out.push(0x64);
    out.push(0x61);
    out.push(0x74);
    out.push(0x61);
    push_u32_le(&mut out, data_size);
    assert(out@ =~= wav_header(sample_rate, samples@.len() as int));
    let ghost header = out@;
    let mut i: usize = 0;
    while i < n
        invariant
            n == samples@.len(),
            0 <= i <= n,
            out@ =~= header + pcm_bytes(samples@.take(i as int)),
            header == wav_header(sample_rate, samples@.len() as int),
        decreases n - i,
    {
        let s = samples[i];
        let code: u16 = sample_code_exec(s);
        push_u16_le(&mut out, code);
        proof {
            lemma_pcm_snoc(samples@.take(i as int), samples@[i as int]);
            assert(samples@.take(i + 1) =~= samples@.take(i as int).push(samples@[i as int]));
        }
        i = i + 1;
    }
    assert(samples@.take(n as int) =~= samples@);
    Ok(out)
}

/// Appending one sample appends its two bytes.
proof fn lemma_pcm_snoc(samples: Seq<i16>, s: i16)
    ensures
        pcm_bytes(samples.push(s)) =~= pcm_bytes(samples) + seq![
            byte_at(sample_code(s), 0),
            byte_at(sample_code(s), 1),
        ],
    decreases samples.len(),
{
    reveal_with_fuel(pcm_bytes, 3);
    if samples.len() == 0 {
        assert(samples.push(s)[0] == s);
        assert(samples.push(s).skip(1) =~= Seq::<i16>::empty());
    } else {
        assert(samples.push(s)[0] == samples[0]);
        assert(samples.push(s).skip(1) =~= samples.skip(1).push(s));
        lemma_pcm_snoc(samples.skip(1), s);
    }
}

/// The unsigned 16-bit code of a sample.
fn sample_code_exec(s: i16) -> (u: u16)
    ensures
        u as int == sample_code(s),
{
    if s >= 0 {
        s as u16
    } else {
        ((s as i32) + 0x10000) as u16
    }
}

/// The sample an unsigned 16-bit code stands for.
fn code_sample_exec(u: u16) -> (s: i16)
    ensures
        s == code_sample(u as int),
{
    if u < 0x8000 {
        u as i16
    } else {
        ((u as i32) - 0x10000) as i16
    }
}

/// Parses a mono 16-bit PCM container, the exact inverse of `encode_wav`
/// on its output; anything else comes back as `None`.
pub fn decode_wav(bytes: &Vec<u8>) -> (r: Option<(u32, Vec<i16>)>)
    ensures
        match r {
            Some(p) => wav_parse(bytes@) == Some((p.0, p.1@)),
            None => wav_parse(bytes@) is None,
        },
{
    let len = bytes.len();
    if len < 44 || (len - 44) % 2 != 0 {
        return None;
    }
    if !(bytes[0] == 0x52 && bytes[1] == 0x49 && bytes[2] == 0x46 && bytes[3] == 0x46) {
        return None;
    }
    if !(bytes[8] == 0x57 && bytes[9] == 0x41 && bytes[10] == 0x56 && bytes[11] == 0x45) {
        return None;
    }
    if !(bytes[12] == 0x66 && bytes[13] == 0x6d && bytes[14] == 0x74 && bytes[15] == 0x20) {
        return None;
    }
    if !(bytes[36] == 0x64 && bytes[37] == 0x61 && bytes[38] == 0x74 && bytes[39] == 0x61) {
        return None;
    }
    let riff_size = read_u32_le(bytes, 4);
    let fmt_len = read_u32_le(bytes, 16);
    let audio_format = read_u16_le(bytes, 20);
    let channels = read_u16_le(bytes, 22);
    let rate = read_u32_le(bytes, 24);
    let byte_rate = read_u32_le(bytes, 28);
    let block_align = read_u16_le(bytes, 32);
    let bits = read_u16_le(bytes, 34);
    let data_size = read_u32_le(bytes, 40);
    let n = (len - 44) / 2;
    if !(riff_size as usize == len - 8 && fmt_len == 16 && audio_format == 1 && channels == 1
        && block_align == 2 && bits == 16) {
        return None;
    }
    if !(rate <= u32::MAX / 2 && byte_rate == 2 * rate) {
        return None;
    }
    if !(n <= (u32::MAX / 2) as usize && data_size as usize == 2 * n) {
        return None;
    }
    proof {
        assert(field_at(bytes@, 28, 4) == 2 * field_at(bytes@, 24, 4));
        assert(field_at(bytes@, 40, 4) == 2 * ((bytes@.len() - 44) / 2));
    }
    let mut samples: Vec<i16> = Vec::new();
    let mut i: usize = 0;
    while i < n
        invariant
            n == (bytes@.len() - 44) / 2,
            bytes@.len() == 44 + 2 * n,
            bytes@.len() <= usize::MAX,
            0 <= i <= n,
            samples@ =~= parse_pcm(bytes@.skip(44)).take(i as int),
            parse_pcm(bytes@.skip(44)).len() >= i,
        decreases n - i,
    {
        let code = read_u16_le(bytes, 44 + 2 * i);
        let s = code_sample_exec(code);
        proof {
            lemma_parse_pcm_index(bytes@.skip(44), i as int);
            assert(field_at(bytes@.skip(44), 2 * (i as int), 2) == field_at(
                bytes@,
                44 + 2 * (i as int),
                2,
            ));
            assert(parse_pcm(bytes@.skip(44)).take(i + 1) =~= parse_pcm(bytes@.skip(44)).take(
                i as int,
            ).push(parse_pcm(bytes@.skip(44))[i as int]));
        }
        samples.push(s);
        i = i + 1;
    }
    proof {
        lemma_parse_pcm_index(bytes@.skip(44), 0);
        assert(parse_pcm(bytes@.skip(44)).take(n as int) =~= parse_pcm(bytes@.skip(44)));
    }
    Some((rate, samples))
}

/// The parsed PCM body has one sample for each byte pair, read in place.
proof fn lemma_parse_pcm_index(d: Seq<u8>, i: int)
    requires
        d.len() % 2 == 0,
        0 <= i,
        2 * i <= d.len(),
    ensures
        parse_pcm(d).len() == d.len() / 2,
        2 * i < d.len() ==> parse_pcm(d)[i] == code_sample(field_at(d, 2 * i, 2)),
    decreases d.len(),
{
    if d.len() >= 2 {
        assert(d.skip(2).len() % 2 == 0);
        if i > 0 {
            lemma_parse_pcm_index(d.skip(2), i - 1);
            if 2 * i < d.len() {
                assert(field_at(d.skip(2), 2 * (i - 1), 2) == field_at(d, 2 * i, 2));
            }
        } else {
            lemma_parse_pcm_index(d.skip(2), 0);
        }
    }
}

/// Reads a 16-bit little-endian field.
fn read_u16_le(bytes: &Vec<u8>, i: usize) -> (x: u16)
    requires
        i + 2 <= bytes@.len(),
    ensures
        x as int == field_at(bytes@, i as int, 2),
{
    let len = bytes.len();
    bytes[i] as u16 + 0x100 * (bytes[i + 1] as u16)
}

/// Reads a 32-bit little-endian field.
fn read_u32_le(bytes: &Vec<u8>, i: usize) -> (x: u32)
    requires
        i + 4 <= bytes@.len(),
    ensures
        x as int == field_at(bytes@, i as int, 4),
{
    let len = bytes.len();
    bytes[i] as u32 + 0x100 * (bytes[i + 1] as u32) + 0x10000 * (bytes[i + 2] as u32) + 0x1000000
        * (bytes[i + 3] as u32)
}

} // verus!
