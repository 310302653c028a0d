use crate::errors::MicError;
use crate::wav::{encode_wav, wav_bytes, wav_fits};
use base64::Engine;
use vstd::prelude::*;

verus! {

// A finished segment leaves the library as text: the PCM container bytes in
// the standard base64 alphabet with padding. The base64 step is an outside
// call; its result is named, and everything around it is verified.

/// What the standard padded base64 encoding of `bytes` is. The encoding is a
/// function of the bytes alone; only its length is stated beside the name.
pub uninterp spec fn base64_of(bytes: Seq<u8>) -> Seq<char>;

/// Relies on base64's `Engine::encode` with the standard padded alphabet:
/// the output is four characters for every started group of three bytes, and
/// depends on the input bytes alone. The length bound keeps the call from
/// panicking on its internal size computation.
#[verifier::external_body]
fn base64_encode(bytes: &Vec<u8>) -> (r: String)
    requires
        4 * ((bytes@.len() + 2) / 3) <= usize::MAX,
    ensures
        r@ == base64_of(bytes@),
        r@.len() == 4 * ((bytes@.len() + 2) / 3),
{
    base64::engine::general_purpose::STANDARD.encode(bytes.as_slice())
}

/// Whether the transport encoding of `l` bytes fits in an addressable string.
pub open spec fn b64_fits(l: int) -> bool {
    l / 3 <= usize::MAX as int / 4 - 2
}

/// What one segment encodes to, if it can be encoded at all: `None` for an
/// empty segment and for one whose container or transport encoding would not
/// fit, otherwise the base64 text of its container bytes.
pub open spec fn encode_clip(rate: u32, seg: Seq<i16>) -> Option<Seq<char>> {
    if seg.len() == 0 {
        None
    } else if !wav_fits(rate, seg.len() as int) {
        None
    } else if !b64_fits(44 + 2 * seg.len() as int) {
        None
    } else {
        Some(base64_of(wav_bytes(rate, seg)))
    }
}

/// Serializes a segment as a mono 16-bit PCM container and returns the
/// base64 text of the container bytes.
///
/// Returns `EmptyInput` exactly on an empty segment, `EncodingError` exactly
/// when a size field of the container or the length of the transport
/// encoding would overflow, and the encoded clip otherwise.
pub fn samples_to_wav_b64(sample_rate: u32, samples: &Vec<i16>) -> (r: Result<String, MicError>)
    ensures
        match r {
            Ok(s) => encode_clip(sample_rate, samples@) == Some(s@),
            Err(e) => encode_clip(sample_rate, samples@) is None && e == (
            if samples@.len() == 0 {
                MicError::EmptyInput
            } else {
                MicError::EncodingError
            }),
        },
{
    let bytes = match encode_wav(sample_rate, samples) {
        Ok(b) => b,
        Err(e) => {
            return Err(e);
        },
    };
    proof {
        crate::wav::lemma_pcm_len(samples@);
        assert(bytes@.len() == 44 + 2 * samples@.len());
    }
    if bytes.len() / 3 > usize::MAX / 4 - 2 {
        return Err(MicError::EncodingError);
    }
    proof {
        let l = bytes@.len() as int;
        assert((l + 2) / 3 <= l / 3 + 1) by (nonlinear_arith);
        assert(4 * (l / 3 + 1) <= 4 * (usize::MAX as int / 4 - 1)) by (nonlinear_arith)
            requires l / 3 <= usize::MAX as int / 4 - 2;
        assert(4 * (usize::MAX as int / 4) <= usize::MAX) by (nonlinear_arith);
    }
    Ok(base64_encode(&bytes))
}

/// The clips that a sequence of segments encodes to, in order, with the
/// unencodable ones dropped.
pub open spec fn encode_all(rate: u32, segs: Seq<Seq<i16>>) -> Seq<Seq<char>>
    decreases segs.len(),
{
    if segs.len() == 0 {
        Seq::<Seq<char>>::empty()
    } else {
        let rest = encode_all(rate, segs.skip(1));
        match encode_clip(rate, segs[0]) {
            Some(c) => seq![c] + rest,
            None => rest,
        }
    }
}

/// Appending one segment appends its clip, if it has one.
pub proof fn lemma_encode_all_snoc(rate: u32, segs: Seq<Seq<i16>>, seg: Seq<i16>)
    ensures
        encode_all(rate, segs.push(seg)) =~= encode_all(rate, segs) + (match encode_clip(
            rate,
            seg,
        ) {
            Some(c) => seq![c],
            None => Seq::<Seq<char>>::empty(),
        }),
    decreases segs.len(),
{
    reveal_with_fuel(encode_all, 3);
    if segs.len() == 0 {
        assert(segs.push(seg)[0] == seg);
        assert(segs.push(seg).skip(1) =~= Seq::<Seq<i16>>::empty());
    } else {
        assert(segs.push(seg)[0] == segs[0]);
        assert(segs.push(seg).skip(1) =~= segs.skip(1).push(seg));
        lemma_encode_all_snoc(rate, segs.skip(1), seg);
    }
}

} // verus!
