use crate::encode::{encode_all, lemma_encode_all_snoc, samples_to_wav_b64};
use vstd::arithmetic::div_mod::{
    lemma_div_is_ordered, lemma_div_multiples_vanish, lemma_fundamental_div_mod_converse,
};
use vstd::arithmetic::mul::lemma_mul_inequality;
use vstd::prelude::*;

verus! {

// The streaming voice-activity segmentation engine. Mono audio arrives in
// arbitrary chunks of 16-bit samples; the engine cuts it into fixed-size
// analysis frames, classifies each frame as speech or silence by its energy,
// and assembles completed utterances: a rolling window of lead-in audio, the
// speech itself, and a short retained tail of the closing silence.
//
// The whole behaviour is given by the mathematical model below: `vad_step`
// says what one frame does to the state and what it emits, `vad_run` folds it
// over a frame sequence, and `vad_feed` adds the carry buffer that chunk
// boundaries make necessary. The executable engine is proved to implement
// `vad_feed` exactly.

/// The absolute value of a sample.
pub open spec fn abs_val(s: i16) -> int {
    if s >= 0 {
        s as int
    } else {
        -(s as int)
    }
}

/// The sum of the squared samples of a frame.
pub open spec fn sum_squares(f: Seq<i16>) -> int
    decreases f.len(),
{
    if f.len() == 0 {
        0
    } else {
        sum_squares(f.drop_last()) + f.last() * f.last()
    }
}

/// The largest absolute sample of a frame.
pub open spec fn peak_level(f: Seq<i16>) -> int
    decreases f.len(),
{
    if f.len() == 0 {
        0
    } else if abs_val(f.last()) > peak_level(f.drop_last()) {
        abs_val(f.last())
    } else {
        peak_level(f.drop_last())
    }
}

/// The rolling state of the engine, with its fixed tuning. Thresholds are in
/// sample units at 16-bit full scale; counters count analysis frames.
#[verifier::ext_equal]
pub ghost struct VadModel {
    /// Samples per second, fixed for the session.
    pub sample_rate: int,
    /// Unconsumed samples below one frame, kept for the next chunk.
    pub carry: Seq<i16>,
    /// The bounded rolling window of the most recent silence.
    pub pre: Seq<i16>,
    /// The utterance being assembled, empty while idle.
    pub speech: Seq<i16>,
    /// Whether an utterance is in progress.
    pub in_speech: bool,
    /// Consecutive silence frames inside the current utterance.
    pub silence_count: int,
    /// Speech frames accumulated in the current utterance.
    pub speech_count: int,
    /// Samples per analysis frame.
    pub hop: int,
    /// A frame is speech if its root-mean-square energy exceeds this.
    pub rms_threshold: int,
    /// ... or if its peak absolute sample exceeds this.
    pub peak_threshold: int,
    /// Consecutive silence frames that close an utterance.
    pub silence_close: int,
    /// Speech frames an utterance needs to be emitted rather than discarded.
    pub min_speech: int,
    /// Bound on the rolling lead-in window, in samples.
    pub pre_window: int,
}

/// The hard ceiling on an utterance: thirty seconds of audio.
pub open spec fn max_samples(m: VadModel) -> int {
    m.sample_rate * 30
}

/// The retained tail of closing silence: 150 milliseconds.
pub open spec fn tail_keep(m: VadModel) -> int {
    m.sample_rate * 15 / 100
}

/// A frame counts as speech if its energy clears the root-mean-square
/// threshold or a single sample clears the peak threshold.
pub open spec fn frame_is_speech(m: VadModel, f: Seq<i16>) -> bool {
    ||| sum_squares(f) > m.rms_threshold * m.rms_threshold * f.len()
    ||| peak_level(f) > m.peak_threshold
}

/// The segment a closing utterance emits: the assembled buffer with the
/// trailing silence trimmed down to the retained tail. `m` is the state
/// just after the closing silence frame was appended.
pub open spec fn close_segment(m: VadModel) -> Seq<i16> {
    let silence_samples = m.silence_count * m.hop;
    let keep = tail_keep(m);
    let trim = if silence_samples > keep {
        silence_samples - keep
    } else {
        0
    };
    if m.speech.len() > trim {
        m.speech.take(m.speech.len() - trim)
    } else {
        m.speech
    }
}

/// What one analysis frame does: the successor state and the segments
/// emitted (none or one).
pub open spec fn vad_step(m: VadModel, f: Seq<i16>) -> (VadModel, Seq<Seq<i16>>) {
    if frame_is_speech(m, f) {
        let seeded = if m.in_speech {
            m
        } else {
            VadModel { in_speech: true, speech_count: 0, speech: m.pre, ..m }
        };
        let grown = VadModel {
            speech_count: seeded.speech_count + 1,
            speech: seeded.speech + f,
            silence_count: 0,
            ..seeded
        };
        if grown.speech.len() > max_samples(m) {
            (
                VadModel { speech: Seq::<i16>::empty(), in_speech: false, speech_count: 0, ..grown },
                seq![grown.speech],
            )
        } else {
            (grown, Seq::<Seq<i16>>::empty())
        }
    } else if m.in_speech {
        let grown = VadModel { silence_count: m.silence_count + 1, speech: m.speech + f, ..m };
        if grown.silence_count >= m.silence_close {
            let emitted = if grown.speech_count >= m.min_speech && grown.speech.len() > 0 {
                seq![close_segment(grown)]
            } else {
                Seq::<Seq<i16>>::empty()
            };
            (
                VadModel {
                    speech: Seq::<i16>::empty(),
                    in_speech: false,
                    silence_count: 0,
                    speech_count: 0,
                    ..grown
                },
                emitted,
            )
        } else {
            (grown, Seq::<Seq<i16>>::empty())
        }
    } else {
        let pre1 = m.pre + f;
        let pre2 = if pre1.len() > m.pre_window {
            pre1.skip(pre1.len() - m.pre_window)
        } else {
            pre1
        };
        (VadModel { pre: pre2, ..m }, Seq::<Seq<i16>>::empty())
    }
}

/// `vad_step` folded over a sequence of frames; emitted segments in order.
pub open spec fn vad_run(m: VadModel, frames: Seq<Seq<i16>>) -> (VadModel, Seq<Seq<i16>>)
    decreases frames.len(),
{
    if frames.len() == 0 {
        (m, Seq::<Seq<i16>>::empty())
    } else {
        let head = vad_step(m, frames[0]);
        let rest = vad_run(head.0, frames.skip(1));
        (rest.0, head.1 + rest.1)
    }
}

/// The complete analysis frames at the front of a sample stream.
pub open spec fn frames_of(s: Seq<i16>, hop: int) -> Seq<Seq<i16>> {
    Seq::new((s.len() as int / hop) as nat, |i: int| s.subrange(i * hop, (i + 1) * hop))
}

/// What one `feed` call does: the carried and the new samples are cut into
/// frames, the engine runs over them, and the remainder is carried over.
pub open spec fn vad_feed(m: VadModel, input: Seq<i16>) -> (VadModel, Seq<Seq<i16>>) {
    let all = m.carry + input;
    let k = all.len() as int / m.hop;
    let run = vad_run(m, frames_of(all, m.hop));
    (VadModel { carry: all.skip(k * m.hop), ..run.0 }, run.1)
}

/// The tuning is sound: a positive frame size, thresholds within 16-bit
/// full scale, and buffers whose worst-case sizes stay addressable.
pub open spec fn wf_config(m: VadModel) -> bool {
    &&& 1 <= m.hop <= 0x10000
    &&& 0 <= m.rms_threshold <= 0x8000
    &&& 0 <= m.peak_threshold <= 0x8000
    &&& 1 <= m.silence_close <= 0x10000
    &&& 1 <= m.min_speech
    &&& 0 <= m.pre_window
    &&& 0 <= m.sample_rate
    &&& m.sample_rate * 30 + m.pre_window + m.silence_close * m.hop + 2 * m.hop <= usize::MAX
}

/// Everything `wf_state` says except the carry bound, which `feed` breaks
/// and restores while it drains the buffer frame by frame.
pub open spec fn wf_frame_state(m: VadModel) -> bool {
    &&& wf_config(m)
    &&& m.pre.len() <= m.pre_window
    &&& (!m.in_speech ==> m.speech.len() == 0 && m.silence_count == 0 && m.speech_count == 0)
    &&& (m.in_speech ==> {
        &&& 1 <= m.speech_count <= m.speech.len()
        &&& 0 <= m.silence_count < m.silence_close
        &&& m.speech.len() <= max_samples(m) + m.silence_count * m.hop
    })
}

/// The engine's invariant between `feed` calls.
pub open spec fn wf_state(m: VadModel) -> bool {
    &&& wf_frame_state(m)
    &&& m.carry.len() < m.hop
}

/// A freshly created engine state for the given tuning.
pub open spec fn fresh_model(
    sample_rate: int,
    hop: int,
    rms_threshold: int,
    peak_threshold: int,
    silence_close: int,
    min_speech: int,
    pre_window: int,
) -> VadModel {
    VadModel {
        sample_rate,
        carry: Seq::<i16>::empty(),
        pre: Seq::<i16>::empty(),
        speech: Seq::<i16>::empty(),
        in_speech: false,
        silence_count: 0,
        speech_count: 0,
        hop,
        rms_threshold,
        peak_threshold,
        silence_close,
        min_speech,
        pre_window,
    }
}

/// The rolling segmentation engine for one capture session.
pub struct VadState {
    sample_rate: u32,
    buffer: Vec<i16>,
    pre_speech_buffer: Vec<i16>,
    speech_buffer: Vec<i16>,
    in_speech: bool,
    silence_count: usize,
    speech_count: usize,
    hop_size: usize,
    rms_threshold: u16,
    peak_threshold: u16,
    silence_chunks_needed: usize,
    min_speech_chunks: usize,
    pre_speech_samples: usize,
}

impl View for VadState {
    type V = VadModel;

    closed spec fn view(&self) -> VadModel {
        VadModel {
            sample_rate: self.sample_rate as int,
            carry: self.buffer@,
            pre: self.pre_speech_buffer@,
            speech: self.speech_buffer@,
            in_speech: self.in_speech,
            silence_count: self.silence_count as int,
            speech_count: self.speech_count as int,
            hop: self.hop_size as int,
            rms_threshold: self.rms_threshold as int,
            peak_threshold: self.peak_threshold as int,
            silence_close: self.silence_chunks_needed as int,
            min_speech: self.min_speech_chunks as int,
            pre_window: self.pre_speech_samples as int,
        }
    }
}

/// Appends every sample of `src` to `dst`.
fn append_samples(dst: &mut Vec<i16>, src: &Vec<i16>)
    ensures
        final(dst)@ == old(dst)@ + src@,
{
    let mut i: usize = 0;
    while i < src.len()
        invariant
            0 <= i <= src@.len(),
            dst@ == old(dst)@ + src@.take(i as int),
        decreases src@.len() - i,
    {
        dst.push(src[i]);
        proof {
            assert(src@.take(i + 1) =~= src@.take(i as int).push(src@[i as int]));
            assert(old(dst)@ + src@.take(i + 1) =~= (old(dst)@ + src@.take(i as int)).push(
                src@[i as int],
            ));
        }
        i = i + 1;
    }
    assert(src@.take(src@.len() as int) =~= src@);
}

/// The sum of squares and the peak absolute sample of one frame.
fn frame_energy(frame: &Vec<i16>) -> (r: (u64, u32))
    requires
        frame@.len() <= 0x10000,
    ensures
        r.0 as int == sum_squares(frame@),
        r.1 as int == peak_level(frame@),
        r.1 <= 0x8000,
{
    let mut sumsq: u64 = 0;
    let mut pk: u32 = 0;
    let mut i: usize = 0;
    while i < frame.len()
        invariant
            0 <= i <= frame@.len(),
            frame@.len() <= 0x10000,
            sumsq as int == sum_squares(frame@.take(i as int)),
            sumsq <= (i as int) * 0x4000_0000,
            pk as int == peak_level(frame@.take(i as int)),
            pk <= 0x8000,
        decreases frame@.len() - i,
    {
        let v = frame[i];
        let a: u32 = if v >= 0 {
            v as u32
        } else {
            (-(v as i32)) as u32
        };
        proof {
            let t = frame@.take(i + 1);
            assert(t.drop_last() =~= frame@.take(i as int));
            assert(t.last() == frame@[i as int]);
            assert(a as int == abs_val(frame@[i as int]));
            assert(a <= 0x8000);
            assert((a as int) * (a as int) == (v as int) * (v as int)) by (nonlinear_arith)
                requires a as int == abs_val(v);
            assert((a as int) * (a as int) <= 0x4000_0000) by (nonlinear_arith)
                requires 0 <= a <= 0x8000;
        }
        sumsq = sumsq + (a as u64) * (a as u64);
        if a > pk {
            pk = a;
        }
        i = i + 1;
    }
    assert(frame@.take(frame@.len() as int) =~= frame@);
    (sumsq, pk)
}

impl VadState {
    /// A fresh engine with explicit tuning. Thresholds are in sample units at
    /// 16-bit full scale; window and frame sizes are in samples.
    pub fn with_tuning(
        sample_rate: u32,
        hop_size: usize,
        rms_threshold: u16,
        peak_threshold: u16,
        silence_chunks_needed: usize,
        min_speech_chunks: usize,
        pre_speech_samples: usize,
    ) -> (s: Self)
        requires
            wf_config(
                fresh_model(
                    sample_rate as int,
                    hop_size as int,
                    rms_threshold as int,
                    peak_threshold as int,
                    silence_chunks_needed as int,
                    min_speech_chunks as int,
                    pre_speech_samples as int,
                ),
            ),
        ensures
            s@ == fresh_model(
                sample_rate as int,
                hop_size as int,
                rms_threshold as int,
                peak_threshold as int,
                silence_chunks_needed as int,
                min_speech_chunks as int,
                pre_speech_samples as int,
            ),
            wf_state(s@),
    {
        VadState {
            sample_rate,
            buffer: Vec::new(),
            pre_speech_buffer: Vec::new(),
            speech_buffer: Vec::new(),
            in_speech: false,
            silence_count: 0,
            speech_count: 0,
            hop_size,
            rms_threshold,
            peak_threshold,
            silence_chunks_needed,
            min_speech_chunks,
            pre_speech_samples,
        }
    }

    /// A fresh engine with the session defaults: 1024-sample frames, a
    /// root-mean-square threshold of 1.5% and a peak threshold of 4% of full
    /// scale, forty silence frames to close, five speech frames to accept,
    /// and a ten-frame lead-in window.
    pub fn new(sample_rate: u32) -> (s: Self)
        requires
            30 * (sample_rate as int) + 53248 <= usize::MAX,
        ensures
            s@ == fresh_model(sample_rate as int, 1024, 491, 1310, 40, 5, 10240),
            wf_state(s@),
    {
        Self::with_tuning(sample_rate, 1024, 491, 1310, 40, 5, 10240)
    }

    /// The session's sample rate.
    pub fn sample_rate(&self) -> (r: u32)
        ensures
            r as int == self@.sample_rate,
    {
        self.sample_rate
    }

    /// Runs one analysis frame through the engine, returning the emitted
    /// segment if the frame completed one; exactly `vad_step`.
    fn process_frame(&mut self, frame: &Vec<i16>) -> (seg: Option<Vec<i16>>)
        requires
            wf_frame_state(old(self)@),
            frame@.len() == old(self)@.hop,
        ensures
            wf_frame_state(final(self)@),
            final(self)@ == vad_step(old(self)@, frame@).0,
            match seg {
                Some(v) => vad_step(old(self)@, frame@).1 == seq![v@],
                None => vad_step(old(self)@, frame@).1 == Seq::<Seq<i16>>::empty(),
            },
    {
        let ghost m0 = self@;
        proof {
            assert((self.rms_threshold as int) * (self.rms_threshold as int) <= 0x4000_0000)
                by (nonlinear_arith)
                requires 0 <= self.rms_threshold as int <= 0x8000;
            assert((self.rms_threshold as int) * (self.rms_threshold as int) * (frame@.len() as int)
                <= 0x4000_0000 * 0x10000) by (nonlinear_arith)
                requires
                    0 <= (self.rms_threshold as int) * (self.rms_threshold as int)
                        <= 0x4000_0000,
                    0 <= frame@.len() <= 0x10000,
            ;
        }
        let (sumsq, pk) = frame_energy(frame);
        let thr2: u64 = (self.rms_threshold as u64) * (self.rms_threshold as u64) * (frame.len()
            as u64);
        let is_speech = sumsq > thr2 || pk > self.peak_threshold as u32;
        assert(is_speech == frame_is_speech(m0, frame@));
        proof {
            lemma_mul_inequality(m0.silence_count, m0.silence_close, m0.hop);
            assert((m0.silence_count + 1) * m0.hop == m0.silence_count * m0.hop + m0.hop)
                by (nonlinear_arith);
            assert(0 * m0.hop == 0) by (nonlinear_arith);
            if m0.in_speech {
                assert(m0.speech.len() <= max_samples(m0) + m0.silence_count * m0.hop);
            }
        }
        if is_speech {
            if !self.in_speech {
                self.in_speech = true;
                self.speech_count = 0;
                self.speech_buffer.clear();
                append_samples(&mut self.speech_buffer, &self.pre_speech_buffer);
            }
            self.speech_count = self.speech_count + 1;
            append_samples(&mut self.speech_buffer, frame);
            self.silence_count = 0;
            let max_samples_exec: usize = (self.sample_rate as usize) * 30;
            if self.speech_buffer.len() > max_samples_exec {
                let mut out: Vec<i16> = Vec::new();
                core::mem::swap(&mut self.speech_buffer, &mut out);
                self.in_speech = false;
                self.speech_count = 0;
                proof {
                    assert(self@ =~= vad_step(m0, frame@).0);
                    assert(vad_step(m0, frame@).1 =~= seq![out@]);
                }
                Some(out)
            } else {
                proof {
                    assert(self@ =~= vad_step(m0, frame@).0);
                }
                None
            }
        } else if self.in_speech {
            self.silence_count = self.silence_count + 1;
            append_samples(&mut self.speech_buffer, frame);
            proof {
                lemma_mul_inequality(m0.silence_count + 1, m0.silence_close, m0.hop);
            }
            if self.silence_count >= self.silence_chunks_needed {
                let mut result: Option<Vec<i16>> = None;
                if self.speech_count >= self.min_speech_chunks && self.speech_buffer.len() > 0 {
                    let silence_samples = self.silence_count * self.hop_size;
                    let keep = (self.sample_rate as usize) * 15 / 100;
                    let trim = if silence_samples > keep {
                        silence_samples - keep
                    } else {
                        0
                    };
                    if self.speech_buffer.len() > trim {
                        let newlen = self.speech_buffer.len() - trim;
                        self.speech_buffer.truncate(newlen);
                    }
                    let mut out: Vec<i16> = Vec::new();
                    core::mem::swap(&mut self.speech_buffer, &mut out);
                    result = Some(out);
                } else {
                    self.speech_buffer.clear();
                }
                self.in_speech = false;
                self.silence_count = 0;
                self.speech_count = 0;
                proof {
                    assert(self@ =~= vad_step(m0, frame@).0);
                    match &result {
                        Some(v) => {
                            assert(vad_step(m0, frame@).1 =~= seq![v@]);
                        },
                        None => {
                            assert(vad_step(m0, frame@).1 =~= Seq::<Seq<i16>>::empty());
                        },
                    }
                }
                result
            } else {
                proof {
                    assert(self@ =~= vad_step(m0, frame@).0);
                }
                None
            }
        } else {
            append_samples(&mut self.pre_speech_buffer, frame);
            if self.pre_speech_buffer.len() > self.pre_speech_samples {
                let excess = self.pre_speech_buffer.len() - self.pre_speech_samples;
                let tail = self.pre_speech_buffer.split_off(excess);
                self.pre_speech_buffer = tail;
            }
            proof {
                assert(self@ =~= vad_step(m0, frame@).0);
            }
            None
        }
    }

    /// Feeds a chunk of mono samples and returns the segments it completed,
    /// in frame-arrival order; exactly `vad_feed`.
    pub fn feed(&mut self, samples: &Vec<i16>) -> (segments: Vec<Vec<i16>>)
        requires
            wf_state(old(self)@),
            old(self)@.carry.len() + samples@.len() <= usize::MAX,
        ensures
            wf_state(final(self)@),
            final(self)@ == vad_feed(old(self)@, samples@).0,
            segments.deep_view() == vad_feed(old(self)@, samples@).1,
    {
        let ghost m0 = self@;
        let ghost all = m0.carry + samples@;
        let ghost frames = frames_of(all, m0.hop);
        let ghost k = all.len() as int / m0.hop;
        append_samples(&mut self.buffer, samples);
        let mut segments: Vec<Vec<i16>> = Vec::new();
        let ghost mut i: int = 0;
        proof {
            assert(frames.take(0) =~= Seq::<Seq<i16>>::empty());
            assert(self@ =~= VadModel { carry: all.skip(0), ..vad_run(m0, frames.take(0)).0 });
            assert(segments.deep_view() =~= Seq::<Seq<i16>>::empty());
        }
        while self.buffer.len() >= self.hop_size
            invariant
                wf_frame_state(self@),
                0 <= i,
                i * m0.hop <= all.len(),
                frames == frames_of(all, m0.hop),
                k == all.len() as int / m0.hop,
                all.len() <= usize::MAX,
                self@ == (VadModel { carry: all.skip(i * m0.hop), ..vad_run(m0, frames.take(i)).0 }),
                segments.deep_view() == vad_run(m0, frames.take(i)).1,
                self@.hop == m0.hop,
                wf_config(m0),
            decreases all.len() - i * m0.hop,
        {
            proof {
                assert(all.len() - i * m0.hop >= m0.hop);
                assert((i + 1) * m0.hop == i * m0.hop + m0.hop) by (nonlinear_arith);
                lemma_div_is_ordered((i + 1) * m0.hop, all.len() as int, m0.hop);
                lemma_div_multiples_vanish(i + 1, m0.hop);
                assert(m0.hop * (i + 1) == (i + 1) * m0.hop) by (nonlinear_arith);
                assert(i + 1 <= k);
                assert(frames.len() == k);
            }
            let mut tail = self.buffer.split_off(self.hop_size);
            core::mem::swap(&mut self.buffer, &mut tail);
            let frame = tail;
            proof {
                assert(frame@ =~= all.subrange(i * m0.hop, (i + 1) * m0.hop));
                assert(frame@ == frames[i]);
                assert(self.buffer@ =~= all.skip((i + 1) * m0.hop));
            }
            let seg = self.process_frame(&frame);
            proof {
                lemma_step_ignores_carry(
                    vad_run(m0, frames.take(i)).0,
                    all.skip((i + 1) * m0.hop),
                    frame@,
                );
                lemma_vad_run_snoc(m0, frames.take(i), frames[i]);
                assert(frames.take(i + 1) =~= frames.take(i).push(frames[i]));
            }
            match seg {
                Some(v) => {
                    let ghost dv = segments.deep_view();
                    segments.push(v);
                    proof {
                        assert(v.deep_view() =~= v@);
                        assert(segments.deep_view() =~~= dv.push(v@));
                        assert(segments.deep_view() =~= vad_run(m0, frames.take(i + 1)).1);
                    }
                },
                None => {
                    proof {
                        assert(vad_run(m0, frames.take(i + 1)).1 =~= vad_run(
                            m0,
                            frames.take(i),
                        ).1);
                    }
                },
            }
            proof {
                i = i + 1;
                assert(self@ =~= VadModel {
                    carry: all.skip(i * m0.hop),
                    ..vad_run(m0, frames.take(i)).0
                });
            }
        }
        proof {
            assert(all.len() - i * m0.hop < m0.hop);
            lemma_fundamental_div_mod_converse(
                all.len() as int,
                m0.hop,
                i,
                all.len() - i * m0.hop,
            );
            assert(i == k);
            assert(frames.take(k) =~= frames);
            assert(self@ =~= vad_feed(m0, samples@).0);
        }
        segments
    }

    /// Feeds a chunk of mono samples and returns the completed segments as
    /// encoded clips, dropping any segment the encoder rejects.
    pub fn feed_encoded(&mut self, samples: &Vec<i16>) -> (clips: Vec<String>)
        requires
            wf_state(old(self)@),
            old(self)@.carry.len() + samples@.len() <= usize::MAX,
        ensures
            wf_state(final(self)@),
            final(self)@ == vad_feed(old(self)@, samples@).0,
            clips.deep_view() == encode_all(
                old(self)@.sample_rate as u32,
                vad_feed(old(self)@, samples@).1,
            ),
    {
        let rate = self.sample_rate;
        let segments = self.feed(samples);
        let ghost segs = segments.deep_view();
        let mut clips: Vec<String> = Vec::new();
        let mut j: usize = 0;
        proof {
            assert(segs.take(0) =~= Seq::<Seq<i16>>::empty());
            assert(clips.deep_view() =~= Seq::<Seq<char>>::empty());
        }
        while j < segments.len()
            invariant
                0 <= j <= segments@.len(),
                segs == segments.deep_view(),
                segs.len() == segments@.len(),
                clips.deep_view() == encode_all(rate, segs.take(j as int)),
            decreases segments@.len() - j,
        {
            let r = samples_to_wav_b64(rate, &segments[j]);
            proof {
                lemma_encode_all_snoc(rate, segs.take(j as int), segs[j as int]);
                assert(segs.take(j + 1) =~= segs.take(j as int).push(segs[j as int]));
                assert(segments@[j as int]@ == segs[j as int]);
            }
            match r {
                Ok(clip) => {
                    let ghost dv = clips.deep_view();
                    clips.push(clip);
                    proof {
                        assert(clip.deep_view() =~= clip@);
                        assert(clips.deep_view() =~~= dv.push(clip@));
                    }
                },
                Err(_) => {},
            }
            j = j + 1;
        }
        assert(segs.take(segs.len() as int) =~= segs);
        clips
    }
}

/// `vad_step` neither reads nor writes the carry buffer.
proof fn lemma_step_ignores_carry(m: VadModel, c: Seq<i16>, f: Seq<i16>)
    ensures
        vad_step(VadModel { carry: c, ..m }, f).0 =~= (VadModel { carry: c, ..vad_step(m, f).0 }),
        vad_step(VadModel { carry: c, ..m }, f).1 == vad_step(m, f).1,
{
}

/// Running one more frame steps the state once and appends its emission.
pub proof fn lemma_vad_run_snoc(m: VadModel, frames: Seq<Seq<i16>>, f: Seq<i16>)
    ensures
        vad_run(m, frames.push(f)).0 == vad_step(vad_run(m, frames).0, f).0,
        vad_run(m, frames.push(f)).1 =~= vad_run(m, frames).1 + vad_step(
            vad_run(m, frames).0,
            f,
        ).1,
    decreases frames.len(),
{
    reveal_with_fuel(vad_run, 3);
    if frames.len() == 0 {
        assert(frames.push(f)[0] == f);
        assert(frames.push(f).skip(1) =~= Seq::<Seq<i16>>::empty());
    } else {
        assert(frames.push(f)[0] == frames[0]);
        assert(frames.push(f).skip(1) =~= frames.skip(1).push(f));
        lemma_vad_run_snoc(vad_step(m, frames[0]).0, frames.skip(1), f);
    }
}

} // verus!
