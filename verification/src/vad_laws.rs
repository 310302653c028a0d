use crate::vad::{
    close_segment, frame_is_speech, max_samples, peak_level, sum_squares, tail_keep, vad_run,
    vad_step, wf_config, VadModel,
};
use vstd::arithmetic::div_mod::{
    lemma_div_pos_is_pos, lemma_fundamental_div_mod, lemma_fundamental_div_mod_converse,
    lemma_mod_bound,
};
use vstd::prelude::*;

verus! {

// The laws of the segmentation engine, stated over the model that `feed` is
// proved to implement: what silence can never do, what closes an utterance
// and what keeps one open, which utterances are discarded, what an emitted
// segment begins with, and how the duration cap splits a long speech run.

/// Every sample of the frame is zero.
pub open spec fn is_silent(f: Seq<i16>) -> bool {
    forall|l: int| 0 <= l < f.len() ==> f[l] == 0i16
}

/// Every frame is all-zero.
pub open spec fn silent_frames(frames: Seq<Seq<i16>>) -> bool {
    forall|j: int| 0 <= j < frames.len() ==> is_silent(#[trigger] frames[j])
}

/// Every frame is a full analysis frame that `m`'s thresholds classify as speech.
pub open spec fn speech_frames(m: VadModel, frames: Seq<Seq<i16>>) -> bool {
    forall|j: int|
        0 <= j < frames.len() ==> frame_is_speech(m, #[trigger] frames[j]) && frames[j].len()
            == m.hop
}

/// Every frame is a full analysis frame that `m`'s thresholds classify as silence.
pub open spec fn silence_frames(m: VadModel, frames: Seq<Seq<i16>>) -> bool {
    forall|j: int|
        0 <= j < frames.len() ==> !frame_is_speech(m, #[trigger] frames[j]) && frames[j].len()
            == m.hop
}

/// An all-zero frame has no energy at all.
proof fn lemma_silent_energy(f: Seq<i16>)
    requires
        is_silent(f),
    ensures
        sum_squares(f) == 0,
        peak_level(f) == 0,
    decreases f.len(),
{
    if f.len() > 0 {
        assert(f.last() == 0i16);
        assert(is_silent(f.drop_last()));
        lemma_silent_energy(f.drop_last());
    }
}

/// An all-zero frame is never classified as speech.
proof fn lemma_silent_not_speech(m: VadModel, f: Seq<i16>)
    requires
        is_silent(f),
        m.rms_threshold >= 0,
        m.peak_threshold >= 0,
    ensures
        !frame_is_speech(m, f),
{
    lemma_silent_energy(f);
    assert(m.rms_threshold * m.rms_threshold * f.len() >= 0) by (nonlinear_arith)
        requires m.rms_threshold >= 0;
}

/// The engine never emits an empty segment, so the encoder's `EmptyInput`
/// rejection can never drop one of its segments.
pub proof fn lemma_emitted_segments_nonempty(m: VadModel, f: Seq<i16>)
    requires
        crate::vad::wf_frame_state(m),
    ensures
        forall|j: int|
            0 <= j < vad_step(m, f).1.len() ==> (#[trigger] vad_step(m, f).1[j]).len() > 0,
{
    lemma_div_pos_is_pos(m.sample_rate * 15, 100);
}

/// Running a concatenation is running the parts in turn.
pub proof fn lemma_vad_run_concat(m: VadModel, a: Seq<Seq<i16>>, b: Seq<Seq<i16>>)
    ensures
        vad_run(m, a + b).0 == vad_run(vad_run(m, a).0, b).0,
        vad_run(m, a + b).1 =~= vad_run(m, a).1 + vad_run(vad_run(m, a).0, b).1,
    decreases a.len(),
{
    reveal_with_fuel(vad_run, 3);
    if a.len() == 0 {
        assert(a + b =~= b);
    } else {
        assert((a + b)[0] == a[0]);
        assert((a + b).skip(1) =~= a.skip(1) + b);
        lemma_vad_run_concat(vad_step(m, a[0]).0, a.skip(1), b);
    }
}

/// A silent input into an idle engine never emits a segment and never
/// enters speech, whatever the frame sequence is.
pub proof fn lemma_silent_input_never_emits(m: VadModel, frames: Seq<Seq<i16>>)
    requires
        !m.in_speech,
        m.rms_threshold >= 0,
        m.peak_threshold >= 0,
        silent_frames(frames),
    ensures
        vad_run(m, frames).1 =~= Seq::<Seq<i16>>::empty(),
        !vad_run(m, frames).0.in_speech,
    decreases frames.len(),
{
    if frames.len() > 0 {
        lemma_silent_not_speech(m, frames[0]);
        let m1 = vad_step(m, frames[0]).0;
        assert(silent_frames(frames.skip(1))) by {
            assert(forall|j: int|
                0 <= j < frames.skip(1).len() ==> frames.skip(1)[j] == frames[j + 1]);
        }
        lemma_silent_input_never_emits(m1, frames.skip(1));
    }
}

/// A run of uniform frames flattens to one sample block per frame.
proof fn lemma_flatten_uniform_len(frames: Seq<Seq<i16>>, hop: int)
    requires
        forall|j: int| 0 <= j < frames.len() ==> (#[trigger] frames[j]).len() == hop,
    ensures
        frames.flatten().len() == frames.len() * hop,
    decreases frames.len(),
{
    if frames.len() == 0 {
    } else {
        assert(forall|j: int|
            0 <= j < frames.drop_first().len() ==> (#[trigger] frames.drop_first()[j]).len()
                == hop);
        lemma_flatten_uniform_len(frames.drop_first(), hop);
        assert(frames.len() * hop == (frames.len() - 1) * hop + hop) by (nonlinear_arith);
    }
}

/// Speech frames fed to an engine already in speech extend the utterance:
/// nothing is emitted while the buffer stays under the duration cap, the
/// frames are appended, the speech count grows and the silence count resets.
pub proof fn lemma_speech_run_extends(m: VadModel, frames: Seq<Seq<i16>>)
    requires
        m.in_speech,
        speech_frames(m, frames),
        m.speech.len() + frames.len() * m.hop <= max_samples(m),
    ensures
        vad_run(m, frames).1 =~= Seq::<Seq<i16>>::empty(),
        vad_run(m, frames).0 == (VadModel {
            speech: m.speech + frames.flatten(),
            speech_count: m.speech_count + frames.len(),
            silence_count: if frames.len() == 0 {
                m.silence_count
            } else {
                0
            },
            ..m
        }),
    decreases frames.len(),
{
    if frames.len() == 0 {
        assert(m.speech + frames.flatten() =~= m.speech);
        assert(vad_run(m, frames).0 =~= (VadModel {
            speech: m.speech + frames.flatten(),
            speech_count: m.speech_count + frames.len(),
            silence_count: m.silence_count,
            ..m
        }));
    } else {
        let f = frames[0];
        let n = frames.len() as int;
        assert(f.len() == m.hop);
        assert(1 * m.hop <= n * m.hop) by (nonlinear_arith)
            requires 1 <= n, m.hop >= 0;
        assert((n - 1) * m.hop == n * m.hop - m.hop) by (nonlinear_arith);
        let grown = vad_step(m, f).0;
        assert(grown.speech.len() <= max_samples(m));
        assert(grown == (VadModel {
            speech: m.speech + f,
            speech_count: m.speech_count + 1,
            silence_count: 0,
            ..m
        }));
        assert(speech_frames(grown, frames.skip(1))) by {
            assert(forall|j: int|
                0 <= j < frames.skip(1).len() ==> frames.skip(1)[j] == frames[j + 1]);
        }
        lemma_speech_run_extends(grown, frames.skip(1));
        assert(frames.drop_first() =~= frames.skip(1));
        assert((m.speech + f) + frames.skip(1).flatten() =~= m.speech + frames.flatten());
        assert(vad_run(m, frames).1 =~= Seq::<Seq<i16>>::empty());
    }
}

/// Speech frames arriving at an idle engine open an utterance seeded with
/// the lead-in window: nothing is emitted while the buffer stays under the
/// duration cap, and the utterance is the lead-in plus the frames.
pub proof fn lemma_speech_run_from_idle(m: VadModel, frames: Seq<Seq<i16>>)
    requires
        !m.in_speech,
        speech_frames(m, frames),
        frames.len() >= 1,
        m.pre.len() + frames.len() * m.hop <= max_samples(m),
    ensures
        vad_run(m, frames).1 =~= Seq::<Seq<i16>>::empty(),
        vad_run(m, frames).0 == (VadModel {
            in_speech: true,
            speech: m.pre + frames.flatten(),
            speech_count: frames.len() as int,
            silence_count: 0,
            ..m
        }),
{
    let f = frames[0];
    let n = frames.len() as int;
    assert(1 * m.hop <= n * m.hop) by (nonlinear_arith)
        requires 1 <= n, m.hop >= 0;
    assert((n - 1) * m.hop == n * m.hop - m.hop) by (nonlinear_arith);
    let grown = vad_step(m, f).0;
    assert(grown == (VadModel {
        in_speech: true,
        speech: m.pre + f,
        speech_count: 1,
        silence_count: 0,
        ..m
    }));
    assert(speech_frames(grown, frames.skip(1))) by {
        assert(forall|j: int| 0 <= j < frames.skip(1).len() ==> frames.skip(1)[j] == frames[j + 1]);
    }
    lemma_speech_run_extends(grown, frames.skip(1));
    assert(frames.drop_first() =~= frames.skip(1));
    assert((m.pre + f) + frames.skip(1).flatten() =~= m.pre + frames.flatten());
}

/// Silence frames too few to close keep the utterance open: nothing is
/// emitted, the frames are appended, only the silence count advances.
pub proof fn lemma_silence_run_keeps(m: VadModel, frames: Seq<Seq<i16>>)
    requires
        m.in_speech,
        silence_frames(m, frames),
        m.silence_count >= 0,
        m.silence_count + frames.len() < m.silence_close,
    ensures
        vad_run(m, frames).1 =~= Seq::<Seq<i16>>::empty(),
        vad_run(m, frames).0 == (VadModel {
            speech: m.speech + frames.flatten(),
            silence_count: m.silence_count + frames.len(),
            ..m
        }),
    decreases frames.len(),
{
    if frames.len() == 0 {
        assert(m.speech + frames.flatten() =~= m.speech);
        assert(vad_run(m, frames).0 =~= (VadModel {
            speech: m.speech + frames.flatten(),
            silence_count: m.silence_count,
            ..m
        }));
    } else {
        let f = frames[0];
        let grown = vad_step(m, f).0;
        assert(grown == (VadModel {
            speech: m.speech + f,
            silence_count: m.silence_count + 1,
            ..m
        }));
        assert(silence_frames(grown, frames.skip(1))) by {
            assert(forall|j: int|
                0 <= j < frames.skip(1).len() ==> frames.skip(1)[j] == frames[j + 1]);
        }
        lemma_silence_run_keeps(grown, frames.skip(1));
        assert(frames.drop_first() =~= frames.skip(1));
        assert((m.speech + f) + frames.skip(1).flatten() =~= m.speech + frames.flatten());
    }
}

/// Exactly enough silence frames close the utterance. The engine returns to
/// idle with everything cleared, and it emits the trimmed utterance if and
/// only if enough speech frames had accumulated (and the buffer is nonempty).
pub proof fn lemma_silence_close(m: VadModel, frames: Seq<Seq<i16>>)
    requires
        m.in_speech,
        silence_frames(m, frames),
        m.silence_count >= 0,
        frames.len() >= 1,
        m.silence_count + frames.len() == m.silence_close,
    ensures
        !vad_run(m, frames).0.in_speech,
        vad_run(m, frames).0.speech.len() == 0,
        vad_run(m, frames).0.silence_count == 0,
        vad_run(m, frames).0.speech_count == 0,
        vad_run(m, frames).0.pre == m.pre,
        vad_run(m, frames).0.carry == m.carry,
        ({
            let grown = VadModel {
                silence_count: m.silence_close,
                speech: m.speech + frames.flatten(),
                ..m
            };
            if m.speech_count >= m.min_speech && grown.speech.len() > 0 {
                vad_run(m, frames).1 =~= seq![close_segment(grown)]
            } else {
                vad_run(m, frames).1 =~= Seq::<Seq<i16>>::empty()
            }
        }),
{
    let n = frames.len() as int;
    let front = frames.take(n - 1);
    let lastf = frames[n - 1];
    assert(frames =~= front + seq![lastf]);
    assert(silence_frames(m, front)) by {
        assert(forall|j: int| 0 <= j < front.len() ==> front[j] == frames[j]);
    }
    lemma_silence_run_keeps(m, front);
    let m1 = vad_run(m, front).0;
    lemma_vad_run_concat(m, front, seq![lastf]);
    assert(!frame_is_speech(m1, lastf));
    let grown1 = vad_step(m1, lastf).0;
    reveal_with_fuel(vad_run, 2);
    assert(vad_run(m1, seq![lastf]).0 == vad_step(m1, lastf).0);
    assert(vad_run(m1, seq![lastf]).1 =~= vad_step(m1, lastf).1) by {
        assert(seq![lastf].skip(1) =~= Seq::<Seq<i16>>::empty());
        assert(vad_step(m1, lastf).1 + Seq::<Seq<i16>>::empty() =~= vad_step(m1, lastf).1);
    }
    assert((m.speech + front.flatten()) + lastf =~= m.speech + frames.flatten()) by {
        assert(front.push(lastf) =~= frames);
        Seq::lemma_flatten_push(front, lastf);
    }
    assert(vad_run(m, frames).1 =~= vad_step(m1, lastf).1);
}

/// A below-threshold run of exactly `silence_close` frames ends an utterance
/// that had accumulated enough speech: exactly one segment is emitted and
/// the engine returns to idle. (The exact-boundary half of the close law.)
pub proof fn lemma_close_at_exact_boundary(m: VadModel, frames: Seq<Seq<i16>>)
    requires
        m.in_speech,
        m.silence_count == 0,
        m.speech_count >= m.min_speech,
        m.speech.len() > 0,
        silence_frames(m, frames),
        frames.len() == m.silence_close,
        m.silence_close >= 1,
    ensures
        vad_run(m, frames).1.len() == 1,
        !vad_run(m, frames).0.in_speech,
{
    lemma_silence_close(m, frames);
}

/// One silence frame fewer than `silence_close` does not end the utterance:
/// nothing is emitted and the engine stays in speech. (The other half of
/// the close law.)
pub proof fn lemma_one_short_keeps_utterance(m: VadModel, frames: Seq<Seq<i16>>)
    requires
        m.in_speech,
        m.silence_count == 0,
        silence_frames(m, frames),
        frames.len() == m.silence_close - 1,
    ensures
        vad_run(m, frames).1 =~= Seq::<Seq<i16>>::empty(),
        vad_run(m, frames).0.in_speech,
{
    lemma_silence_run_keeps(m, frames);
}

/// An utterance with fewer speech frames than `min_speech` is discarded at
/// the close: nothing is emitted, even though the silence close is valid,
/// and the engine returns to idle with the buffer dropped.
pub proof fn lemma_short_utterance_discarded(m: VadModel, frames: Seq<Seq<i16>>)
    requires
        m.in_speech,
        m.silence_count == 0,
        m.speech_count < m.min_speech,
        silence_frames(m, frames),
        frames.len() == m.silence_close,
        m.silence_close >= 1,
    ensures
        vad_run(m, frames).1 =~= Seq::<Seq<i16>>::empty(),
        !vad_run(m, frames).0.in_speech,
        vad_run(m, frames).0.speech.len() == 0,
{
    lemma_silence_close(m, frames);
}

/// A speech run, a below-threshold gap shorter than `silence_close`, and
/// more speech form one continuous utterance: nothing is emitted, the
/// engine stays in speech, and the buffer holds the lead-in and all three
/// runs in order.
pub proof fn lemma_short_gap_is_one_utterance(
    m: VadModel,
    a: Seq<Seq<i16>>,
    gap: Seq<Seq<i16>>,
    b: Seq<Seq<i16>>,
)
    requires
        wf_config(m),
        !m.in_speech,
        speech_frames(m, a),
        silence_frames(m, gap),
        speech_frames(m, b),
        a.len() >= 1,
        b.len() >= 1,
        gap.len() < m.silence_close,
        m.pre.len() + (a.len() + gap.len() + b.len()) * m.hop <= max_samples(m),
    ensures
        vad_run(m, a + gap + b).1 =~= Seq::<Seq<i16>>::empty(),
        vad_run(m, a + gap + b).0.in_speech,
        vad_run(m, a + gap + b).0.speech == m.pre + a.flatten() + gap.flatten() + b.flatten(),
        vad_run(m, a + gap + b).0.speech_count == a.len() + b.len(),
{
    let na = a.len() as int;
    let ng = gap.len() as int;
    let nb = b.len() as int;
    assert((na + ng + nb) * m.hop == na * m.hop + ng * m.hop + nb * m.hop) by (nonlinear_arith);
    assert(na * m.hop >= 0 && ng * m.hop >= 0 && nb * m.hop >= 0) by (nonlinear_arith)
        requires na >= 0, ng >= 0, nb >= 0, m.hop >= 0;
    lemma_speech_run_from_idle(m, a);
    let m1 = vad_run(m, a).0;
    lemma_flatten_uniform_len(a, m.hop);
    assert(silence_frames(m1, gap));
    lemma_silence_run_keeps(m1, gap);
    let m2 = vad_run(m1, gap).0;
    lemma_flatten_uniform_len(gap, m.hop);
    assert(speech_frames(m2, b));
    assert(m2.speech.len() + nb * m.hop <= max_samples(m2));
    lemma_speech_run_extends(m2, b);
    lemma_vad_run_concat(m, a, gap);
    lemma_vad_run_concat(m, a + gap, b);
    assert((a + gap) + b =~= a + gap + b);
    assert(vad_run(m, a + gap).0 == m2);
    assert(vad_run(m, a + gap + b).0.speech =~= m.pre + a.flatten() + gap.flatten()
        + b.flatten());
}

/// An emitted segment begins with the lead-in window that preceded the
/// first above-threshold frame: the segment's prefix is exactly the
/// engine's pre-speech buffer at onset.
pub proof fn lemma_segment_begins_with_lead_in(m: VadModel, a: Seq<Seq<i16>>, gap: Seq<Seq<i16>>)
    requires
        wf_config(m),
        !m.in_speech,
        speech_frames(m, a),
        silence_frames(m, gap),
        a.len() >= m.min_speech,
        gap.len() == m.silence_close,
        m.pre.len() + a.len() * m.hop <= max_samples(m),
    ensures
        vad_run(m, a + gap).1.len() == 1,
        vad_run(m, a + gap).1[0].len() >= m.pre.len(),
        vad_run(m, a + gap).1[0].take(m.pre.len() as int) == m.pre,
{
    let na = a.len() as int;
    assert(na >= 1);
    assert(na * m.hop >= 1 * m.hop) by (nonlinear_arith)
        requires na >= 1, m.hop >= 0;
    lemma_speech_run_from_idle(m, a);
    let m1 = vad_run(m, a).0;
    lemma_flatten_uniform_len(a, m.hop);
    lemma_flatten_uniform_len(gap, m.hop);
    assert(silence_frames(m1, gap));
    lemma_silence_close(m1, gap);
    lemma_vad_run_concat(m, a, gap);
    let grown = VadModel {
        silence_count: m.silence_close,
        speech: m1.speech + gap.flatten(),
        ..m1
    };
    assert(grown.speech.len() > 0);
    assert(vad_run(m, a + gap).1 =~= seq![close_segment(grown)]);
    let seg = close_segment(grown);
    let silence_samples = m.silence_close * m.hop;
    let keep = tail_keep(grown);
    lemma_div_pos_is_pos(grown.sample_rate * 15, 100);
    assert(keep >= 0);
    let trim = if silence_samples > keep {
        silence_samples - keep
    } else {
        0
    };
    assert(trim <= silence_samples);
    assert(grown.speech.len() - trim >= m.pre.len() + na * m.hop);
    assert(seg.len() >= m.pre.len() + na * m.hop);
    assert(seg.take(m.pre.len() as int) =~= m.pre);
}

/// A continuous above-threshold run is force-split by the duration cap:
/// one segment for every `max_samples / hop + 1` frames, each segment
/// exactly that many frames long — within one frame of the cap — and the
/// engine keeps going between the splits.
pub proof fn lemma_duration_cap_splits(m: VadModel, frames: Seq<Seq<i16>>)
    requires
        wf_config(m),
        !m.in_speech,
        m.pre.len() == 0,
        speech_frames(m, frames),
    ensures
        ({
            let cap_frames = max_samples(m) / m.hop + 1;
            &&& vad_run(m, frames).1.len() == frames.len() as int / cap_frames
            &&& forall|j: int|
                0 <= j < vad_run(m, frames).1.len() ==> (#[trigger] vad_run(m, frames).1[j]).len()
                    == cap_frames * m.hop
            &&& cap_frames * m.hop <= max_samples(m) + m.hop
        }),
    decreases frames.len(),
{
    let cap = max_samples(m) / m.hop + 1;
    let n = frames.len() as int;
    lemma_fundamental_div_mod(max_samples(m), m.hop);
    assert(cap * m.hop == (max_samples(m) / m.hop) * m.hop + m.hop) by (nonlinear_arith)
        requires cap == max_samples(m) / m.hop + 1;
    assert((max_samples(m) / m.hop) * m.hop == m.hop * (max_samples(m) / m.hop))
        by (nonlinear_arith);
    assert(cap * m.hop <= max_samples(m) + m.hop);
    assert(cap * m.hop > max_samples(m));
    assert(cap >= 1) by (nonlinear_arith)
        requires cap * m.hop > max_samples(m), max_samples(m) >= 0, m.hop >= 1;
    if n < cap {
        if n == 0 {
            lemma_fundamental_div_mod_converse(n, cap, 0, n);
        } else {
            assert(n * m.hop <= (cap - 1) * m.hop) by (nonlinear_arith)
                requires n <= cap - 1, m.hop >= 0;
            assert((cap - 1) * m.hop == cap * m.hop - m.hop) by (nonlinear_arith);
            lemma_speech_run_from_idle(m, frames);
            lemma_fundamental_div_mod_converse(n, cap, 0, n);
        }
    } else {
        let head = frames.take(cap);
        let rest = frames.skip(cap);
        assert(frames =~= head + rest);
        assert(speech_frames(m, head)) by {
            assert(forall|j: int| 0 <= j < head.len() ==> head[j] == frames[j]);
        }
        let front = head.take(cap - 1);
        let lastf = head[cap - 1];
        assert(head =~= front + seq![lastf]);
        assert(speech_frames(m, front)) by {
            assert(forall|j: int| 0 <= j < front.len() ==> front[j] == frames[j]);
        }
        let m1: VadModel;
        if cap == 1 {
            m1 = m;
            assert(vad_run(m, front).0 == m1);
            assert(vad_run(m, front).1 =~= Seq::<Seq<i16>>::empty());
        } else {
            assert((cap - 1) * m.hop == cap * m.hop - m.hop) by (nonlinear_arith);
            lemma_speech_run_from_idle(m, front);
            m1 = vad_run(m, front).0;
            lemma_flatten_uniform_len(front, m.hop);
            assert(m1.speech.len() == (cap - 1) * m.hop);
        }
        assert(frame_is_speech(m1, lastf));
        let stepped = vad_step(m1, lastf);
        assert(stepped.0 == (VadModel {
            speech: Seq::<i16>::empty(),
            in_speech: false,
            speech_count: 0,
            silence_count: 0,
            pre: m.pre,
            ..m
        })) by {
            if cap == 1 {
                assert(m1.pre + lastf =~= lastf);
            }
        }
        assert(stepped.1.len() == 1 && stepped.1[0].len() == cap * m.hop) by {
            if cap == 1 {
                assert(m1.pre + lastf =~= lastf);
                assert(1 * m.hop == m.hop) by (nonlinear_arith);
            } else {
                assert((cap - 1) * m.hop + m.hop == cap * m.hop) by (nonlinear_arith);
            }
        }
        lemma_vad_run_concat(m, front, seq![lastf]);
        reveal_with_fuel(vad_run, 2);
        assert(seq![lastf].skip(1) =~= Seq::<Seq<i16>>::empty());
        assert(vad_run(m, head).0 == stepped.0);
        assert(vad_run(m, head).1 =~= stepped.1) by {
            assert(vad_run(m1, seq![lastf]).1 =~= stepped.1 + Seq::<Seq<i16>>::empty());
            assert(stepped.1 + Seq::<Seq<i16>>::empty() =~= stepped.1);
        }
        let m2 = vad_run(m, head).0;
        assert(speech_frames(m2, rest)) by {
            assert(forall|j: int| 0 <= j < rest.len() ==> rest[j] == frames[j + cap]);
        }
        lemma_duration_cap_splits(m2, rest);
        lemma_vad_run_concat(m, head, rest);
        let q = (n - cap) / cap;
        let r = (n - cap) % cap;
        lemma_fundamental_div_mod(n - cap, cap);
        lemma_mod_bound(n - cap, cap);
        assert(n == (q + 1) * cap + r) by (nonlinear_arith)
            requires n - cap == cap * q + r;
        lemma_fundamental_div_mod_converse(n, cap, q + 1, r);
        assert(vad_run(m, frames).1.len() == 1 + q);
        assert(forall|j: int|
            0 <= j < vad_run(m, frames).1.len() ==> (#[trigger] vad_run(m, frames).1[j]).len()
                == cap * m.hop) by {
            assert(forall|j: int|
                1 <= j < vad_run(m, frames).1.len() ==> vad_run(m, frames).1[j] == vad_run(
                    m2,
                    rest,
                ).1[j - 1]);
        }
    }
}

} // verus!
