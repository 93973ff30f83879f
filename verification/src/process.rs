//! The loop processor: builds the looped, faded output buffer.
//!
//! Given a channel's sample sequence and a loop region `[start, end)`, the
//! output is, in order: the intro `input[0 .. start)` copied verbatim, the
//! loop body `input[start .. end)` concatenated `loops` times, and an outro
//! of the body's first `fade` samples scaled by the linear fade envelope.
//! All indices are in per-channel sample units; for a stereo pair the same
//! transform is applied to each channel independently.

use crate::decode::DecodedFile;
use crate::fade::{faded_sample, scale_sample};
use crate::opts::CliOpts;
use vstd::arithmetic::mul::{lemma_mul_basics, lemma_mul_is_distributive_add};
use vstd::prelude::*;

verus! {

/// Decides whether looping is active: a loop region is processed only when
/// processing was requested and the region `[loop_start, loop_end)` is
/// non-empty. Absent or nonsensical loop markers (both zero, or
/// `end <= start`) degrade gracefully to the pass-through path.
pub open spec fn spec_should_process(
    process_requested: bool,
    loop_start: int,
    loop_end: int,
) -> bool {
    process_requested && loop_end > loop_start
}

/// The loop body concatenated with itself `n` times.
pub open spec fn repeat_seq(body: Seq<i16>, n: nat) -> Seq<i16>
    decreases n,
{
    if n == 0 {
        Seq::empty()
    } else {
        repeat_seq(body, (n - 1) as nat) + body
    }
}

/// The outro: the `fade` samples starting at `start`, each scaled by the
/// fade envelope at its offset within the window.
pub open spec fn fade_window(input: Seq<i16>, start: int, fade: int) -> Seq<i16> {
    Seq::new(fade as nat, |i: int| faded_sample(input[start + i], i, fade))
}

/// The full output of the loop processor for one channel: intro, repeated
/// body, faded outro.
pub open spec fn processed(input: Seq<i16>, start: int, end: int, loops: nat, fade: int) -> Seq<
    i16,
> {
    input.subrange(0, start) + repeat_seq(input.subrange(start, end), loops) + fade_window(
        input,
        start,
        fade,
    )
}

/// The repeated body has length `n * |body|`.
pub proof fn lemma_repeat_seq_len(body: Seq<i16>, n: nat)
    ensures
        repeat_seq(body, n).len() == n * body.len(),
    decreases n,
{
    if n == 0 {
        lemma_mul_basics(body.len() as int);
    } else {
        lemma_repeat_seq_len(body, (n - 1) as nat);
        lemma_mul_is_distributive_add(body.len() as int, n - 1, 1);
        lemma_mul_basics(body.len() as int);
        assert((n - 1) * body.len() + body.len() == n * body.len()) by (nonlinear_arith);
    }
}

/// Each of the `n` blocks of the repeated body is the body itself.
pub proof fn lemma_repeat_seq_block(body: Seq<i16>, n: nat, k: nat)
    requires
        k < n,
    ensures
        repeat_seq(body, n).subrange(
            k as int * body.len() as int,
            (k + 1) as int * body.len() as int,
        ) == body,
    decreases n,
{
    let len = body.len() as int;
    lemma_repeat_seq_len(body, n);
    lemma_repeat_seq_len(body, (n - 1) as nat);
    assert((k + 1) * len <= n * len) by (nonlinear_arith)
        requires
            k + 1 <= n,
            len >= 0,
    ;
    if k + 1 == n {
        assert(k as int * len == (n - 1) * len);
        assert((k + 1) as int * len == (n - 1) * len + len) by (nonlinear_arith)
            requires
                k + 1 == n,
        ;
        assert(repeat_seq(body, n).subrange(k as int * len, (k + 1) as int * len) =~= body);
    } else {
        lemma_repeat_seq_block(body, (n - 1) as nat, k);
        assert(0 <= k as int * len && (k + 1) as int * len == k as int * len + len && (k + 1) as int
            * len <= (n - 1) as int * len) by (nonlinear_arith)
            requires
                0 <= k,
                k + 1 <= n - 1,
                len >= 0,
        ;
        let rep = repeat_seq(body, n);
        let prev = repeat_seq(body, (n - 1) as nat);
        let lo = k as int * len;
        assert forall|i: int| 0 <= i < len implies rep.subrange(lo, lo + len)[i] == body[i] by {
            assert(rep.subrange(lo, lo + len)[i] == rep[lo + i]);
            assert(rep[lo + i] == prev[lo + i]);
            assert(prev.subrange(lo, lo + len)[i] == prev[lo + i]);
        }
        assert(rep.subrange(lo, lo + len) =~= body);
    }
}

/// The output length obeys the exact formula
/// `start + (end - start) * loops + fade`.
pub proof fn lemma_processed_len(input: Seq<i16>, start: int, end: int, loops: nat, fade: int)
    requires
        0 <= start <= end <= input.len(),
        0 <= fade,
    ensures
        processed(input, start, end, loops, fade).len() == start + (end - start) * loops + fade,
{
    lemma_repeat_seq_len(input.subrange(start, end), loops);
    assert(loops * (end - start) == (end - start) * loops) by (nonlinear_arith);
}

/// Law: the intro is reproduced exactly: the first `start` output samples
/// equal the first `start` input samples, for every valid region.
pub proof fn lemma_intro_preserved(input: Seq<i16>, start: int, end: int, loops: nat, fade: int)
    requires
        0 <= start <= end <= input.len(),
        0 <= fade,
    ensures
        processed(input, start, end, loops, fade).subrange(0, start) == input.subrange(0, start),
{
    assert(processed(input, start, end, loops, fade).subrange(0, start) =~= input.subrange(
        0,
        start,
    ));
}

/// Law: every repetition of the loop body is reproduced exactly: for each
/// `k < loops`, the output samples `[start + k*L, start + (k+1)*L)` equal
/// `input[start .. end)`, where `L = end - start`.
pub proof fn lemma_loop_blocks(
    input: Seq<i16>,
    start: int,
    end: int,
    loops: nat,
    fade: int,
    k: nat,
)
    requires
        0 <= start <= end <= input.len(),
        0 <= fade,
        k < loops,
    ensures
        processed(input, start, end, loops, fade).subrange(
            start + k as int * (end - start),
            start + (k + 1) as int * (end - start),
        ) == input.subrange(start, end),
{
    let body = input.subrange(start, end);
    let len = end - start;
    let out = processed(input, start, end, loops, fade);
    let rep = repeat_seq(body, loops);
    lemma_processed_len(input, start, end, loops, fade);
    lemma_repeat_seq_len(body, loops);
    lemma_repeat_seq_block(body, loops, k);
    assert(0 <= k as int * len && (k + 1) as int * len <= loops as int * len && (k + 1) as int * len
        == k as int * len + len && loops as int * len == len * loops) by (nonlinear_arith)
        requires
            0 <= k,
            k + 1 <= loops,
            len >= 0,
    ;
    let lo = start + k as int * len;
    let block = out.subrange(lo, lo + len);
    assert forall|i: int| 0 <= i < len implies block[i] == body[i] by {
        assert(block[i] == out[lo + i]);
        assert(out[lo + i] == rep[k as int * len + i]);
        assert(rep.subrange(k as int * len, (k + 1) as int * len)[i] == rep[k as int * len + i]);
    }
    assert(block =~= body);
}

/// Law: with `loops == 0` the body contributes nothing: the output is the
/// intro followed directly by the faded outro, of length `start + fade`.
pub proof fn lemma_no_repeats(input: Seq<i16>, start: int, end: int, fade: int)
    requires
        0 <= start <= end <= input.len(),
        0 <= fade,
    ensures
        processed(input, start, end, 0, fade) == input.subrange(0, start) + fade_window(
            input,
            start,
            fade,
        ),
        processed(input, start, end, 0, fade).len() == start + fade,
{
    assert(processed(input, start, end, 0, fade) =~= input.subrange(0, start) + fade_window(
        input,
        start,
        fade,
    ));
}

/// Law: with `fade == 0` the outro is empty: the output is the intro
/// followed by the repeated body, of length `start + (end - start) * loops`.
pub proof fn lemma_no_fade(input: Seq<i16>, start: int, end: int, loops: nat)
    requires
        0 <= start <= end <= input.len(),
    ensures
        processed(input, start, end, loops, 0) == input.subrange(0, start) + repeat_seq(
            input.subrange(start, end),
            loops,
        ),
        processed(input, start, end, loops, 0).len() == start + (end - start) * loops,
{
    lemma_processed_len(input, start, end, loops, 0);
    assert(processed(input, start, end, loops, 0) =~= input.subrange(0, start) + repeat_seq(
        input.subrange(start, end),
        loops,
    ));
}

/// Law: stereo symmetry: two channels with identical samples are
/// transformed to identical outputs, index for index.
pub proof fn lemma_stereo_symmetry(
    left: Seq<i16>,
    right: Seq<i16>,
    start: int,
    end: int,
    loops: nat,
    fade: int,
)
    requires
        left == right,
    ensures
        processed(left, start, end, loops, fade) == processed(right, start, end, loops, fade),
{
}

/// Transforms one channel: copies the intro, repeats the loop body
/// `loops` times, and appends the faded outro.
pub fn process_channel(samples: &Vec<i16>, start: usize, end: usize, loops: usize, fade: usize) -> (out: Vec<i16>)
    requires
        start <= end <= samples@.len(),
        start + fade <= samples@.len(),
        start + (end - start) * loops + fade <= usize::MAX,
    ensures
        out@ == processed(samples@, start as int, end as int, loops as nat, fade as int),
        out@.len() == start + (end - start) * loops + fade,
{
    proof {
        lemma_processed_len(samples@, start as int, end as int, loops as nat, fade as int);
    }
    let ghost body = samples@.subrange(start as int, end as int);
    let body_len = end - start;
    let mut out: Vec<i16> = Vec::new();
    proof {
        assert(out@ =~= samples@.subrange(0, 0));
    }

    // intro: samples[0 .. start), verbatim
    let mut i: usize = 0;
    while i < start
        invariant
            i <= start,
            out@ == samples@.subrange(0, i as int),
        decreases start - i,
    {
        out.push(samples[i]);
        i = i + 1;
        proof {
            assert(out@ =~= samples@.subrange(0, i as int));
        }
    }

    // body: samples[start .. end), loops times over
    let ghost intro = samples@.subrange(0, start as int);
    proof {
        assert(out@ =~= intro + repeat_seq(body, 0));
    }
    let mut k: usize = 0;
    while k < loops
        invariant
            k <= loops,
            out@ == intro + repeat_seq(body, k as nat),
        decreases loops - k,
    {
        proof {
            assert(out@ =~= intro + repeat_seq(body, k as nat) + body.subrange(0, 0));
        }
        let mut j: usize = 0;
        while j < body_len
            invariant
                j <= body_len,
                out@ == intro + repeat_seq(body, k as nat) + body.subrange(0, j as int),
            decreases body_len - j,
        {
            out.push(samples[start + j]);
            j = j + 1;
            proof {
                assert(out@ =~= intro + repeat_seq(body, k as nat) + body.subrange(0, j as int));
            }
        }
        k = k + 1;
        proof {
            assert(body.subrange(0, body_len as int) =~= body);
            assert(repeat_seq(body, k as nat) == repeat_seq(body, (k - 1) as nat) + body);
            assert(out@ =~= intro + repeat_seq(body, k as nat));
        }
    }

    // outro: the body's first `fade` samples, scaled by the fade envelope
    let ghost mid = out@;
    let ghost win = fade_window(samples@, start as int, fade as int);
    proof {
        assert(out@ =~= mid + win.subrange(0, 0));
    }
    let mut i: usize = 0;
    while i < fade
        invariant
            i <= fade,
            out@ == mid + win.subrange(0, i as int),
        decreases fade - i,
    {
        let v = scale_sample(samples[start + i], i, fade);
        out.push(v);
        i = i + 1;
        proof {
            assert(out@ =~= mid + win.subrange(0, i as int));
        }
    }
    proof {
        assert(win.subrange(0, fade as int) =~= win);
        assert(out@ =~= processed(samples@, start as int, end as int, loops as nat, fade as int));
    }
    out
}

/// Decides whether looping is active; see [`spec_should_process`].
pub fn should_process(process_requested: bool, loop_start: usize, loop_end: usize) -> (b: bool)
    ensures
        b == spec_should_process(process_requested, loop_start as int, loop_end as int),
{
    process_requested && loop_end > loop_start
}

/// The fade duration in per-channel sample units: seconds times sample
/// rate.
pub open spec fn spec_fade_len(decoded: DecodedFile, opts: CliOpts) -> int {
    opts.fade as int * decoded.frequency as int
}

/// What the loop transform needs of its inputs: equal channel lengths, a
/// loop region inside the buffer, a fade window that does not overrun the
/// buffer, and an output length that fits the machine.
pub open spec fn transform_pre(decoded: DecodedFile, opts: CliOpts) -> bool {
    &&& decoded.wf()
    &&& decoded.loop_start <= decoded.loop_end <= decoded.samples.0@.len()
    &&& decoded.loop_start + spec_fade_len(decoded, opts) <= decoded.samples.0@.len()
    &&& decoded.loop_start + (decoded.loop_end - decoded.loop_start) * opts.loops as int
        + spec_fade_len(decoded, opts) <= usize::MAX
}

/// Transforms both channels of a decoded layer with the same loop region,
/// repeat count and fade window, preserving the stereo image.
pub fn process_samples(decoded: &DecodedFile, opts: &CliOpts) -> (out: (Vec<i16>, Vec<i16>))
    requires
        transform_pre(*decoded, *opts),
    ensures
        out.0@ == processed(
            decoded.samples.0@,
            decoded.loop_start as int,
            decoded.loop_end as int,
            opts.loops as nat,
            spec_fade_len(*decoded, *opts),
        ),
        out.1@ == processed(
            decoded.samples.1@,
            decoded.loop_start as int,
            decoded.loop_end as int,
            opts.loops as nat,
            spec_fade_len(*decoded, *opts),
        ),
        out.0@.len() == out.1@.len(),
{
    let loop_start = decoded.loop_start;
    let loop_end = decoded.loop_end;
    let fade_length = opts.fade * (decoded.frequency as usize);
    let left = process_channel(&decoded.samples.0, loop_start, loop_end, opts.loops, fade_length);
    let right = process_channel(&decoded.samples.1, loop_start, loop_end, opts.loops, fade_length);
    (left, right)
}

/// The whole sample stage: loops and fades the decoded layer when
/// processing is active, and otherwise hands the decoded samples through
/// unchanged.
pub fn render_samples(decoded: DecodedFile, opts: &CliOpts) -> (out: (Vec<i16>, Vec<i16>))
    requires
        decoded.wf(),
        spec_should_process(opts.process, decoded.loop_start as int, decoded.loop_end as int)
            ==> transform_pre(decoded, *opts),
    ensures
        spec_should_process(opts.process, decoded.loop_start as int, decoded.loop_end as int)
            ==> out.0@ == processed(
            decoded.samples.0@,
            decoded.loop_start as int,
            decoded.loop_end as int,
            opts.loops as nat,
            spec_fade_len(decoded, *opts),
        ) && out.1@ == processed(
            decoded.samples.1@,
            decoded.loop_start as int,
            decoded.loop_end as int,
            opts.loops as nat,
            spec_fade_len(decoded, *opts),
        ),
        !spec_should_process(opts.process, decoded.loop_start as int, decoded.loop_end as int)
            ==> out == decoded.samples,
        out.0@.len() == out.1@.len(),
{
    if should_process(opts.process, decoded.loop_start, decoded.loop_end) {
        process_samples(&decoded, opts)
    } else {
        decoded.samples
    }
}

} // verus!
