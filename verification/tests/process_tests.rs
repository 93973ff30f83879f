use ogg_looper::decode::DecodedFile;
use ogg_looper::opts::CliOpts;
use ogg_looper::process::{process_channel, process_samples, render_samples, should_process};

fn opts_with(process: bool, fade: usize, loops: usize) -> CliOpts {
    CliOpts {
        input: String::from("in.ogg"),
        output: String::from("out.mp3"),
        automatic_name: false,
        process,
        yes: false,
        layer: 1,
        fade,
        loops,
    }
}

#[test]
fn loop_and_fade_scenario() {
    // start=2, end=6, two repetitions, two faded samples:
    // intro [1,2]; body twice [3,4,5,6,3,4,5,6]; outro [3,4] scaled by
    // [1.0, 0.5] -> [3,2]; total length 2 + 4*2 + 2 = 12.
    let input: Vec<i16> = vec![1, 2, 3, 4, 5, 6, 7, 8, 9, 10];
    let out = process_channel(&input, 2, 6, 2, 2);
    assert_eq!(out, vec![1, 2, 3, 4, 5, 6, 3, 4, 5, 6, 3, 2]);
    assert_eq!(out.len(), 12);
}

#[test]
fn no_repeats_no_fade_keeps_intro_only() {
    // repeat=0, fade=0, start=3, end=7 on ten samples: only the intro.
    let input: Vec<i16> = vec![1, 2, 3, 4, 5, 6, 7, 8, 9, 10];
    let out = process_channel(&input, 3, 7, 0, 0);
    assert_eq!(out, vec![1, 2, 3]);
}

#[test]
fn no_repeats_still_fades() {
    // repeat=0 but a fade window: output is intro plus outro.
    let input: Vec<i16> = vec![8, 8, 100, 100, 100, 100];
    let out = process_channel(&input, 2, 4, 0, 4);
    // outro from input[2..6], scaled by (4-i)/4: [100, 75, 50, 25]
    assert_eq!(out, vec![8, 8, 100, 75, 50, 25]);
}

#[test]
fn no_fade_gives_exact_loop_length() {
    let input: Vec<i16> = vec![1, 2, 3, 4, 5, 6];
    let out = process_channel(&input, 1, 4, 3, 0);
    assert_eq!(out, vec![1, 2, 3, 4, 2, 3, 4, 2, 3, 4]);
    assert_eq!(out.len(), 1 + 3 * 3);
}

#[test]
fn fade_truncates_toward_zero_on_negative_samples() {
    let input: Vec<i16> = vec![-3, -3];
    let out = process_channel(&input, 0, 2, 0, 2);
    // -3 * (2-0)/2 = -3; -3 * (2-1)/2 = -1.5, truncated toward zero -> -1
    assert_eq!(out, vec![-3, -1]);
}

#[test]
fn fade_of_full_scale_decreases_monotonically() {
    let input: Vec<i16> = vec![32767; 8];
    let out = process_channel(&input, 0, 0, 0, 8);
    assert_eq!(out[0], 32767); // scale(0) == 1.0
    for i in 0..out.len() - 1 {
        assert!(out[i] >= out[i + 1]);
    }
    assert!(out[out.len() - 1] > 0); // scale(fade-1) > 0
}

#[test]
fn process_samples_applies_same_transform_per_channel() {
    let decoded = DecodedFile {
        samples: (vec![1, 2, 3, 4, 5, 6, 7, 8, 9, 10], vec![10, 9, 8, 7, 6, 5, 4, 3, 2, 1]),
        loop_start: 2,
        loop_end: 6,
        frequency: 2,
    };
    // fade of one second at 2 Hz: two faded samples per channel
    let opts = opts_with(true, 1, 2);
    let (left, right) = process_samples(&decoded, &opts);
    assert_eq!(left, vec![1, 2, 3, 4, 5, 6, 3, 4, 5, 6, 3, 2]);
    assert_eq!(right, vec![10, 9, 8, 7, 6, 5, 8, 7, 6, 5, 8, 3]);
    assert_eq!(left.len(), right.len());
}

#[test]
fn stereo_symmetry_on_identical_channels() {
    let channel: Vec<i16> = vec![4, -8, 15, 16, -23, 42, 0, 7];
    let decoded = DecodedFile {
        samples: (channel.clone(), channel),
        loop_start: 1,
        loop_end: 5,
        frequency: 3,
    };
    let opts = opts_with(true, 1, 4);
    let (left, right) = process_samples(&decoded, &opts);
    assert_eq!(left, right);
}

#[test]
fn render_passes_through_when_processing_disabled() {
    let decoded = DecodedFile {
        samples: (vec![1, 2, 3], vec![4, 5, 6]),
        loop_start: 1,
        loop_end: 3,
        frequency: 44100,
    };
    let opts = opts_with(false, 10, 2);
    let (left, right) = render_samples(decoded, &opts);
    assert_eq!(left, vec![1, 2, 3]);
    assert_eq!(right, vec![4, 5, 6]);
}

#[test]
fn render_passes_through_on_empty_region() {
    // loop_end <= loop_start: the markers are nonsense, the samples pass
    // through even though processing was requested.
    let decoded = DecodedFile {
        samples: (vec![7, 7, 7], vec![8, 8, 8]),
        loop_start: 0,
        loop_end: 0,
        frequency: 44100,
    };
    let opts = opts_with(true, 10, 2);
    let (left, right) = render_samples(decoded, &opts);
    assert_eq!(left, vec![7, 7, 7]);
    assert_eq!(right, vec![8, 8, 8]);
}

#[test]
fn render_processes_when_region_is_valid() {
    let decoded = DecodedFile {
        samples: (vec![1, 2, 3, 4], vec![1, 2, 3, 4]),
        loop_start: 1,
        loop_end: 3,
        frequency: 1,
    };
    let opts = opts_with(true, 0, 1);
    let (left, _right) = render_samples(decoded, &opts);
    assert_eq!(left, vec![1, 2, 3]);
}

#[test]
fn should_process_needs_request_and_nonempty_region() {
    assert!(should_process(true, 2, 6));
    assert!(!should_process(false, 2, 6));
    assert!(!should_process(true, 0, 0));
    assert!(!should_process(true, 6, 2));
    assert!(!should_process(true, 5, 5));
}
