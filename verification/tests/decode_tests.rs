use ogg_looper::decode::{gather_layer, validate_layer, DecodedFile, LayerError};
use ogg_looper::opts::automatic_output_name;

#[test]
fn first_layer_of_stereo_is_valid() {
    assert_eq!(validate_layer(0, 2), Ok(()));
}

#[test]
fn second_layer_of_stereo_is_missing() {
    assert_eq!(validate_layer(1, 2), Err(LayerError::TooFewLayers));
}

#[test]
fn quad_source_serves_two_layers() {
    assert_eq!(validate_layer(0, 4), Ok(()));
    assert_eq!(validate_layer(1, 4), Ok(()));
    assert_eq!(validate_layer(2, 4), Err(LayerError::TooFewLayers));
}

#[test]
fn odd_channel_counts_serve_whole_pairs_only() {
    // three channels hold one whole pair: layer 1 would need channels 2
    // and 3, and the latter does not exist
    assert_eq!(validate_layer(0, 3), Ok(()));
    assert_eq!(validate_layer(1, 3), Err(LayerError::TooFewLayers));
    assert_eq!(validate_layer(0, 5), Ok(()));
    assert_eq!(validate_layer(1, 5), Ok(()));
    assert_eq!(validate_layer(2, 5), Err(LayerError::TooFewLayers));
}

#[test]
fn mono_source_serves_only_the_first_layer() {
    assert_eq!(validate_layer(0, 1), Ok(()));
    assert_eq!(validate_layer(1, 1), Err(LayerError::TooFewLayers));
    assert_eq!(validate_layer(2, 1), Err(LayerError::MonoLayer));
}

#[test]
fn gathers_requested_pair_across_packets() {
    let packets: Vec<Vec<Vec<i16>>> = vec![
        vec![vec![1, 2], vec![3, 4], vec![9, 9], vec![8, 8]],
        vec![vec![5], vec![6], vec![9], vec![8]],
    ];
    let (left, right) = gather_layer(&packets, 0, 4);
    assert_eq!(left, vec![1, 2, 5]);
    assert_eq!(right, vec![3, 4, 6]);
    // the next layer is the next whole channel pair
    let (left, right) = gather_layer(&packets, 1, 4);
    assert_eq!(left, vec![9, 9, 9]);
    assert_eq!(right, vec![8, 8, 8]);
}

#[test]
fn mono_source_duplicates_its_channel() {
    let packets: Vec<Vec<Vec<i16>>> = vec![vec![vec![1, 2]], vec![vec![3]]];
    let (left, right) = gather_layer(&packets, 0, 1);
    assert_eq!(left, vec![1, 2, 3]);
    assert_eq!(right, vec![1, 2, 3]);
}

#[test]
fn gathered_channels_have_equal_length() {
    let packets: Vec<Vec<Vec<i16>>> = vec![vec![vec![1, 2, 3], vec![4, 5, 6]]];
    let (left, right) = gather_layer(&packets, 0, 2);
    assert_eq!(left.len(), right.len());
}

#[test]
fn decoded_file_carries_plain_values() {
    let d = DecodedFile {
        samples: (vec![1, 2], vec![3, 4]),
        loop_start: 0,
        loop_end: 2,
        frequency: 44100,
    };
    assert_eq!(d.samples.0.len(), d.samples.1.len());
    assert_eq!(d.frequency, 44100);
}

#[test]
fn output_name_appends_mp3_extension() {
    assert_eq!(automatic_output_name("song"), "song.mp3");
    assert_eq!(automatic_output_name("BGM_Field"), "BGM_Field.mp3");
}
