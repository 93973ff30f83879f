//! Plain-value side of the decode collaborator.
//!
//! The container decoder hands over per-packet channel data, a channel
//! count and a requested layer (zero-based stereo pair). This module holds
//! the decoded result type, the layer validation rule and the routine that
//! gathers one layer's two channel sequences out of the packet list.

use vstd::prelude::*;

verus! {

/// A decoded layer: the two channel sample sequences, the loop markers
/// read from the container comments (in per-channel sample units) and the
/// sample rate in Hz.
pub struct DecodedFile {
    pub samples: (Vec<i16>, Vec<i16>),
    pub loop_start: usize,
    pub loop_end: usize,
    pub frequency: u32,
}

impl DecodedFile {
    /// Well-formedness: paired channels always hold the same number of
    /// samples.
    pub open spec fn wf(&self) -> bool {
        self.samples.0@.len() == self.samples.1@.len()
    }
}

/// Why a requested layer cannot be served.
#[derive(Clone, Copy, Debug, PartialEq, Eq, Structural)]
pub enum LayerError {
    /// The source is mono and a layer beyond the first pair was requested.
    MonoLayer,
    /// The source has fewer channel pairs than the requested layer.
    TooFewLayers,
}

/// The layer rule: a layer is a stereo channel-pair, so the zero-based
/// layer `l` needs channels `2l` and `2l + 1` to exist (a source with `c`
/// channels serves `c / 2` layers). A mono source serves only the first
/// layer — its one channel doubled — and a request far beyond a mono file
/// is called out as such.
pub open spec fn spec_validate_layer(layer: int, channels: int) -> Result<(), LayerError> {
    if channels == 1 && layer > 1 {
        Err(LayerError::MonoLayer)
    } else if channels == 1 && layer >= 1 {
        Err(LayerError::TooFewLayers)
    } else if channels != 1 && 2 * layer + 1 >= channels {
        Err(LayerError::TooFewLayers)
    } else {
        Ok(())
    }
}

/// Decides whether the requested zero-based layer exists for the given
/// channel count.
pub fn validate_layer(layer: usize, channels: usize) -> (r: Result<(), LayerError>)
    ensures
        r == spec_validate_layer(layer as int, channels as int),
{
    if channels == 1 && layer > 1 {
        Err(LayerError::MonoLayer)
    } else if channels == 1 && layer >= 1 {
        Err(LayerError::TooFewLayers)
    } else if channels != 1 && layer >= channels / 2 {
        proof {
            assert(2 * (layer as int) + 1 >= channels as int) by (nonlinear_arith)
                requires
                    (layer as int) >= (channels as int) / 2,
                    (channels as int) >= 0,
            ;
        }
        Err(LayerError::TooFewLayers)
    } else {
        proof {
            if channels != 1 {
                assert(2 * (layer as int) + 1 < channels as int) by (nonlinear_arith)
                    requires
                        (layer as int) < (channels as int) / 2,
                        (channels as int) >= 0,
                ;
            }
        }
        Ok(())
    }
}

/// The concatenation, packet after packet, of channel `idx` of each packet.
pub open spec fn layer_channel(packets: Seq<Vec<Vec<i16>>>, idx: int) -> Seq<i16>
    decreases packets.len(),
{
    if packets.len() == 0 {
        Seq::empty()
    } else {
        layer_channel(packets.drop_last(), idx) + packets.last()@[idx]@
    }
}

/// Channels that run in parallel through every packet gather to sequences
/// of one length.
pub proof fn lemma_layer_channel_len_eq(packets: Seq<Vec<Vec<i16>>>, i: int, j: int)
    requires
        forall|p: int|
            0 <= p < packets.len() ==> (#[trigger] packets[p])@[i]@.len() == packets[p]@[j]@.len(),
    ensures
        layer_channel(packets, i).len() == layer_channel(packets, j).len(),
    decreases packets.len(),
{
    if packets.len() > 0 {
        lemma_layer_channel_len_eq(packets.drop_last(), i, j);
    }
}

/// Gathers the two channel sequences of the requested zero-based layer's
/// channel pair: channel `2*layer` left and `2*layer + 1` right, or the
/// single channel twice for a mono source.
pub fn gather_layer(packets: &Vec<Vec<Vec<i16>>>, layer: usize, channels: usize) -> (out: (
    Vec<i16>,
    Vec<i16>,
))
    requires
        channels >= 1,
        channels == 1 || 2 * layer + 1 < channels,
        forall|p: int| 0 <= p < packets@.len() ==> (#[trigger] packets@[p])@.len() == channels,
        forall|p: int, c: int|
            0 <= p < packets@.len() && 0 <= c < channels ==> (#[trigger] packets@[p]@[c])@.len()
                == packets@[p]@[0]@.len(),
    ensures
        out.0@ == layer_channel(packets@, if channels == 1 { 0int } else { 2 * layer as int }),
        out.1@ == layer_channel(
            packets@,
            if channels == 1 { 0int } else { 2 * layer as int + 1 },
        ),
        out.0@.len() == out.1@.len(),
{
    let li: usize = if channels == 1 { 0 } else { 2 * layer };
    let ri: usize = if channels == 1 { 0 } else { 2 * layer + 1 };
    proof {
        assert(ri < channels);
        assert forall|p: int|
            0 <= p < packets@.len() implies (#[trigger] packets@[p])@[li as int]@.len()
                == packets@[p]@[ri as int]@.len() by {
            assert(packets@[p]@[li as int]@.len() == packets@[p]@[0]@.len());
            assert(packets@[p]@[ri as int]@.len() == packets@[p]@[0]@.len());
        }
        lemma_layer_channel_len_eq(packets@, li as int, ri as int);
    }
    let mut left: Vec<i16> = Vec::new();
    let mut right: Vec<i16> = Vec::new();
    proof {
        assert(packets@.subrange(0, 0) =~= Seq::<Vec<Vec<i16>>>::empty());
    }
    let mut p: usize = 0;
    while p < packets.len()
        invariant
            p <= packets@.len(),
            left@ == layer_channel(packets@.subrange(0, p as int), li as int),
            right@ == layer_channel(packets@.subrange(0, p as int), ri as int),
        decreases packets@.len() - p,
    {
        let ghost pre_left = left@;
        let ghost pre_right = right@;
        let pkt = &packets[p];
        let lch = &pkt[li];
        let rch = &pkt[ri];
        proof {
            assert(left@ =~= pre_left + lch@.subrange(0, 0));
            assert(right@ =~= pre_right + rch@.subrange(0, 0));
        }
        let mut j: usize = 0;
        let n = lch.len();
        while j < n
            invariant
                j <= n,
                n == lch@.len(),
                left@ == pre_left + lch@.subrange(0, j as int),
            decreases n - j,
        {
            left.push(lch[j]);
            j = j + 1;
            proof {
                assert(left@ =~= pre_left + lch@.subrange(0, j as int));
            }
        }
        let mut j: usize = 0;
        let n = rch.len();
        while j < n
            invariant
                j <= n,
                n == rch@.len(),
                right@ == pre_right + rch@.subrange(0, j as int),
            decreases n - j,
        {
            right.push(rch[j]);
            j = j + 1;
            proof {
                assert(right@ =~= pre_right + rch@.subrange(0, j as int));
            }
        }
        p = p + 1;
        proof {
            let sub = packets@.subrange(0, p as int);
            assert(sub.drop_last() =~= packets@.subrange(0, p - 1));
            assert(lch@.subrange(0, lch@.len() as int) =~= lch@);
            assert(rch@.subrange(0, rch@.len() as int) =~= rch@);
            assert(left@ == layer_channel(sub, li as int));
            assert(right@ == layer_channel(sub, ri as int));
        }
    }
    proof {
        assert(packets@.subrange(0, packets@.len() as int) =~= packets@);
    }
    (left, right)
}

} // verus!
