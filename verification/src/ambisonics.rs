//! Channel bookkeeping for Ambisonics encoding (ACN channel order).
//!
//! An Ambisonics stream of order `N` has `(N + 1)²` channels. Spherical
//! harmonic coefficients are computed up to order 3, so at most 16
//! channels of a stream receive a contribution.

use vstd::prelude::*;

verus! {

/// Highest Ambisonics order whose spherical harmonics are computed.
pub const MAX_HOA_ORDER: u32 = 3;

/// Number of channels of a third-order stream: `(3 + 1)² = 16`.
pub const MAX_HOA_CHANNELS: usize = 16;

/// Number of ACN channels of an order-`order` stream: `(order + 1)²`.
pub fn hoa_channel_count(order: u32) -> (n: usize)
    requires
        (order + 1) * (order + 1) <= u32::MAX,
    ensures
        n == (order + 1) * (order + 1),
{
    proof {
        assert(order + 1 <= u32::MAX) by (nonlinear_arith)
            requires
                (order + 1) * (order + 1) <= u32::MAX,
        ;
    }
    let k = order + 1;
    (k * k) as usize
}

/// Number of channels that an encoded reflection actually contributes to
/// in an order-`order` stream: its channel count, at most 16.
pub fn hoa_encoded_channels(order: u32) -> (n: usize)
    requires
        (order + 1) * (order + 1) <= u32::MAX,
    ensures
        n == if (order + 1) * (order + 1) < MAX_HOA_CHANNELS {
            (order + 1) * (order + 1)
        } else {
            MAX_HOA_CHANNELS as int
        },
{
    let n = hoa_channel_count(order);
    if n < MAX_HOA_CHANNELS {
        n
    } else {
        MAX_HOA_CHANNELS
    }
}

/// Whether a contribution at sample `delay_samples` can be added to a
/// stream of `order` whose first channel holds `channel_len` samples and
/// which has `num_channels` channels: the sample must lie inside the
/// channel and the stream must have all the order's channels.
pub fn hoa_accepts(order: u32, delay_samples: usize, channel_len: usize, num_channels: usize) -> (r: bool)
    requires
        (order + 1) * (order + 1) <= u32::MAX,
    ensures
        r == (delay_samples < channel_len && num_channels >= (order + 1) * (order + 1)),
{
    delay_samples < channel_len && num_channels >= hoa_channel_count(order)
}

} // verus!
