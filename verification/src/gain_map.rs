//! Gain map metadata: how the gain map of a tone map is to be applied.

use crate::box_parser::{be16, be32, read_u16, read_u32};
use crate::error::{outcome_view, AvifError, Fault};
use crate::text::{dec, push_dec};
use vstd::prelude::*;

verus! {

/// A fraction.
#[derive(Clone, Copy, Debug, PartialEq, Eq, Structural)]
pub struct GainMapRational {
    /// Numerator.
    pub numerator: i64,
    /// Denominator; never 0.
    pub denominator: u32,
}

/// What applies to one colour channel, or to all of them.
#[derive(Clone, Copy, Debug, PartialEq, Eq, Structural)]
pub struct GainMapChannel {
    /// Least gain, as a power of two.
    pub gain_map_min: GainMapRational,
    /// Largest gain, as a power of two.
    pub gain_map_max: GainMapRational,
    /// Gamma; never 0.
    pub gamma: GainMapRational,
    /// Offset of the base image.
    pub base_offset: GainMapRational,
    /// Offset of the alternate image.
    pub alternate_offset: GainMapRational,
}

/// How a gain map is to be applied.
#[derive(Clone, Debug, PartialEq, Eq)]
pub struct GainMapMetadata {
    /// Least version of a reader.
    pub minimum_version: u16,
    /// Version of the writer.
    pub writer_version: u16,
    /// Whether each colour channel has an entry of its own.
    pub is_multichannel: bool,
    /// Whether the gain is applied in the colour space of the base image.
    pub use_base_colour_space: bool,
    /// Headroom of the base image.
    pub base_hdr_headroom: GainMapRational,
    /// Headroom of the alternate image.
    pub alternate_hdr_headroom: GainMapRational,
    /// One entry, or one for each of red, green and blue.
    pub channels: Vec<GainMapChannel>,
}

/// A [`GainMapMetadata`] as contracts speak of it.
#[verifier::ext_equal]
pub struct GainMapView {
    /// Least version of a reader.
    pub minimum_version: u16,
    /// Version of the writer.
    pub writer_version: u16,
    /// Whether each colour channel has an entry of its own.
    pub is_multichannel: bool,
    /// Whether the gain is applied in the colour space of the base image.
    pub use_base_colour_space: bool,
    /// Headroom of the base image.
    pub base_hdr_headroom: GainMapRational,
    /// Headroom of the alternate image.
    pub alternate_hdr_headroom: GainMapRational,
    /// One entry, or one for each of red, green and blue.
    pub channels: Seq<GainMapChannel>,
}

impl View for GainMapMetadata {
    type V = GainMapView;

    open spec fn view(&self) -> GainMapView {
        GainMapView {
            minimum_version: self.minimum_version,
            writer_version: self.writer_version,
            is_multichannel: self.is_multichannel,
            use_base_colour_space: self.use_base_colour_space,
            base_hdr_headroom: self.base_hdr_headroom,
            alternate_hdr_headroom: self.alternate_hdr_headroom,
            channels: self.channels@,
        }
    }
}

/// The fault of metadata that ends early.
pub open spec fn cut_off() -> Fault {
    Fault::Invalid("avif: gain map metadata is truncated"@)
}

/// The fraction at byte `at`: 32 bits of numerator, with a sign or
/// without, and 32 bits of denominator, which is not 0.
pub open spec fn rational_at(s: Seq<u8>, at: int, signed: bool) -> Result<GainMapRational, Fault> {
    if at + 8 > s.len() {
        Err(cut_off())
    } else if be32(s, at + 4) == 0 {
        Err(Fault::Invalid("avif: gain map metadata has a zero denominator"@))
    } else {
        Ok(
            GainMapRational {
                numerator: if signed {
                    (be32(s, at) as i32) as i64
                } else {
                    be32(s, at) as i64
                },
                denominator: be32(s, at + 4),
            },
        )
    }
}

/// The channel entry at byte `at`: least and largest gain, gamma, which
/// is not 0, and the two offsets.
pub open spec fn channel_at(s: Seq<u8>, at: int) -> Result<GainMapChannel, Fault> {
    match rational_at(s, at, true) {
        Err(f) => Err(f),
        Ok(gain_map_min) => match rational_at(s, at + 8, true) {
            Err(f) => Err(f),
            Ok(gain_map_max) => match rational_at(s, at + 16, false) {
                Err(f) => Err(f),
                Ok(gamma) => if gamma.numerator == 0 {
                    Err(Fault::Invalid("avif: gain map metadata has a zero gamma"@))
                } else {
                    match rational_at(s, at + 24, true) {
                        Err(f) => Err(f),
                        Ok(base_offset) => match rational_at(s, at + 32, true) {
                            Err(f) => Err(f),
                            Ok(alternate_offset) => Ok(
                                GainMapChannel {
                                    gain_map_min,
                                    gain_map_max,
                                    gamma,
                                    base_offset,
                                    alternate_offset,
                                },
                            ),
                        },
                    }
                },
            },
        },
    }
}

/// `done`, then the `left` channel entries from byte `at` on.
pub open spec fn channels_from(s: Seq<u8>, at: int, left: nat, done: Seq<GainMapChannel>) -> Result<
    Seq<GainMapChannel>,
    Fault,
>
    decreases left,
{
    if left == 0 {
        Ok(done)
    } else {
        match channel_at(s, at) {
            Err(f) => Err(f),
            Ok(c) => channels_from(s, at + 40, (left - 1) as nat, done.push(c)),
        }
    }
}

/// The metadata in these bytes. Bytes behind it are not read.
pub open spec fn gain_map_of(s: Seq<u8>) -> Result<GainMapView, Fault> {
    if s.len() < 4 {
        Err(cut_off())
    } else if be16(s, 2) < be16(s, 0) {
        Err(
            Fault::Invalid(
                "avif: gain map metadata writer_version is below its minimum_version"@,
            ),
        )
    } else if be16(s, 0) != 0 {
        Err(
            Fault::Unsupported(
                "avif: gain map metadata minimum_version "@ + dec(be16(s, 0) as nat),
            ),
        )
    } else if s.len() < 5 {
        Err(cut_off())
    } else {
        match rational_at(s, 5, false) {
            Err(f) => Err(f),
            Ok(base_hdr_headroom) => match rational_at(s, 13, false) {
                Err(f) => Err(f),
                Ok(alternate_hdr_headroom) => match channels_from(
                    s,
                    21,
                    if s[4] >= 128 {
                        3
                    } else {
                        1
                    },
                    Seq::empty(),
                ) {
                    Err(f) => Err(f),
                    Ok(channels) => Ok(
                        GainMapView {
                            minimum_version: be16(s, 0),
                            writer_version: be16(s, 2),
                            is_multichannel: s[4] >= 128,
                            use_base_colour_space: s[4] / 64 % 2 == 1,
                            base_hdr_headroom,
                            alternate_hdr_headroom,
                            channels,
                        },
                    ),
                },
            },
        }
    }
}

fn cut_off_error() -> (r: AvifError)
    ensures
        r@ == cut_off(),
{
    AvifError::invalid("avif: gain map metadata is truncated")
}

fn read_rational(s: &[u8], at: usize, signed: bool) -> (r: Result<GainMapRational, AvifError>)
    requires
        at <= 1000,
    ensures
        match r {
            Ok(v) => rational_at(s@, at as int, signed) == Ok::<GainMapRational, Fault>(v),
            Err(e) => rational_at(s@, at as int, signed) == Err::<GainMapRational, Fault>(e@),
        },
{
    if at + 8 > s.len() {
        return Err(cut_off_error());
    }
    let n: u32 = read_u32(s, at)?;
    let denominator: u32 = read_u32(s, at + 4)?;
    if denominator == 0 {
        return Err(AvifError::invalid("avif: gain map metadata has a zero denominator"));
    }
    let numerator: i64 = if signed {
        (n as i32) as i64
    } else {
        n as i64
    };
    Ok(GainMapRational { numerator, denominator })
}

fn read_channel(s: &[u8], at: usize) -> (r: Result<GainMapChannel, AvifError>)
    requires
        at <= 900,
    ensures
        match r {
            Ok(v) => channel_at(s@, at as int) == Ok::<GainMapChannel, Fault>(v),
            Err(e) => channel_at(s@, at as int) == Err::<GainMapChannel, Fault>(e@),
        },
{
    let gain_map_min = read_rational(s, at, true)?;
    let gain_map_max = read_rational(s, at + 8, true)?;
    let gamma = read_rational(s, at + 16, false)?;
    if gamma.numerator == 0 {
        return Err(AvifError::invalid("avif: gain map metadata has a zero gamma"));
    }
    let base_offset = read_rational(s, at + 24, true)?;
    let alternate_offset = read_rational(s, at + 32, true)?;
    Ok(GainMapChannel { gain_map_min, gain_map_max, gamma, base_offset, alternate_offset })
}

fn read_channels(s: &[u8], count: usize) -> (r: Result<Vec<GainMapChannel>, AvifError>)
    requires
        count <= 3,
    ensures
        outcome_view(r) == channels_from(s@, 21, count as nat, Seq::empty()),
{
    let mut out: Vec<GainMapChannel> = Vec::new();
    let mut i: usize = 0;
    while i < count
        invariant
            i <= count <= 3,
            channels_from(s@, 21 + 40 * i, (count - i) as nat, out@) == channels_from(
                s@,
                21,
                count as nat,
                Seq::empty(),
            ),
        decreases count - i,
    {
        let c = read_channel(s, 21 + 40 * i)?;
        out.push(c);
        i = i + 1;
    }
    Ok(out)
}

impl GainMapMetadata {
    /// Parse gain map metadata.
    pub fn parse(payload: &[u8]) -> (r: Result<GainMapMetadata, AvifError>)
        ensures
            outcome_view(r) == gain_map_of(payload@),
    {
        if payload.len() < 4 {
            return Err(cut_off_error());
        }
        let minimum_version: u16 = read_u16(payload, 0)?;
        let writer_version: u16 = read_u16(payload, 2)?;
        if writer_version < minimum_version {
            return Err(
                AvifError::invalid(
                    "avif: gain map metadata writer_version is below its minimum_version",
                ),
            );
        }
        if minimum_version != 0 {
            let mut s = "avif: gain map metadata minimum_version ".to_string();
            push_dec(&mut s, minimum_version as u64);
            return Err(AvifError::Unsupported(s));
        }
        if payload.len() < 5 {
            return Err(cut_off_error());
        }
        let flags: u8 = payload[4];
        let base_hdr_headroom = read_rational(payload, 5, false)?;
        let alternate_hdr_headroom = read_rational(payload, 13, false)?;
        let count: usize = if flags >= 128 {
            3
        } else {
            1
        };
        let channels = read_channels(payload, count)?;
        Ok(
            GainMapMetadata {
                minimum_version,
                writer_version,
                is_multichannel: flags >= 128,
                use_base_colour_space: flags / 64 % 2 == 1,
                base_hdr_headroom,
                alternate_hdr_headroom,
                channels,
            },
        )
    }
}

} // verus!
