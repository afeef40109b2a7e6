//! AVIF: the AV1 profile of the HEIF still-image container.
//!
//! The crate reads and writes the container side of an AVIF file. Every
//! parser is a total function on bytes whose contract names, for each
//! input, the value it decodes to or the fault it reports.

pub mod alpha;
pub mod audit_laws;
pub mod audits;
pub mod av1;
pub mod box_parser;
pub mod bytes;
pub mod cicp;
pub mod compose;
pub mod compose_laws;
pub mod container;
pub mod derived;
pub mod detail_laws;
pub mod error;
pub mod field_laws;
pub mod frame_laws;
pub mod gain_map;
pub mod grid;
pub mod groups;
pub mod image;
pub mod inspect;
pub mod inspect_item_laws;
pub mod inspect_laws;
pub mod lookup;
pub mod meta;
pub mod meta_laws;
pub mod meta_parse;
pub mod moov;
pub mod moov_laws;
pub mod mux;
pub mod mux_grid;
pub mod mux_grid_laws;
pub mod mux_identity_laws;
pub mod mux_inspect_laws;
pub mod mux_items;
pub mod mux_laws;
pub mod mux_layer_laws;
pub mod mux_overlay;
pub mod mux_overlay_laws;
pub mod mux_plan_laws;
pub mod mux_props;
pub mod obu;
pub mod overlay;
pub mod parse_laws;
pub mod parser;
pub mod picture;
pub mod property_laws;
pub mod props;
pub mod props_parse;
pub mod query_laws;
pub mod region;
pub mod resolve;
pub mod resolve_laws;
pub mod sample_group;
pub mod sequence;
pub mod sequence_coding_laws;
pub mod sequence_cover_laws;
pub mod sequence_laws;
pub mod still;
pub mod text;

pub use crate::alpha::{find_alpha_item_id, ALPHA_URN_PREFIX};
pub use crate::audits::{
    audit_alpha_bit_depth, audit_avif_profile_compliance, audit_grid_derivations,
    audit_iden_derivations, audit_sequence_header_obu, audit_tone_map, AlphaBitDepthAudit,
    AvifProfile, AvifProfileCompliance, GridDerivationAudit, IdenCompliance,
    SequenceHeaderObuAudit, ToneMapCompliance,
};
pub use crate::cicp::{effective_cicp, CicpTriple};
pub use crate::compose::{
    composite_overlay, ImageOverlay, OverlayEntry, OverlayInput, MAX_OVERLAY_CANVAS_PIXELS,
};
pub use crate::derived::{
    output_dims_from_reconstructed, transform_chain, DimTransform, Mif1Compliance,
    MAX_DERIVATION_DEPTH,
};
pub use crate::error::AvifError;
pub use crate::gain_map::{GainMapChannel, GainMapMetadata, GainMapRational};
pub use crate::grid::{composite_grid, ImageGrid};
pub use crate::groups::{parse_grpl, BracketingKind, EntityGroup};
pub use crate::image::{AvifFrame, AvifPixelFormat, AvifPlane};
pub use crate::inspect::{
    gain_map_metadata, inspect, item_payload_bytes, transforms_for, AvifInfo,
};
pub use crate::meta::{
    IrefEntry, ItemInfo, ItemLocation, Meta, ITEM_TYPE_EXIF, ITEM_TYPE_IDEN, ITEM_TYPE_IOVL,
    ITEM_TYPE_MIME, ITEM_TYPE_SATO, ITEM_TYPE_TMAP, ITEM_TYPE_URI,
};
pub use crate::mux::{encode_still_av1, AvifMuxer, IdentityDerivation};
pub use crate::mux_grid::{AvifGridMuxer, GridTile};
pub use crate::mux_overlay::{AvifOverlayMuxer, OverlayLayer};
pub use crate::parser::{
    audit_mif1, classify_brands, item_bytes, item_bytes_owned, item_bytes_owned_full,
    item_bytes_owned_with_idat, item_bytes_with_idat, parse, parse_header, AvifHeader, AvifImage,
    BrandClass, BRAND_AVIF, BRAND_AVIO, BRAND_AVIS, BRAND_MA1A, BRAND_MA1B, BRAND_MIAF, BRAND_MIF1,
    BRAND_MSF1, ITEM_TYPE_AV01, ITEM_TYPE_GRID,
};
pub use crate::props::{
    A1lx, A1op, Aebr, Afbr, Altt, Amve, AuxC, AuxKind, Cclv, Clap, Clli, Colr, Crtt, Dobr, Fobr,
    Imir, Irot, Iscl, Ispe, Lsel, Mdcv, Mdft, Pano, PanoGrid, Pasp, Pixi, Property, Rloc, Rref,
    Udes, Wbbr, AUX_URN_ALPHA_HEVC, AUX_URN_ALPHA_MPEG, AUX_URN_DEPTH_HEVC, AUX_URN_DEPTH_MPEG,
    AUX_URN_HDR_GAINMAP,
};
pub use crate::region::{
    resolve_derived_region_items, DerivedRegionItem, RegionGeometry, RegionItem, ITEM_TYPE_MSKI,
    ITEM_TYPE_RGAN, REF_TYPE_DRGN,
};
pub use crate::resolve::{
    reconstructed_dims, resolve_grids, resolve_iden_derivations, resolve_overlays,
    resolve_tone_maps, GridResolution, GridTilePlacement, IdenResolution, OverlayPlacement,
    OverlayResolution, ToneMapResolution,
};
pub use crate::sample_group::{
    parse_csgp, parse_sample_group_descriptions, parse_sample_to_groups, parse_sbgp, parse_sgpd,
    BracketingEntry, SampleGroupDescription, SampleToGroup, SampleToGroupKind, SampleToGroupRun,
    VisualEquivalenceEntry,
};
pub use crate::sequence::{encode_sequence, SequenceEncodeOptions};
pub use crate::still::{StillChroma, StillImage, STILL_MAX_CODED_DIM};
use vstd::prelude::*;

verus! {

/// Name under which a codec registry knows the format.
pub const CODEC_ID_STR: &'static str = "avif";

} // verus!
