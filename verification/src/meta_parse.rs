//! Parsers of the boxes inside `meta` that list items, their locations,
//! their properties and the references between them.

use crate::box_parser::{
    box_at, cstr_at, find_box, first_box, full_box, get16, get32, get_n, lemma_box_bounds,
    parse_box_header, parse_full_box, payload_of, read_cstr, read_u16, read_u32, read_var_uint,
    same_type, type_at, type_from, BoxType,
};
use crate::error::{
    invalid_end, lemma_views_push, outcome, outcome_list, outcome_view, text_code, views, AvifError,
    Fault,
};
use crate::props::{Property, PropertyView};
use crate::props_parse::{after, parse_ipco, properties_from};
use crate::text::{code_text, dec};
use vstd::prelude::*;

verus! {

/// `infe` — item info entry.
pub const INFE: BoxType = [0x69, 0x6e, 0x66, 0x65];

/// `ipco` — item property container.
pub const IPCO: BoxType = [0x69, 0x70, 0x63, 0x6f];

/// `ipma` — item property association.
pub const IPMA: BoxType = [0x69, 0x70, 0x6d, 0x61];

/// `mime` — an item whose payload has a MIME type.
pub const ITEM_TYPE_MIME: BoxType = [0x6d, 0x69, 0x6d, 0x65];

/// `uri ` — an item whose payload is identified by a URI.
pub const ITEM_TYPE_URI: BoxType = [0x75, 0x72, 0x69, 0x20];

/// `Exif` — an Exif metadata item.
pub const ITEM_TYPE_EXIF: BoxType = [0x45, 0x78, 0x69, 0x66];

/// `iovl` — an image overlay.
pub const ITEM_TYPE_IOVL: BoxType = [0x69, 0x6f, 0x76, 0x6c];

/// `iden` — an identity derivation.
pub const ITEM_TYPE_IDEN: BoxType = [0x69, 0x64, 0x65, 0x6e];

/// `sato` — a sample transform.
pub const ITEM_TYPE_SATO: BoxType = [0x73, 0x61, 0x74, 0x6f];

/// `tmap` — a tone map.
pub const ITEM_TYPE_TMAP: BoxType = [0x74, 0x6d, 0x61, 0x70];

/// One item as `infe` describes it.
#[derive(Clone, Debug)]
pub struct ItemInfo {
    /// Item id.
    pub id: u32,
    /// Item type (`av01`, `grid`, …).
    pub item_type: BoxType,
    /// Name; often empty.
    pub name: String,
    /// MIME type, for `mime` items only.
    pub content_type: Option<String>,
    /// Content encoding, for `mime` items only; an empty one is absent.
    pub content_encoding: Option<String>,
    /// URI type, for `uri ` items only.
    pub item_uri_type: Option<String>,
    /// The 24-bit flags of the entry.
    pub flags: u32,
}

/// An [`ItemInfo`] as contracts speak of it.
#[verifier::ext_equal]
pub struct ItemInfoView {
    /// Item id.
    pub id: u32,
    /// Item type.
    pub item_type: BoxType,
    /// Name.
    pub name: Seq<char>,
    /// MIME type.
    pub content_type: Option<Seq<char>>,
    /// Content encoding.
    pub content_encoding: Option<Seq<char>>,
    /// URI type.
    pub item_uri_type: Option<Seq<char>>,
    /// The 24-bit flags of the entry.
    pub flags: u32,
}

/// The text of an optional string.
pub open spec fn opt_text(s: Option<String>) -> Option<Seq<char>> {
    match s {
        Some(t) => Some(t@),
        None => None,
    }
}

impl View for ItemInfo {
    type V = ItemInfoView;

    open spec fn view(&self) -> ItemInfoView {
        ItemInfoView {
            id: self.id,
            item_type: self.item_type,
            name: self.name@,
            content_type: opt_text(self.content_type),
            content_encoding: opt_text(self.content_encoding),
            item_uri_type: opt_text(self.item_uri_type),
            flags: self.flags,
        }
    }
}

impl ItemInfo {
    /// Whether the item is hidden: bit 0 of the flags. A hidden item is
    /// not presented by itself.
    pub fn is_hidden(&self) -> (r: bool)
        ensures
            r == (self.flags % 2 == 1),
    {
        self.flags % 2 == 1
    }
}

/// One extent of an item: an offset and a length, and the item that it
/// lies in where that is not the file itself.
#[derive(Clone, Copy, Debug, PartialEq, Eq, Structural)]
pub struct IlocExtent {
    /// Offset, from the base of the item.
    pub offset: u64,
    /// Length in bytes.
    pub length: u64,
    /// Which `iloc` reference of the item names the one that the extent
    /// lies in, from 1. It counts for construction method 2 alone.
    pub index: u64,
}

/// Where the payload of an item lies.
#[derive(Clone, Debug)]
pub struct ItemLocation {
    /// Item id.
    pub id: u32,
    /// 0 for file offsets, 1 for offsets into `idat`, 2 for offsets into
    /// another item.
    pub construction_method: u8,
    /// Data reference; 0 for this file.
    pub data_reference_index: u16,
    /// Base that the extents are relative to.
    pub base_offset: u64,
    /// The extents, in order.
    pub extents: Vec<IlocExtent>,
}

/// An [`ItemLocation`] as contracts speak of it.
#[verifier::ext_equal]
pub struct ItemLocationView {
    /// Item id.
    pub id: u32,
    /// Construction method.
    pub construction_method: u8,
    /// Data reference.
    pub data_reference_index: u16,
    /// Base that the extents are relative to.
    pub base_offset: u64,
    /// The extents, in order.
    pub extents: Seq<IlocExtent>,
}

impl View for ItemLocation {
    type V = ItemLocationView;

    open spec fn view(&self) -> ItemLocationView {
        ItemLocationView {
            id: self.id,
            construction_method: self.construction_method,
            data_reference_index: self.data_reference_index,
            base_offset: self.base_offset,
            extents: self.extents@,
        }
    }
}

/// One property of an item: its place in the container, from 0, and
/// whether it is essential.
#[derive(Clone, Copy, Debug, PartialEq, Eq, Structural)]
pub struct PropertyAssociation {
    /// Place in the property container, from 0.
    pub index: u16,
    /// Whether a reader must understand the property.
    pub essential: bool,
}

/// The properties of one item.
#[derive(Clone, Debug)]
pub struct ItemPropertyAssociation {
    /// Item id.
    pub item_id: u32,
    /// Its properties, in order.
    pub entries: Vec<PropertyAssociation>,
}

/// An [`ItemPropertyAssociation`] as contracts speak of it.
#[verifier::ext_equal]
pub struct AssociationView {
    /// Item id.
    pub item_id: u32,
    /// Its properties, in order.
    pub entries: Seq<PropertyAssociation>,
}

impl View for ItemPropertyAssociation {
    type V = AssociationView;

    open spec fn view(&self) -> AssociationView {
        AssociationView { item_id: self.item_id, entries: self.entries@ }
    }
}

/// A typed reference from one item to others.
#[derive(Clone, Debug)]
pub struct IrefEntry {
    /// Reference type (`dimg`, `auxl`, …).
    pub reference_type: BoxType,
    /// The item the reference starts from.
    pub from_id: u32,
    /// The items it leads to, in order.
    pub to_ids: Vec<u32>,
}

/// An [`IrefEntry`] as contracts speak of it.
#[verifier::ext_equal]
pub struct IrefView {
    /// Reference type.
    pub reference_type: BoxType,
    /// The item the reference starts from.
    pub from_id: u32,
    /// The items it leads to, in order.
    pub to_ids: Seq<u32>,
}

impl View for IrefEntry {
    type V = IrefView;

    open spec fn view(&self) -> IrefView {
        IrefView {
            reference_type: self.reference_type,
            from_id: self.from_id,
            to_ids: self.to_ids@,
        }
    }
}

/// The handler type in a `hdlr` payload.
pub open spec fn hdlr_of(s: Seq<u8>) -> Result<BoxType, Fault> {
    match full_box(s) {
        Err(f) => Err(f),
        Ok((_, _, b)) => if b.len() < 8 {
            Err(Fault::Invalid("avif: hdlr too short"@))
        } else {
            Ok(type_at(b, 4))
        },
    }
}

/// Parse `hdlr`: the handler type.
pub fn parse_hdlr(payload: &[u8]) -> (r: Result<BoxType, AvifError>)
    ensures
        outcome(r) == hdlr_of(payload@),
{
    let (_v, _f, body) = parse_full_box(payload)?;
    if body.len() < 8 {
        return Err(AvifError::invalid("avif: hdlr too short"));
    }
    Ok(type_from(body, 4))
}

/// The primary item in a `pitm` payload.
pub open spec fn pitm_of(s: Seq<u8>) -> Result<u32, Fault> {
    match full_box(s) {
        Err(f) => Err(f),
        Ok((version, _, b)) => if version == 0 {
            if b.len() < 2 {
                Err(Fault::Invalid("avif: pitm too short"@))
            } else {
                Ok(crate::box_parser::be16(b, 0) as u32)
            }
        } else if b.len() < 4 {
            Err(Fault::Invalid("avif: pitm v1 too short"@))
        } else {
            Ok(crate::box_parser::be32(b, 0))
        },
    }
}

/// Parse `pitm`: the primary item id, 16 bits in version 0 and 32 after.
pub fn parse_pitm(payload: &[u8]) -> (r: Result<u32, AvifError>)
    ensures
        outcome(r) == pitm_of(payload@),
{
    let (version, _flags, body) = parse_full_box(payload)?;
    if version == 0 {
        if body.len() < 2 {
            return Err(AvifError::invalid("avif: pitm too short"));
        }
        Ok(read_u16(body, 0)? as u32)
    } else {
        if body.len() < 4 {
            return Err(AvifError::invalid("avif: pitm v1 too short"));
        }
        read_u32(body, 0)
    }
}

/// An item id at `at`, of 16 or 32 bits, and the offset after it.
pub open spec fn id_at(s: Seq<u8>, at: int, wide: bool) -> Result<(u32, int), Fault> {
    if wide {
        match get32(s, at) {
            Err(f) => Err(f),
            Ok(v) => Ok((v, at + 4)),
        }
    } else {
        match get16(s, at) {
            Err(f) => Err(f),
            Ok(v) => Ok((v as u32, at + 2)),
        }
    }
}

/// The outcome of a parser that also returns where it stopped.
pub open spec fn outcome_at<T>(r: Result<(T, usize), AvifError>) -> Result<(T, int), Fault> {
    match r {
        Ok((v, at)) => Ok((v, at as int)),
        Err(e) => Err(e@),
    }
}

/// The outcome of a parser that also returns where it stopped, with the
/// value by its view.
pub open spec fn outcome_view_at<T: View>(r: Result<(T, usize), AvifError>) -> Result<
    (T::V, int),
    Fault,
> {
    match r {
        Ok((v, at)) => Ok((v@, at as int)),
        Err(e) => Err(e@),
    }
}

fn read_id(buf: &[u8], at: usize, wide: bool) -> (r: Result<(u32, usize), AvifError>)
    ensures
        outcome_at(r) == id_at(buf@, at as int, wide),
        r matches Ok((_, next)) ==> at < next <= buf.len(),
{
    if wide {
        let v: u32 = read_u32(buf, at)?;
        Ok((v, at + 4))
    } else {
        let v: u16 = read_u16(buf, at)?;
        Ok((v as u32, at + 2))
    }
}

/// Item id, item type and the offset of the name in the body of an
/// `infe` entry.
pub open spec fn infe_head(version: u8, b: Seq<u8>) -> Result<(u32, BoxType, int), Fault> {
    if version == 2 {
        if b.len() < 8 {
            Err(Fault::Invalid("avif: infe v2 too short"@))
        } else {
            Ok((crate::box_parser::be16(b, 0) as u32, type_at(b, 4), 8))
        }
    } else if version == 3 {
        if b.len() < 10 {
            Err(Fault::Invalid("avif: infe v3 too short"@))
        } else {
            Ok((crate::box_parser::be32(b, 0), type_at(b, 6), 10))
        }
    } else {
        Err(Fault::Invalid("avif: unsupported infe version "@ + dec(version as nat)))
    }
}

/// The content encoding of a `mime` entry: absent when the body ends
/// before it or when it is empty.
pub open spec fn encoding_at(b: Seq<u8>, at: int) -> Result<Option<Seq<char>>, Fault> {
    if at >= b.len() {
        Ok(None)
    } else {
        match cstr_at(b, at) {
            Err(f) => Err(f),
            Ok((text, _)) => Ok(
                if text.len() == 0 {
                    None
                } else {
                    Some(text)
                },
            ),
        }
    }
}

/// The item that an `infe` payload describes.
pub open spec fn infe_of(s: Seq<u8>) -> Result<ItemInfoView, Fault> {
    match full_box(s) {
        Err(f) => Err(f),
        Ok((version, flags, b)) => match infe_head(version, b) {
            Err(f) => Err(f),
            Ok((id, item_type, at)) => match cstr_at(b, at) {
                Err(f) => Err(f),
                Ok((name, next)) => {
                    let plain = ItemInfoView {
                        id,
                        item_type,
                        name,
                        content_type: None,
                        content_encoding: None,
                        item_uri_type: None,
                        flags,
                    };
                    if item_type == ITEM_TYPE_MIME {
                        match cstr_at(b, next) {
                            Err(f) => Err(f),
                            Ok((content_type, after_type)) => match encoding_at(b, after_type) {
                                Err(f) => Err(f),
                                Ok(content_encoding) => Ok(
                                    ItemInfoView {
                                        content_type: Some(content_type),
                                        content_encoding,
                                        ..plain
                                    },
                                ),
                            },
                        }
                    } else if item_type == ITEM_TYPE_URI {
                        match cstr_at(b, next) {
                            Err(f) => Err(f),
                            Ok((uri, _)) => Ok(ItemInfoView { item_uri_type: Some(uri), ..plain }),
                        }
                    } else {
                        Ok(plain)
                    }
                },
            },
        },
    }
}

fn parse_infe_head(version: u8, body: &[u8]) -> (r: Result<(u32, BoxType, usize), AvifError>)
    ensures
        match r {
            Ok((id, t, at)) => {
                &&& infe_head(version, body@) == Ok::<(u32, BoxType, int), Fault>((id, t, at as int))
                &&& at <= body.len()
            },
            Err(e) => infe_head(version, body@) == Err::<(u32, BoxType, int), Fault>(e@),
        },
{
    if version == 2 {
        if body.len() < 8 {
            return Err(AvifError::invalid("avif: infe v2 too short"));
        }
        let id: u16 = read_u16(body, 0)?;
        Ok((id as u32, type_from(body, 4), 8))
    } else if version == 3 {
        if body.len() < 10 {
            return Err(AvifError::invalid("avif: infe v3 too short"));
        }
        let id: u32 = read_u32(body, 0)?;
        Ok((id, type_from(body, 6), 10))
    } else {
        Err(invalid_end("avif: unsupported infe version ", version as u64))
    }
}

fn read_encoding(body: &[u8], at: usize) -> (r: Result<Option<String>, AvifError>)
    requires
        at <= body.len(),
    ensures
        match r {
            Ok(t) => encoding_at(body@, at as int) == Ok::<Option<Seq<char>>, Fault>(opt_text(t)),
            Err(e) => encoding_at(body@, at as int) == Err::<Option<Seq<char>>, Fault>(e@),
        },
{
    if at >= body.len() {
        return Ok(None);
    }
    let (text, _next) = read_cstr(body, at)?;
    if text.as_str().unicode_len() == 0 {
        Ok(None)
    } else {
        Ok(Some(text))
    }
}

/// Parse `infe`, versions 2 and 3.
pub fn parse_infe(payload: &[u8]) -> (r: Result<ItemInfo, AvifError>)
    ensures
        outcome_view(r) == infe_of(payload@),
{
    let (version, flags, body) = parse_full_box(payload)?;
    let (id, item_type, at) = parse_infe_head(version, body)?;
    let (name, next) = read_cstr(body, at)?;
    if same_type(&item_type, &ITEM_TYPE_MIME) {
        let (content_type, after_type) = read_cstr(body, next)?;
        let content_encoding = read_encoding(body, after_type)?;
        Ok(
            ItemInfo {
                id,
                item_type,
                name,
                content_type: Some(content_type),
                content_encoding,
                item_uri_type: None,
                flags,
            },
        )
    } else if same_type(&item_type, &ITEM_TYPE_URI) {
        let (uri, _end) = read_cstr(body, next)?;
        Ok(
            ItemInfo {
                id,
                item_type,
                name,
                content_type: None,
                content_encoding: None,
                item_uri_type: Some(uri),
                flags,
            },
        )
    } else {
        Ok(
            ItemInfo {
                id,
                item_type,
                name,
                content_type: None,
                content_encoding: None,
                item_uri_type: None,
                flags,
            },
        )
    }
}

/// `n` item entries packed in `s` from `at` on.
pub open spec fn infes_from(s: Seq<u8>, at: int, n: nat) -> Result<Seq<ItemInfoView>, Fault>
    decreases n,
{
    if n == 0 {
        Ok(Seq::empty())
    } else if at >= s.len() {
        Err(Fault::Invalid("avif: iinf ran off end"@))
    } else {
        match box_at(s, at) {
            Err(f) => Err(f),
            Ok(b) => if b.box_type != INFE {
                Err(
                    Fault::Invalid(
                        "avif: iinf child '"@ + code_text(b.box_type) + "' != infe"@,
                    ),
                )
            } else {
                match infe_of(s.subrange(b.payload, b.end)) {
                    Err(f) => Err(f),
                    Ok(item) => after(seq![item], infes_from(s, b.end, (n - 1) as nat)),
                }
            },
        }
    }
}

/// The items in an `iinf` payload.
pub open spec fn iinf_of(s: Seq<u8>) -> Result<Seq<ItemInfoView>, Fault> {
    match full_box(s) {
        Err(f) => Err(f),
        Ok((version, _, b)) => match id_at(b, 0, version != 0) {
            Err(f) => Err(f),
            Ok((count, at)) => infes_from(b, at, count as nat),
        },
    }
}

/// Moving one more element from the rest to what is done changes nothing.
pub proof fn lemma_after_push<T: View>(done: Seq<T>, x: T, rest: Result<Seq<T::V>, Fault>)
    ensures
        after(views(done.push(x)), rest) == after(views(done), after(seq![x@], rest)),
{
    lemma_views_push(done, x);
    if let Ok(r) = rest {
        assert(views(done.push(x)) + r =~= views(done) + (seq![x@] + r));
    }
}

/// Nothing done leaves the rest as it is.
pub proof fn lemma_after_none<A>(done: Seq<A>, rest: Result<Seq<A>, Fault>)
    requires
        done.len() == 0,
    ensures
        after(done, rest) == rest,
{
    if let Ok(r) = rest {
        assert(done + r =~= r);
    }
}

/// With nothing left, what is done is all.
pub proof fn lemma_after_all<A>(done: Seq<A>)
    ensures
        after(done, Ok::<Seq<A>, Fault>(Seq::empty())) == Ok::<Seq<A>, Fault>(done),
{
    assert(done + Seq::<A>::empty() =~= done);
}

/// Parse `iinf`: a count, then that many `infe` boxes.
pub fn parse_iinf(payload: &[u8]) -> (r: Result<Vec<ItemInfo>, AvifError>)
    ensures
        outcome_list(r) == iinf_of(payload@),
{
    let (version, _flags, body) = parse_full_box(payload)?;
    let (count, start) = read_id(body, 0, version != 0)?;
    let mut out: Vec<ItemInfo> = Vec::new();
    let mut at: usize = start;
    let mut left: u32 = count;
    let ghost all = infes_from(body@, start as int, count as nat);
    proof {
        lemma_after_none(views(out@), all);
    }
    while left > 0
        invariant
            at <= body.len(),
            all == iinf_of(payload@),
            after(views(out@), infes_from(body@, at as int, left as nat)) == all,
        decreases left,
    {
        if at >= body.len() {
            return Err(AvifError::invalid("avif: iinf ran off end"));
        }
        let h = parse_box_header(body, at)?;
        proof {
            lemma_box_bounds(body@, at as int);
        }
        if !same_type(&h.box_type, &INFE) {
            return Err(
                AvifError::InvalidData(text_code("avif: iinf child '", &h.box_type, "' != infe")),
            );
        }
        let item = parse_infe(payload_of(body, &h))?;
        proof {
            lemma_after_push(out@, item, infes_from(body@, h@.end, (left - 1) as nat));
        }
        out.push(item);
        at = h.end();
        left = left - 1;
    }
    proof {
        lemma_after_all(views(out@));
    }
    Ok(out)
}

/// The widths, in bytes, of the fields of an `iloc` box, and its version.
pub struct IlocWidths {
    /// Box version.
    pub version: u8,
    /// Width of an extent offset.
    pub offset: nat,
    /// Width of an extent length.
    pub length: nat,
    /// Width of a base offset.
    pub base: nat,
    /// Width of an extent index; 0 in version 0.
    pub index: nat,
}

/// The widths in the first two bytes of an `iloc` body.
pub open spec fn iloc_widths(version: u8, b: Seq<u8>) -> IlocWidths {
    IlocWidths {
        version,
        offset: (b[0] / 16) as nat,
        length: (b[0] % 16) as nat,
        base: (b[1] / 16) as nat,
        index: if version == 1 || version == 2 {
            (b[1] % 16) as nat
        } else {
            0
        },
    }
}

/// The offset `k` bytes after `at`; no offset lies beyond the address
/// space.
pub open spec fn skip(at: int, k: nat) -> int {
    if at + k > usize::MAX {
        usize::MAX as int
    } else {
        at + k
    }
}

/// The extent index of `n` bytes at `at`: 1 where there is none, and 0,
/// which names nothing, where it cannot be read.
pub open spec fn index_at(s: Seq<u8>, at: int, n: nat) -> u64 {
    if n == 0 {
        1
    } else {
        match get_n(s, at, n) {
            Ok(v) => v,
            Err(_) => 0,
        }
    }
}

/// `n` extents from `at` on, and the offset after them.
pub open spec fn extents_from(s: Seq<u8>, z: IlocWidths, at: int, n: nat) -> Result<
    (Seq<IlocExtent>, int),
    Fault,
>
    decreases n,
{
    if n == 0 {
        Ok((Seq::empty(), at))
    } else {
        let start = skip(at, z.index);
        match get_n(s, start, z.offset) {
            Err(f) => Err(f),
            Ok(offset) => match get_n(s, start + z.offset, z.length) {
                Err(f) => Err(f),
                Ok(length) => match extents_from(
                    s,
                    z,
                    start + z.offset + z.length,
                    (n - 1) as nat,
                ) {
                    Err(f) => Err(f),
                    Ok((rest, end)) => Ok(
                        (
                            seq![IlocExtent { offset, length, index: index_at(s, at, z.index) }]
                                + rest,
                            end,
                        ),
                    ),
                },
            },
        }
    }
}

/// The construction method at `at`, and the offset after it: the four
/// low bits of a 16-bit field, which version 0 does not have.
pub open spec fn method_at(s: Seq<u8>, version: u8, at: int) -> Result<(u8, int), Fault> {
    if version == 1 || version == 2 {
        match get16(s, at) {
            Err(f) => Err(f),
            Ok(w) => Ok(((w % 16) as u8, at + 2)),
        }
    } else {
        Ok((0, at))
    }
}

/// One item location at `at`, and the offset after it.
pub open spec fn location_at(s: Seq<u8>, z: IlocWidths, at: int) -> Result<
    (ItemLocationView, int),
    Fault,
> {
    match id_at(s, at, z.version == 2) {
        Err(f) => Err(f),
        Ok((id, at1)) => match method_at(s, z.version, at1) {
            Err(f) => Err(f),
            Ok((construction_method, at2)) => match get16(s, at2) {
                Err(f) => Err(f),
                Ok(data_reference_index) => match get_n(s, at2 + 2, z.base) {
                    Err(f) => Err(f),
                    Ok(base_offset) => match get16(s, at2 + 2 + z.base) {
                        Err(f) => Err(f),
                        Ok(count) => match extents_from(
                            s,
                            z,
                            at2 + 4 + z.base,
                            count as nat,
                        ) {
                            Err(f) => Err(f),
                            Ok((extents, end)) => Ok(
                                (
                                    ItemLocationView {
                                        id,
                                        construction_method,
                                        data_reference_index,
                                        base_offset,
                                        extents,
                                    },
                                    end,
                                ),
                            ),
                        },
                    },
                },
            },
        },
    }
}

/// `n` item locations from `at` on.
pub open spec fn locations_from(s: Seq<u8>, z: IlocWidths, at: int, n: nat) -> Result<
    Seq<ItemLocationView>,
    Fault,
>
    decreases n,
{
    if n == 0 {
        Ok(Seq::empty())
    } else {
        match location_at(s, z, at) {
            Err(f) => Err(f),
            Ok((item, next)) => after(seq![item], locations_from(s, z, next, (n - 1) as nat)),
        }
    }
}

/// The item locations in an `iloc` payload.
pub open spec fn iloc_of(s: Seq<u8>) -> Result<Seq<ItemLocationView>, Fault> {
    match full_box(s) {
        Err(f) => Err(f),
        Ok((version, _, b)) => if b.len() < 2 {
            Err(Fault::Invalid("avif: iloc too short"@))
        } else if version > 2 {
            Err(Fault::Invalid("avif: iloc version "@ + dec(version as nat)))
        } else {
            match id_at(b, 2, version == 2) {
                Err(f) => Err(f),
                Ok((count, at)) => locations_from(b, iloc_widths(version, b), at, count as nat),
            }
        },
    }
}

/// The widths of an `iloc` box, held by the parser.
struct Widths {
    version: u8,
    offset: usize,
    length: usize,
    base: usize,
    index: usize,
}

impl View for Widths {
    type V = IlocWidths;

    closed spec fn view(&self) -> IlocWidths {
        IlocWidths {
            version: self.version,
            offset: self.offset as nat,
            length: self.length as nat,
            base: self.base as nat,
            index: self.index as nat,
        }
    }
}

fn skip_to(at: usize, k: usize) -> (r: usize)
    ensures
        r == skip(at as int, k as nat),
{
    if k > usize::MAX - at {
        usize::MAX
    } else {
        at + k
    }
}

fn read_index(buf: &[u8], at: usize, n: usize) -> (r: u64)
    ensures
        r == index_at(buf@, at as int, n as nat),
{
    if n == 0 {
        1
    } else {
        match read_var_uint(buf, at, n) {
            Ok(v) => v,
            Err(_) => 0,
        }
    }
}

fn read_extents(buf: &[u8], z: &Widths, start: usize, n: u16) -> (r: Result<
    (Vec<IlocExtent>, usize),
    AvifError,
>)
    ensures
        outcome_view_at(r) == extents_from(buf@, z@, start as int, n as nat),
{
    let mut out: Vec<IlocExtent> = Vec::new();
    let mut at: usize = start;
    let mut left: u16 = n;
    let ghost all = extents_from(buf@, z@, start as int, n as nat);
    proof {
        if let Ok((rest, end)) = all {
            assert(out@ + rest =~= rest);
        }
    }
    while left > 0
        invariant
            all == extents_from(buf@, z@, start as int, n as nat),
            match extents_from(buf@, z@, at as int, left as nat) {
                Err(f) => all == Err::<(Seq<IlocExtent>, int), Fault>(f),
                Ok((rest, end)) => all == Ok::<(Seq<IlocExtent>, int), Fault>((out@ + rest, end)),
            },
        decreases left,
    {
        let index: u64 = read_index(buf, at, z.index);
        let from: usize = skip_to(at, z.index);
        let offset: u64 = read_var_uint(buf, from, z.offset)?;
        let mid: usize = from + z.offset;
        let length: u64 = read_var_uint(buf, mid, z.length)?;
        let ghost before = out@;
        let e = IlocExtent { offset, length, index };
        out.push(e);
        proof {
            if let Ok((rest, end)) = extents_from(
                buf@,
                z@,
                mid + z.length,
                (left - 1) as nat,
            ) {
                assert(out@ + rest =~= before + (seq![e] + rest));
            }
        }
        at = mid + z.length;
        left = left - 1;
    }
    proof {
        assert(out@ + Seq::<IlocExtent>::empty() =~= out@);
    }
    Ok((out, at))
}

fn read_method(buf: &[u8], version: u8, at: usize) -> (r: Result<(u8, usize), AvifError>)
    requires
        at <= buf.len(),
    ensures
        outcome_at(r) == method_at(buf@, version, at as int),
        r matches Ok((_, next)) ==> at <= next <= buf.len(),
{
    if version == 1 || version == 2 {
        let w: u16 = read_u16(buf, at)?;
        Ok(((w % 16) as u8, at + 2))
    } else {
        Ok((0, at))
    }
}

fn read_location(buf: &[u8], z: &Widths, at: usize) -> (r: Result<
    (ItemLocation, usize),
    AvifError,
>)
    ensures
        outcome_view_at(r) == location_at(buf@, z@, at as int),
{
    let (id, at1) = read_id(buf, at, z.version == 2)?;
    let (construction_method, at2) = read_method(buf, z.version, at1)?;
    let data_reference_index: u16 = read_u16(buf, at2)?;
    let base_offset: u64 = read_var_uint(buf, at2 + 2, z.base)?;
    let at3: usize = at2 + 2 + z.base;
    let count: u16 = read_u16(buf, at3)?;
    let (extents, end) = read_extents(buf, z, at3 + 2, count)?;
    Ok(
        (
            ItemLocation {
                id,
                construction_method,
                data_reference_index,
                base_offset,
                extents,
            },
            end,
        ),
    )
}

/// Parse `iloc`, versions 0 to 2.
pub fn parse_iloc(payload: &[u8]) -> (r: Result<Vec<ItemLocation>, AvifError>)
    ensures
        outcome_list(r) == iloc_of(payload@),
{
    let (version, _flags, body) = parse_full_box(payload)?;
    if body.len() < 2 {
        return Err(AvifError::invalid("avif: iloc too short"));
    }
    if version > 2 {
        return Err(invalid_end("avif: iloc version ", version as u64));
    }
    let z = Widths {
        version,
        offset: (body[0] / 16) as usize,
        length: (body[0] % 16) as usize,
        base: (body[1] / 16) as usize,
        index: if version == 1 || version == 2 {
            (body[1] % 16) as usize
        } else {
            0
        },
    };
    let (count, start) = read_id(body, 2, version == 2)?;
    let mut out: Vec<ItemLocation> = Vec::new();
    let mut at: usize = start;
    let mut left: u32 = count;
    let ghost all = locations_from(body@, z@, start as int, count as nat);
    proof {
        assert(z@ == iloc_widths(version, body@));
        lemma_after_none(views(out@), all);
    }
    while left > 0
        invariant
            all == iloc_of(payload@),
            after(views(out@), locations_from(body@, z@, at as int, left as nat)) == all,
        decreases left,
    {
        let (item, next) = read_location(body, &z, at)?;
        proof {
            lemma_after_push(out@, item, locations_from(body@, z@, next as int, (left - 1) as nat));
        }
        out.push(item);
        at = next;
        left = left - 1;
    }
    proof {
        lemma_after_all(views(out@));
    }
    Ok(out)
}

/// `n` item ids from `at` on.
pub open spec fn ids_from(s: Seq<u8>, at: int, wide: bool, n: nat) -> Result<Seq<u32>, Fault>
    decreases n,
{
    if n == 0 {
        Ok(Seq::empty())
    } else {
        match id_at(s, at, wide) {
            Err(f) => Err(f),
            Ok((id, next)) => after(seq![id], ids_from(s, next, wide, (n - 1) as nat)),
        }
    }
}

/// The reference in the body of a typed reference box.
pub open spec fn reference_of(t: BoxType, s: Seq<u8>, wide: bool) -> Result<IrefView, Fault> {
    match id_at(s, 0, wide) {
        Err(f) => Err(f),
        Ok((from_id, at)) => match get16(s, at) {
            Err(f) => Err(f),
            Ok(count) => match ids_from(s, at + 2, wide, count as nat) {
                Err(f) => Err(f),
                Ok(to_ids) => Ok(IrefView { reference_type: t, from_id, to_ids }),
            },
        },
    }
}

/// The references packed in `s` from `at` on.
pub open spec fn references_from(s: Seq<u8>, at: int, wide: bool) -> Result<Seq<IrefView>, Fault>
    decreases s.len() - at,
{
    if at < 0 || at >= s.len() {
        Ok(Seq::empty())
    } else {
        match box_at(s, at) {
            Err(f) => Err(f),
            Ok(b) => match reference_of(b.box_type, s.subrange(b.payload, b.end), wide) {
                Err(f) => Err(f),
                Ok(e) => if b.end <= at {
                    Ok(seq![e])
                } else {
                    after(seq![e], references_from(s, b.end, wide))
                },
            },
        }
    }
}

/// The references in an `iref` payload.
pub open spec fn iref_of(s: Seq<u8>) -> Result<Seq<IrefView>, Fault> {
    match full_box(s) {
        Err(f) => Err(f),
        Ok((version, _, b)) => if version > 1 {
            Err(Fault::Invalid("avif: iref version "@ + dec(version as nat)))
        } else {
            references_from(b, 0, version == 1)
        },
    }
}

fn read_ids(buf: &[u8], start: usize, wide: bool, n: u16) -> (r: Result<Vec<u32>, AvifError>)
    ensures
        match r {
            Ok(v) => ids_from(buf@, start as int, wide, n as nat) == Ok::<Seq<u32>, Fault>(v@),
            Err(e) => ids_from(buf@, start as int, wide, n as nat) == Err::<Seq<u32>, Fault>(e@),
        },
{
    let mut out: Vec<u32> = Vec::new();
    let mut at: usize = start;
    let mut left: u16 = n;
    let ghost all = ids_from(buf@, start as int, wide, n as nat);
    proof {
        lemma_after_none(out@, all);
    }
    while left > 0
        invariant
            all == ids_from(buf@, start as int, wide, n as nat),
            after(out@, ids_from(buf@, at as int, wide, left as nat)) == all,
        decreases left,
    {
        let (id, next) = read_id(buf, at, wide)?;
        let ghost before = out@;
        out.push(id);
        proof {
            if let Ok(rest) = ids_from(buf@, next as int, wide, (left - 1) as nat) {
                assert(out@ + rest =~= before + (seq![id] + rest));
            }
        }
        at = next;
        left = left - 1;
    }
    proof {
        lemma_after_all(out@);
    }
    Ok(out)
}

fn parse_reference(t: BoxType, body: &[u8], wide: bool) -> (r: Result<IrefEntry, AvifError>)
    ensures
        outcome_view(r) == reference_of(t, body@, wide),
{
    let (from_id, at) = read_id(body, 0, wide)?;
    let count: u16 = read_u16(body, at)?;
    let to_ids = read_ids(body, at + 2, wide, count)?;
    Ok(IrefEntry { reference_type: t, from_id, to_ids })
}

/// Parse `iref`: typed references, with 16-bit item ids in version 0 and
/// 32-bit ones in version 1.
pub fn parse_iref(payload: &[u8]) -> (r: Result<Vec<IrefEntry>, AvifError>)
    ensures
        outcome_list(r) == iref_of(payload@),
{
    let (version, _flags, body) = parse_full_box(payload)?;
    if version > 1 {
        return Err(invalid_end("avif: iref version ", version as u64));
    }
    let wide: bool = version == 1;
    let mut out: Vec<IrefEntry> = Vec::new();
    let mut at: usize = 0;
    let ghost all = references_from(body@, 0, wide);
    proof {
        lemma_after_none(views(out@), all);
    }
    while at < body.len()
        invariant
            at <= body.len(),
            all == iref_of(payload@),
            after(views(out@), references_from(body@, at as int, wide)) == all,
        decreases body.len() - at,
    {
        let h = parse_box_header(body, at)?;
        proof {
            lemma_box_bounds(body@, at as int);
        }
        let e = parse_reference(h.box_type, payload_of(body, &h), wide)?;
        proof {
            lemma_after_push(out@, e, references_from(body@, h@.end, wide));
        }
        out.push(e);
        at = h.end();
    }
    proof {
        lemma_after_all(views(out@));
    }
    Ok(out)
}

/// One property association at `at`, and the offset after it. The index
/// counts from 1 and is 7 or 15 bits wide; the bit above it says
/// essential. Index 0 is refused.
pub open spec fn association_at(s: Seq<u8>, at: int, wide: bool) -> Result<
    (PropertyAssociation, int),
    Fault,
> {
    if wide {
        match get16(s, at) {
            Err(f) => Err(f),
            Ok(w) => if w % 0x8000 == 0 {
                Err(Fault::Invalid("avif: ipma index 0"@))
            } else {
                Ok(
                    (
                        PropertyAssociation {
                            index: (w % 0x8000 - 1) as u16,
                            essential: w >= 0x8000,
                        },
                        at + 2,
                    ),
                )
            },
        }
    } else if at >= s.len() {
        Err(Fault::Invalid("avif: ipma truncated at entry"@))
    } else if s[at] % 0x80 == 0 {
        Err(Fault::Invalid("avif: ipma index 0"@))
    } else {
        Ok(
            (
                PropertyAssociation {
                    index: (s[at] % 0x80 - 1) as u16,
                    essential: s[at] >= 0x80,
                },
                at + 1,
            ),
        )
    }
}

/// `n` property associations from `at` on, and the offset after them.
pub open spec fn associations_from(s: Seq<u8>, at: int, wide: bool, n: nat) -> Result<
    (Seq<PropertyAssociation>, int),
    Fault,
>
    decreases n,
{
    if n == 0 {
        Ok((Seq::empty(), at))
    } else {
        match association_at(s, at, wide) {
            Err(f) => Err(f),
            Ok((a, next)) => match associations_from(s, next, wide, (n - 1) as nat) {
                Err(f) => Err(f),
                Ok((rest, end)) => Ok((seq![a] + rest, end)),
            },
        }
    }
}

/// The property list of one item at `at`, and the offset after it.
pub open spec fn ipma_entry_at(s: Seq<u8>, at: int, wide_id: bool, wide: bool) -> Result<
    (AssociationView, int),
    Fault,
> {
    match id_at(s, at, wide_id) {
        Err(f) => Err(f),
        Ok((item_id, at1)) => if at1 >= s.len() {
            Err(Fault::Invalid("avif: ipma truncated at assoc count"@))
        } else {
            match associations_from(s, at1 + 1, wide, s[at1] as nat) {
                Err(f) => Err(f),
                Ok((entries, end)) => Ok((AssociationView { item_id, entries }, end)),
            }
        },
    }
}

/// `n` property lists from `at` on.
pub open spec fn ipma_entries_from(
    s: Seq<u8>,
    at: int,
    wide_id: bool,
    wide: bool,
    n: nat,
) -> Result<Seq<AssociationView>, Fault>
    decreases n,
{
    if n == 0 {
        Ok(Seq::empty())
    } else {
        match ipma_entry_at(s, at, wide_id, wide) {
            Err(f) => Err(f),
            Ok((e, next)) => after(
                seq![e],
                ipma_entries_from(s, next, wide_id, wide, (n - 1) as nat),
            ),
        }
    }
}

/// The property lists in an `ipma` payload.
pub open spec fn ipma_of(s: Seq<u8>) -> Result<Seq<AssociationView>, Fault> {
    match full_box(s) {
        Err(f) => Err(f),
        Ok((version, flags, b)) => if b.len() < 4 {
            Err(Fault::Invalid("avif: ipma too short"@))
        } else {
            ipma_entries_from(
                b,
                4,
                version >= 1,
                flags % 2 == 1,
                crate::box_parser::be32(b, 0) as nat,
            )
        },
    }
}

fn read_association(buf: &[u8], at: usize, wide: bool) -> (r: Result<
    (PropertyAssociation, usize),
    AvifError,
>)
    ensures
        outcome_at(r) == association_at(buf@, at as int, wide),
        r matches Ok((_, next)) ==> next <= buf.len(),
{
    if wide {
        let w: u16 = read_u16(buf, at)?;
        if w % 0x8000 == 0 {
            return Err(AvifError::invalid("avif: ipma index 0"));
        }
        Ok((PropertyAssociation { index: w % 0x8000 - 1, essential: w >= 0x8000 }, at + 2))
    } else {
        if at >= buf.len() {
            return Err(AvifError::invalid("avif: ipma truncated at entry"));
        }
        let w: u8 = buf[at];
        if w % 0x80 == 0 {
            return Err(AvifError::invalid("avif: ipma index 0"));
        }
        Ok((PropertyAssociation { index: (w % 0x80 - 1) as u16, essential: w >= 0x80 }, at + 1))
    }
}

fn read_associations(buf: &[u8], start: usize, wide: bool, n: u8) -> (r: Result<
    (Vec<PropertyAssociation>, usize),
    AvifError,
>)
    requires
        start <= buf.len(),
    ensures
        outcome_view_at(r) == associations_from(buf@, start as int, wide, n as nat),
        r matches Ok((_, next)) ==> next <= buf.len(),
{
    let mut out: Vec<PropertyAssociation> = Vec::new();
    let mut at: usize = start;
    let mut left: u8 = n;
    let ghost all = associations_from(buf@, start as int, wide, n as nat);
    proof {
        if let Ok((rest, end)) = all {
            assert(out@ + rest =~= rest);
        }
    }
    while left > 0
        invariant
            at <= buf.len(),
            all == associations_from(buf@, start as int, wide, n as nat),
            match associations_from(buf@, at as int, wide, left as nat) {
                Err(f) => all == Err::<(Seq<PropertyAssociation>, int), Fault>(f),
                Ok((rest, end)) => all == Ok::<(Seq<PropertyAssociation>, int), Fault>(
                    (out@ + rest, end),
                ),
            },
        decreases left,
    {
        let (a, next) = read_association(buf, at, wide)?;
        let ghost before = out@;
        out.push(a);
        proof {
            if let Ok((rest, end)) = associations_from(
                buf@,
                next as int,
                wide,
                (left - 1) as nat,
            ) {
                assert(out@ + rest =~= before + (seq![a] + rest));
            }
        }
        at = next;
        left = left - 1;
    }
    proof {
        assert(out@ + Seq::<PropertyAssociation>::empty() =~= out@);
    }
    Ok((out, at))
}

fn read_ipma_entry(buf: &[u8], at: usize, wide_id: bool, wide: bool) -> (r: Result<
    (ItemPropertyAssociation, usize),
    AvifError,
>)
    ensures
        outcome_view_at(r) == ipma_entry_at(buf@, at as int, wide_id, wide),
{
    let (item_id, at1) = read_id(buf, at, wide_id)?;
    if at1 >= buf.len() {
        return Err(AvifError::invalid("avif: ipma truncated at assoc count"));
    }
    let (entries, end) = read_associations(buf, at1 + 1, wide, buf[at1])?;
    Ok((ItemPropertyAssociation { item_id, entries }, end))
}

/// Parse `ipma`: for each item the list of its properties.
pub fn parse_ipma(payload: &[u8]) -> (r: Result<Vec<ItemPropertyAssociation>, AvifError>)
    ensures
        outcome_list(r) == ipma_of(payload@),
{
    let (version, flags, body) = parse_full_box(payload)?;
    if body.len() < 4 {
        return Err(AvifError::invalid("avif: ipma too short"));
    }
    let count: u32 = read_u32(body, 0)?;
    let wide_id: bool = version >= 1;
    let wide: bool = flags % 2 == 1;
    let mut out: Vec<ItemPropertyAssociation> = Vec::new();
    let mut at: usize = 4;
    let mut left: u32 = count;
    let ghost all = ipma_entries_from(body@, 4, wide_id, wide, count as nat);
    proof {
        lemma_after_none(views(out@), all);
    }
    while left > 0
        invariant
            all == ipma_of(payload@),
            after(
                views(out@),
                ipma_entries_from(body@, at as int, wide_id, wide, left as nat),
            ) == all,
        decreases left,
    {
        let (e, next) = read_ipma_entry(body, at, wide_id, wide)?;
        proof {
            lemma_after_push(
                out@,
                e,
                ipma_entries_from(body@, next as int, wide_id, wide, (left - 1) as nat),
            );
        }
        out.push(e);
        at = next;
        left = left - 1;
    }
    proof {
        lemma_after_all(views(out@));
    }
    Ok(out)
}

/// The property lists of all `ipma` boxes packed in `s` from `at` on.
pub open spec fn ipmas_from(s: Seq<u8>, at: int) -> Result<Seq<AssociationView>, Fault>
    decreases s.len() - at,
{
    if at < 0 || at >= s.len() {
        Ok(Seq::empty())
    } else {
        match box_at(s, at) {
            Err(f) => Err(f),
            Ok(b) => if b.end <= at {
                Ok(Seq::empty())
            } else if b.box_type == IPMA {
                match ipma_of(s.subrange(b.payload, b.end)) {
                    Err(f) => Err(f),
                    Ok(list) => after(list, ipmas_from(s, b.end)),
                }
            } else {
                ipmas_from(s, b.end)
            },
        }
    }
}

/// The properties and the property lists in an `iprp` payload. The first
/// `ipco` holds the properties; without one the payload is invalid.
pub open spec fn iprp_of(s: Seq<u8>) -> Result<(Seq<PropertyView>, Seq<AssociationView>), Fault> {
    match first_box(s, 0, IPCO) {
        Err(f) => Err(f),
        Ok(None) => Err(Fault::Invalid("avif: iprp missing ipco"@)),
        Ok(Some(b)) => match properties_from(s.subrange(b.payload, b.end), 0) {
            Err(f) => Err(f),
            Ok(properties) => match ipmas_from(s, 0) {
                Err(f) => Err(f),
                Ok(associations) => Ok((properties, associations)),
            },
        },
    }
}

proof fn lemma_after_append<T: View>(done: Seq<T>, more: Seq<T>, rest: Result<Seq<T::V>, Fault>)
    ensures
        after(views(done + more), rest) == after(views(done), after(views(more), rest)),
{
    if let Ok(r) = rest {
        assert(views(done + more) + r =~= views(done) + (views(more) + r));
    }
}

fn parse_ipmas(payload: &[u8]) -> (r: Result<Vec<ItemPropertyAssociation>, AvifError>)
    ensures
        outcome_list(r) == ipmas_from(payload@, 0),
{
    let mut out: Vec<ItemPropertyAssociation> = Vec::new();
    let mut at: usize = 0;
    proof {
        lemma_after_none(views(out@), ipmas_from(payload@, 0));
    }
    while at < payload.len()
        invariant
            at <= payload.len(),
            after(views(out@), ipmas_from(payload@, at as int)) == ipmas_from(payload@, 0),
        decreases payload.len() - at,
    {
        let h = parse_box_header(payload, at)?;
        proof {
            lemma_box_bounds(payload@, at as int);
        }
        if same_type(&h.box_type, &IPMA) {
            let mut list = parse_ipma(payload_of(payload, &h))?;
            proof {
                lemma_after_append(out@, list@, ipmas_from(payload@, h@.end));
            }
            out.append(&mut list);
        }
        at = h.end();
    }
    proof {
        lemma_after_all(views(out@));
    }
    Ok(out)
}

/// Parse `iprp`: the property container, then every property list.
pub fn parse_iprp(payload: &[u8]) -> (r: Result<
    (Vec<Property>, Vec<ItemPropertyAssociation>),
    AvifError,
>)
    ensures
        match r {
            Ok((p, a)) => iprp_of(payload@) == Ok::<
                (Seq<PropertyView>, Seq<AssociationView>),
                Fault,
            >((views(p@), views(a@))),
            Err(e) => iprp_of(payload@) == Err::<
                (Seq<PropertyView>, Seq<AssociationView>),
                Fault,
            >(e@),
        },
{
    match find_box(payload, &IPCO)? {
        None => Err(AvifError::invalid("avif: iprp missing ipco")),
        Some(h) => {
            let properties = parse_ipco(payload_of(payload, &h))?;
            let associations = parse_ipmas(payload)?;
            Ok((properties, associations))
        },
    }
}

} // verus!
