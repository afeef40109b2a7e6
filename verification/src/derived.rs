//! What a file says of its derived images, and how far it keeps the
//! rules that HEIF and AVIF set for them.

use crate::box_parser::BoxType;
use crate::meta::{Meta, MetaView};
use crate::meta_parse::PropertyAssociation;
use crate::props::{str_views, Property, PropertyView};
use vstd::prelude::*;

verus! {

/// Which of the boxes that the `mif1` brand calls for a file has.
#[derive(Clone, Copy, Debug, PartialEq, Eq, Structural)]
pub struct Mif1Compliance {
    /// The file lists `mif1` among its brands.
    pub claims_mif1: bool,
    /// `meta` holds `hdlr`.
    pub has_hdlr: bool,
    /// `meta` holds `pitm`.
    pub has_pitm: bool,
    /// `meta` holds `iinf`.
    pub has_iinf: bool,
    /// Number of `infe` entries in `iinf`.
    pub infe_count: usize,
    /// `meta` holds `iloc`.
    pub has_iloc: bool,
    /// `meta` holds `iprp`.
    pub has_iprp: bool,
}

/// A file with none of the boxes and no claim.
pub open spec fn no_mif1() -> Mif1Compliance {
    Mif1Compliance {
        claims_mif1: false,
        has_hdlr: false,
        has_pitm: false,
        has_iinf: false,
        infe_count: 0,
        has_iloc: false,
        has_iprp: false,
    }
}

impl Default for Mif1Compliance {
    fn default() -> (r: Mif1Compliance)
        ensures
            r == no_mif1(),
    {
        Mif1Compliance {
            claims_mif1: false,
            has_hdlr: false,
            has_pitm: false,
            has_iinf: false,
            infe_count: 0,
            has_iloc: false,
            has_iprp: false,
        }
    }
}

/// One name when `absent`, nothing otherwise.
pub open spec fn named(absent: bool, name: Seq<char>) -> Seq<Seq<char>> {
    if absent {
        seq![name]
    } else {
        Seq::empty()
    }
}

/// Append `name` when `absent`.
fn push_name(out: &mut Vec<&'static str>, absent: bool, name: &'static str)
    ensures
        str_views(final(out)@) == str_views(old(out)@) + named(absent, name@),
{
    let ghost before = out@;
    if absent {
        out.push(name);
    }
    proof {
        assert(str_views(out@) =~= str_views(before) + named(absent, name@));
    }
}

impl Mif1Compliance {
    /// Whether every box that `mif1` calls for is there, with at least
    /// one item.
    pub open spec fn complete(self) -> bool {
        self.has_hdlr && self.has_pitm && self.has_iinf && self.infe_count > 0 && self.has_iloc
            && self.has_iprp
    }

    /// The names of the boxes that are not there, in the order in which
    /// `mif1` lists them. `infe` stands for an `iinf` without items.
    pub open spec fn absent(self) -> Seq<Seq<char>> {
        named(!self.has_hdlr, "hdlr"@) + named(!self.has_pitm, "pitm"@) + named(
            !self.has_iinf,
            "iinf"@,
        ) + named(self.has_iinf && self.infe_count == 0, "infe"@) + named(!self.has_iloc, "iloc"@)
            + named(!self.has_iprp, "iprp"@)
    }

    /// Whether the file has every box that `mif1` calls for.
    pub fn is_compliant(&self) -> (r: bool)
        ensures
            r == self.complete(),
    {
        self.has_hdlr && self.has_pitm && self.has_iinf && self.infe_count > 0 && self.has_iloc
            && self.has_iprp
    }

    /// The boxes that `mif1` calls for and the file does not have.
    pub fn missing(&self) -> (r: Vec<&'static str>)
        ensures
            str_views(r@) == self.absent(),
    {
        let mut out: Vec<&'static str> = Vec::new();
        proof {
            assert(str_views(out@) =~= Seq::<Seq<char>>::empty());
            assert(Seq::<Seq<char>>::empty() + named(!self.has_hdlr, "hdlr"@) =~= named(
                !self.has_hdlr,
                "hdlr"@,
            ));
        }
        push_name(&mut out, !self.has_hdlr, "hdlr");
        push_name(&mut out, !self.has_pitm, "pitm");
        push_name(&mut out, !self.has_iinf, "iinf");
        push_name(&mut out, self.has_iinf && self.infe_count == 0, "infe");
        push_name(&mut out, !self.has_iloc, "iloc");
        push_name(&mut out, !self.has_iprp, "iprp");
        out
    }
}

/// A file has every box that `mif1` calls for exactly when no box is
/// listed as missing.
pub proof fn law_compliant_iff_nothing_missing(m: Mif1Compliance)
    ensures
        m.complete() <==> m.absent().len() == 0,
{
}

// ---------------------------------------------------------------------
// Transformations

/// What a transformation does to the size of an image.
#[derive(Clone, Copy, Debug, PartialEq, Eq, Structural)]
pub enum DimTransform {
    /// Clean aperture: the width and the height, each a fraction.
    Crop {
        /// Width numerator.
        width_n: i32,
        /// Width denominator.
        width_d: i32,
        /// Height numerator.
        height_n: i32,
        /// Height denominator.
        height_d: i32,
    },
    /// Rotation, in quarter turns.
    Rotate {
        /// Quarter turns.
        angle: u8,
    },
    /// Mirror.
    Mirror {
        /// Mirror axis.
        axis: u8,
    },
}

/// A cropped extent: the whole pixels of the aperture. An aperture that
/// is empty, negative or larger than the image crops nothing.
pub open spec fn cropped(n: i32, d: i32, full: u32) -> u32 {
    if n <= 0 || d <= 0 || (n as int) / (d as int) == 0 || (n as int) / (d as int) > full {
        full
    } else {
        ((n as int) / (d as int)) as u32
    }
}

fn crop(n: i32, d: i32, full: u32) -> (r: u32)
    ensures
        r == cropped(n, d, full),
{
    if n <= 0 || d <= 0 {
        return full;
    }
    let q: u32 = n as u32 / d as u32;
    if q == 0 || q > full {
        full
    } else {
        q
    }
}

impl DimTransform {
    /// The size after the transformation of an image of this size.
    pub open spec fn dims(self, width: u32, height: u32) -> (u32, u32) {
        match self {
            DimTransform::Crop { width_n, width_d, height_n, height_d } => (
                cropped(width_n, width_d, width),
                cropped(height_n, height_d, height),
            ),
            DimTransform::Rotate { angle } => if angle % 2 == 1 {
                (height, width)
            } else {
                (width, height)
            },
            DimTransform::Mirror { .. } => (width, height),
        }
    }

    /// The size after the transformation of an image of this size.
    pub fn apply_dims(&self, width: u32, height: u32) -> (r: (u32, u32))
        ensures
            r == self.dims(width, height),
    {
        match *self {
            DimTransform::Crop { width_n, width_d, height_n, height_d } => (
                crop(width_n, width_d, width),
                crop(height_n, height_d, height),
            ),
            DimTransform::Rotate { angle } => if angle % 2 == 1 {
                (height, width)
            } else {
                (width, height)
            },
            DimTransform::Mirror { axis: _ } => (width, height),
        }
    }
}

/// Deepest chain of derivations that is followed.
pub const MAX_DERIVATION_DEPTH: u32 = 16;

/// Whether a property transforms the image: a clean aperture, a rotation
/// or a mirror.
pub open spec fn names_transform(p: PropertyView) -> bool {
    p is Clap || p is Irot || p is Imir
}

/// The transformations among the first `n` entries, in order. An entry
/// that points outside the container stands for nothing.
pub open spec fn transforms_with(
    entries: Seq<PropertyAssociation>,
    props: Seq<PropertyView>,
    n: nat,
) -> Seq<PropertyView>
    decreases n,
{
    if n == 0 {
        Seq::empty()
    } else {
        let before = transforms_with(entries, props, (n - 1) as nat);
        let k = entries[n - 1].index;
        if k < props.len() && names_transform(props[k as int]) {
            before.push(props[k as int])
        } else {
            before
        }
    }
}

/// The transformations of an item, in order.
pub open spec fn transforms_of(m: MetaView, id: u32) -> Seq<PropertyView> {
    match m.association(id) {
        None => Seq::empty(),
        Some(a) => transforms_with(a.entries, m.properties, a.entries.len()),
    }
}

/// Properties by their views.
pub open spec fn property_views(s: Seq<&Property>) -> Seq<PropertyView> {
    Seq::new(s.len(), |i: int| s[i]@)
}

/// The transformations of an item, in the order in which they are
/// applied.
pub fn transforms_for(meta: &Meta, item_id: u32) -> (r: Vec<&Property>)
    ensures
        property_views(r@) == transforms_of(meta@, item_id),
{
    let mut out: Vec<&Property> = Vec::new();
    let assoc = match meta.assoc_by_id(item_id) {
        None => {
            proof {
                assert(property_views(out@) =~= Seq::empty());
            }
            return out;
        },
        Some(a) => a,
    };
    let mut i: usize = 0;
    proof {
        assert(property_views(out@) =~= Seq::empty());
    }
    while i < assoc.entries.len()
        invariant
            i <= assoc.entries@.len(),
            property_views(out@) == transforms_with(
                assoc.entries@,
                meta@.properties,
                i as nat,
            ),
        decreases assoc.entries@.len() - i,
    {
        let k: usize = assoc.entries[i].index as usize;
        if k < meta.properties.len() {
            let p: &Property = &meta.properties[k];
            proof {
                assert(meta@.properties[k as int] == p@);
            }
            let moves: bool = match p {
                Property::Clap(_) => true,
                Property::Irot(_) => true,
                Property::Imir(_) => true,
                _ => false,
            };
            if moves {
                let ghost before = out@;
                out.push(p);
                proof {
                    assert(property_views(out@) =~= property_views(before).push(p@));
                }
            }
        }
        i = i + 1;
    }
    out
}

/// The types of the transformations of an item, in order.
pub open spec fn transform_kinds(m: MetaView, id: u32) -> Seq<BoxType> {
    let all = transforms_of(m, id);
    Seq::new(all.len(), |i: int| all[i].kind())
}

/// The types of the transformations of an item, in order.
pub(crate) fn transform_kinds_of(meta: &Meta, id: u32) -> (r: Vec<BoxType>)
    ensures
        r@ == transform_kinds(meta@, id),
{
    let all = transforms_for(meta, id);
    let mut out: Vec<BoxType> = Vec::new();
    let mut i: usize = 0;
    while i < all.len()
        invariant
            i <= all@.len(),
            property_views(all@) == transforms_of(meta@, id),
            out@ =~= transform_kinds(meta@, id).take(i as int),
        decreases all@.len() - i,
    {
        proof {
            assert(property_views(all@)[i as int] == all@[i as int]@);
        }
        out.push(all[i].kind());
        i = i + 1;
    }
    proof {
        assert(transform_kinds(meta@, id).take(i as int) =~= transform_kinds(meta@, id));
    }
    out
}

/// What a property does to the size of an image.
pub open spec fn dim_transform(p: PropertyView) -> DimTransform {
    match p {
        PropertyView::Clap(c) => DimTransform::Crop {
            width_n: c.clean_aperture_width_n,
            width_d: c.clean_aperture_width_d,
            height_n: c.clean_aperture_height_n,
            height_d: c.clean_aperture_height_d,
        },
        PropertyView::Irot(r) => DimTransform::Rotate { angle: r.angle },
        PropertyView::Imir(r) => DimTransform::Mirror { axis: r.axis },
        _ => DimTransform::Mirror { axis: 0 },
    }
}

/// What the transformations of an item do to its size, in order.
pub open spec fn chain_of(m: MetaView, id: u32) -> Seq<DimTransform> {
    let all = transforms_of(m, id);
    Seq::new(all.len(), |i: int| dim_transform(all[i]))
}

/// What the transformations of an item do to its size, in order.
pub fn transform_chain(meta: &Meta, item_id: u32) -> (r: Vec<DimTransform>)
    ensures
        r@ == chain_of(meta@, item_id),
{
    let all = transforms_for(meta, item_id);
    let mut out: Vec<DimTransform> = Vec::new();
    let mut i: usize = 0;
    while i < all.len()
        invariant
            i <= all@.len(),
            property_views(all@) == transforms_of(meta@, item_id),
            out@ =~= chain_of(meta@, item_id).take(i as int),
        decreases all@.len() - i,
    {
        proof {
            assert(property_views(all@)[i as int] == all@[i as int]@);
        }
        let one = match all[i] {
            Property::Clap(c) => DimTransform::Crop {
                width_n: c.clean_aperture_width_n,
                width_d: c.clean_aperture_width_d,
                height_n: c.clean_aperture_height_n,
                height_d: c.clean_aperture_height_d,
            },
            Property::Irot(r) => DimTransform::Rotate { angle: r.angle },
            Property::Imir(r) => DimTransform::Mirror { axis: r.axis },
            _ => DimTransform::Mirror { axis: 0 },
        };
        out.push(one);
        i = i + 1;
    }
    proof {
        assert(chain_of(meta@, item_id).take(i as int) =~= chain_of(meta@, item_id));
    }
    out
}

/// The size after the first `n` transformations.
pub open spec fn size_after(chain: Seq<DimTransform>, n: nat, width: u32, height: u32) -> (u32, u32)
    decreases n,
{
    if n == 0 {
        (width, height)
    } else {
        let before = size_after(chain, (n - 1) as nat, width, height);
        chain[n - 1].dims(before.0, before.1)
    }
}

/// The size of an item after its transformations.
pub open spec fn shown_size(m: MetaView, id: u32, width: u32, height: u32) -> (u32, u32) {
    size_after(chain_of(m, id), chain_of(m, id).len(), width, height)
}

/// The size of an item after its transformations.
pub fn output_dims_from_reconstructed(meta: &Meta, item_id: u32, width: u32, height: u32) -> (r: (
    u32,
    u32,
))
    ensures
        r == shown_size(meta@, item_id, width, height),
{
    let chain = transform_chain(meta, item_id);
    let mut w: u32 = width;
    let mut h: u32 = height;
    let mut i: usize = 0;
    while i < chain.len()
        invariant
            i <= chain@.len(),
            (w, h) == size_after(chain@, i as nat, width, height),
        decreases chain@.len() - i,
    {
        let next = chain[i].apply_dims(w, h);
        w = next.0;
        h = next.1;
        i = i + 1;
    }
    (w, h)
}

} // verus!
