//! The properties of an item, by what they say.

use crate::meta::{opt_bytes, Meta, MetaView};
use crate::props::{
    A1lx, A1op, Amve, Cclv, Clli, Colr, ColrView, Ispe, Mdcv, Pasp, Property, PropertyView, A1LX,
    A1OP, AMVE, AV1C, CCLV, CLLI, COLR, ISPE, MDCV, PASP, PIXI,
};
use vstd::prelude::*;
use vstd::slice::slice_to_vec;

verus! {

/// A colour description by its view.
pub open spec fn opt_colr(c: Option<Colr>) -> Option<ColrView> {
    match c {
        Some(v) => Some(v@),
        None => None,
    }
}

/// The first of two, or the second where there is no first.
pub open spec fn first_of<T>(a: Option<T>, b: Option<T>) -> Option<T> {
    match a {
        Some(_) => a,
        None => b,
    }
}

impl MetaView {
    /// The AV1 configuration record of this item.
    pub open spec fn av1c(self, id: u32) -> Option<Seq<u8>> {
        match self.property(id, AV1C) {
            Some(PropertyView::Av1C(b)) => Some(b),
            _ => None,
        }
    }

    /// The colour description of this item.
    pub open spec fn colr(self, id: u32) -> Option<ColrView> {
        match self.property(id, COLR) {
            Some(PropertyView::Colr(c)) => Some(c),
            _ => None,
        }
    }

    /// The bits per channel of this item.
    pub open spec fn pixi(self, id: u32) -> Option<Seq<u8>> {
        match self.property(id, PIXI) {
            Some(PropertyView::Pixi(b)) => Some(b),
            _ => None,
        }
    }

    /// The extents of this item.
    pub open spec fn ispe(self, id: u32) -> Option<Ispe> {
        match self.property(id, ISPE) {
            Some(PropertyView::Ispe(v)) => Some(v),
            _ => None,
        }
    }

    /// The pixel aspect ratio of this item.
    pub open spec fn pasp(self, id: u32) -> Option<Pasp> {
        match self.property(id, PASP) {
            Some(PropertyView::Pasp(v)) => Some(v),
            _ => None,
        }
    }

    /// The mastering display of this item.
    pub open spec fn mdcv(self, id: u32) -> Option<Mdcv> {
        match self.property(id, MDCV) {
            Some(PropertyView::Mdcv(v)) => Some(v),
            _ => None,
        }
    }

    /// The content light level of this item.
    pub open spec fn clli(self, id: u32) -> Option<Clli> {
        match self.property(id, CLLI) {
            Some(PropertyView::Clli(v)) => Some(v),
            _ => None,
        }
    }

    /// The colour volume luminance of this item.
    pub open spec fn cclv(self, id: u32) -> Option<Cclv> {
        match self.property(id, CCLV) {
            Some(PropertyView::Cclv(v)) => Some(v),
            _ => None,
        }
    }

    /// The ambient viewing environment of this item.
    pub open spec fn amve(self, id: u32) -> Option<Amve> {
        match self.property(id, AMVE) {
            Some(PropertyView::Amve(v)) => Some(v),
            _ => None,
        }
    }

    /// The operating point of this item.
    pub open spec fn a1op(self, id: u32) -> Option<A1op> {
        match self.property(id, A1OP) {
            Some(PropertyView::A1op(v)) => Some(v),
            _ => None,
        }
    }

    /// The layer index of this item.
    pub open spec fn a1lx(self, id: u32) -> Option<A1lx> {
        match self.property(id, A1LX) {
            Some(PropertyView::A1lx(v)) => Some(v),
            _ => None,
        }
    }
}

impl Meta {
    /// The AV1 configuration record of this item.
    pub(crate) fn av1c(&self, id: u32) -> (r: Option<Vec<u8>>)
        ensures
            opt_bytes(r) == self@.av1c(id),
    {
        match self.property_for(id, &AV1C) {
            Some(Property::Av1C(b)) => Some(slice_to_vec(b.as_slice())),
            _ => None,
        }
    }

    /// The colour description of this item.
    pub(crate) fn colr(&self, id: u32) -> (r: Option<Colr>)
        ensures
            opt_colr(r) == self@.colr(id),
    {
        match self.property_for(id, &COLR) {
            Some(Property::Colr(c)) => Some(c.clone()),
            _ => None,
        }
    }

    /// The bits per channel of this item.
    pub(crate) fn pixi(&self, id: u32) -> (r: Option<Vec<u8>>)
        ensures
            opt_bytes(r) == self@.pixi(id),
    {
        match self.property_for(id, &PIXI) {
            Some(Property::Pixi(p)) => Some(slice_to_vec(p.bits_per_channel.as_slice())),
            _ => None,
        }
    }

    /// The extents of this item.
    pub(crate) fn ispe(&self, id: u32) -> (r: Option<Ispe>)
        ensures
            r == self@.ispe(id),
    {
        match self.property_for(id, &ISPE) {
            Some(Property::Ispe(v)) => Some(*v),
            _ => None,
        }
    }

    /// The pixel aspect ratio of this item.
    pub(crate) fn pasp(&self, id: u32) -> (r: Option<Pasp>)
        ensures
            r == self@.pasp(id),
    {
        match self.property_for(id, &PASP) {
            Some(Property::Pasp(v)) => Some(*v),
            _ => None,
        }
    }

    /// The mastering display of this item.
    pub(crate) fn mdcv(&self, id: u32) -> (r: Option<Mdcv>)
        ensures
            r == self@.mdcv(id),
    {
        match self.property_for(id, &MDCV) {
            Some(Property::Mdcv(v)) => Some(*v),
            _ => None,
        }
    }

    /// The content light level of this item.
    pub(crate) fn clli(&self, id: u32) -> (r: Option<Clli>)
        ensures
            r == self@.clli(id),
    {
        match self.property_for(id, &CLLI) {
            Some(Property::Clli(v)) => Some(*v),
            _ => None,
        }
    }

    /// The colour volume luminance of this item.
    pub(crate) fn cclv(&self, id: u32) -> (r: Option<Cclv>)
        ensures
            r == self@.cclv(id),
    {
        match self.property_for(id, &CCLV) {
            Some(Property::Cclv(v)) => Some(*v),
            _ => None,
        }
    }

    /// The ambient viewing environment of this item.
    pub(crate) fn amve(&self, id: u32) -> (r: Option<Amve>)
        ensures
            r == self@.amve(id),
    {
        match self.property_for(id, &AMVE) {
            Some(Property::Amve(v)) => Some(*v),
            _ => None,
        }
    }

    /// The operating point of this item.
    pub(crate) fn a1op(&self, id: u32) -> (r: Option<A1op>)
        ensures
            r == self@.a1op(id),
    {
        match self.property_for(id, &A1OP) {
            Some(Property::A1op(v)) => Some(*v),
            _ => None,
        }
    }

    /// The layer index of this item.
    pub(crate) fn a1lx(&self, id: u32) -> (r: Option<A1lx>)
        ensures
            r == self@.a1lx(id),
    {
        match self.property_for(id, &A1LX) {
            Some(Property::A1lx(v)) => Some(*v),
            _ => None,
        }
    }
}

} // verus!
