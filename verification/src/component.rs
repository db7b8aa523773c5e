//! Entity components. The scene's entities carry strongly-typed data; the
//! `Component` trait is what such a datum must provide. Strong typing in
//! place of a type-erased component map means no runtime downcasting and
//! every component stays visible to the verifier.

use vstd::prelude::*;
use crate::geometry::{valid_point, valid_seg, Point, Segment};

verus! {

/// Implemented by every datum an entity can carry as a component.
pub trait Component {
    /// The component keeps all its coordinates inside bounds.
    spec fn valid(&self) -> bool;
}

/// A line is a component: scene entities are drawn as lines.
impl Component for Segment {
    open spec fn valid(&self) -> bool {
        valid_seg(*self)
    }
}

/// A 2D placement: a position and a size.
#[derive(Clone, Copy, PartialEq, Eq, Structural, Debug)]
pub struct Transform2D {
    pub position: Point,
    pub size: Point,
}

impl Component for Transform2D {
    open spec fn valid(&self) -> bool {
        valid_point(self.position) && valid_point(self.size)
    }
}

} // verus!
