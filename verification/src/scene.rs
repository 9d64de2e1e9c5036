//! The scene as the renderer sees it: the things that rays can hit.

use crate::hitable_list::HitableList;
use vstd::prelude::*;

verus! {

/// A scene is a list of things to hit, searched from front to back.
pub type Scene<H> = HitableList<H>;

} // verus!
