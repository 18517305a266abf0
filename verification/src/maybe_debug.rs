//! Tag types that let the macro layer pick, by method resolution, how a
//! value is shown: through its `Debug` implementation when it has one, or as
//! an opaque placeholder when it may not.
//!
//! The traits are implemented at different reference depths of [`Wrap`], so
//! auto-ref method resolution prefers [`IsDebug`] for debuggable values and
//! falls back to [`IsMaybeNotDebug`] otherwise.  The placeholder's actual
//! `Debug` formatting lives in the embedding binary.

use vstd::prelude::*;

verus! {

/// A transparent wrapper the tag traits attach to.
pub struct Wrap<'a, T>(pub &'a T);

/// The tag for values that implement `Debug`.
pub struct DebugTag;

/// The tag for values that may not implement `Debug`.
pub struct MaybeNotDebugTag;

/// Resolved for wrapped values whose type implements `Debug`.
pub trait IsDebug {
    /// The tag this resolution hands back.
    fn tag(&self) -> DebugTag;
}

/// Resolved for wrapped values whose type may not implement `Debug`.
pub trait IsMaybeNotDebug {
    /// The tag this resolution hands back.
    fn tag(&self) -> MaybeNotDebugTag;
}

impl<'a, T: core::fmt::Debug> IsDebug for &Wrap<'a, T> {
    fn tag(&self) -> DebugTag {
        DebugTag
    }
}

impl<'a, T> IsMaybeNotDebug for Wrap<'a, T> {
    fn tag(&self) -> MaybeNotDebugTag {
        MaybeNotDebugTag
    }
}

impl DebugTag {
    /// A debuggable value is shown as itself.
    pub fn wrap<'a, T>(self, v: &'a T) -> (r: &'a T)
        ensures
            r == v,
    {
        v
    }
}

/// A value shown as an opaque placeholder instead of its `Debug` form.
pub struct MaybeNotDebug<'a, T>(pub &'a T);

impl MaybeNotDebugTag {
    /// A possibly-undebuggable value is shown as an opaque placeholder.
    pub fn wrap<'a, T>(self, v: &'a T) -> (r: MaybeNotDebug<'a, T>)
        ensures
            r.0 == v,
    {
        MaybeNotDebug(v)
    }
}

} // verus!
