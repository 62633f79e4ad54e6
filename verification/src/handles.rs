//! Opaque handles to the resources a plugin produces across the linking
//! boundary, the null-substitution policy, and the fixed teardown order of
//! a loaded record.
use vstd::prelude::*;

verus! {

/// The opaque user-interface content a plugin produced, or the host's
/// default empty container substituted when the plugin returned null.
#[derive(Clone, Copy, Debug, PartialEq, Eq, Structural)]
pub enum VisualHandle {
    /// Raw opaque handle handed across the plugin boundary; the manager
    /// never stores a zero (null) value here.
    Plugin(u64),
    /// Host-substituted default: an empty container.
    DefaultEmpty,
}

/// The opaque style resource a plugin produced, or the host's default
/// neutral style substituted when the plugin returned null.
#[derive(Clone, Copy, Debug, PartialEq, Eq, Structural)]
pub enum StyleHandle {
    /// Raw opaque handle handed across the plugin boundary; the manager
    /// never stores a zero (null) value here.
    Plugin(u64),
    /// Host-substituted default: a neutral style resource.
    DefaultNeutral,
}

impl VisualHandle {
    /// A handle is null only if it wraps the plugin's null pointer; the
    /// host's default is never null.
    pub open spec fn is_null(self) -> bool {
        match self {
            VisualHandle::Plugin(raw) => raw == 0,
            VisualHandle::DefaultEmpty => false,
        }
    }
}

impl StyleHandle {
    /// A handle is null only if it wraps the plugin's null pointer; the
    /// host's default is never null.
    pub open spec fn is_null(self) -> bool {
        match self {
            StyleHandle::Plugin(raw) => raw == 0,
            StyleHandle::DefaultNeutral => false,
        }
    }
}

/// Null substitution for visual content: a null (zero) raw handle becomes
/// the default empty container, so downstream code never observes an
/// absent visual.
pub open spec fn spec_substitute_visual(raw: u64) -> VisualHandle {
    if raw == 0 {
        VisualHandle::DefaultEmpty
    } else {
        VisualHandle::Plugin(raw)
    }
}

/// Null substitution for the style resource: a null (zero) raw handle
/// becomes the default neutral style.
pub open spec fn spec_substitute_style(raw: u64) -> StyleHandle {
    if raw == 0 {
        StyleHandle::DefaultNeutral
    } else {
        StyleHandle::Plugin(raw)
    }
}

/// Wraps the raw visual handle a plugin returned, substituting the default
/// empty container for null; the result is never null.
pub fn visual_from_raw(raw: u64) -> (h: VisualHandle)
    ensures
        h == spec_substitute_visual(raw),
        !h.is_null(),
{
    if raw == 0 {
        VisualHandle::DefaultEmpty
    } else {
        VisualHandle::Plugin(raw)
    }
}

/// Wraps the raw style handle a plugin returned, substituting the default
/// neutral style for null; the result is never null.
pub fn style_from_raw(raw: u64) -> (h: StyleHandle)
    ensures
        h == spec_substitute_style(raw),
        !h.is_null(),
{
    if raw == 0 {
        StyleHandle::DefaultNeutral
    } else {
        StyleHandle::Plugin(raw)
    }
}

/// One step of a loaded record's teardown.
#[derive(Clone, Copy, Debug, PartialEq, Eq, Structural)]
pub enum TeardownStep {
    /// Run the plugin's unload hook (its code still mapped).
    UnloadHook,
    /// Drop the visual content handle.
    DropVisual,
    /// Drop the style resource handle.
    DropStyle,
    /// Drop the plugin proxy (frees plugin-local state).
    DropProxy,
    /// Finally unmap the library itself.
    CloseLibrary,
}

/// The strict teardown order of a loaded record. Every earlier resource's
/// deallocation logic lives inside the plugin's library, so the library
/// must be unmapped last; the host follows exactly this sequence when it
/// destroys a record.
pub fn teardown_order() -> (steps: Vec<TeardownStep>)
    ensures
        steps@ =~= seq![
            TeardownStep::UnloadHook,
            TeardownStep::DropVisual,
            TeardownStep::DropStyle,
            TeardownStep::DropProxy,
            TeardownStep::CloseLibrary,
        ],
{
    let mut steps: Vec<TeardownStep> = Vec::new();
    steps.push(TeardownStep::UnloadHook);
    steps.push(TeardownStep::DropVisual);
    steps.push(TeardownStep::DropStyle);
    steps.push(TeardownStep::DropProxy);
    steps.push(TeardownStep::CloseLibrary);
    steps
}

} // verus!
