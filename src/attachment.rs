use vstd::prelude::*;

verus! {

/// How an attachment's colour output is blended into the target.
#[derive(Clone, Copy, Debug, PartialEq, Eq, Structural)]
pub enum AttachmentBlending {
    Additive,
    Alpha,
}

/// What happens to an attachment's contents when a render pass begins.
#[derive(Clone, Copy, Debug, PartialEq, Eq, Structural)]
pub enum AttachmentLoad {
    Clear,
    Load,
}

/// The layout an attachment's image is left in when a render pass ends.
#[derive(Clone, Copy, Debug, PartialEq, Eq, Structural)]
pub enum AttachmentFinalLayout {
    PresentSource,
    DepthStencilAttachment,
    General,
}

/// An attachment with a clear value is cleared on load; any other keeps
/// what its image holds.
pub fn attachment_load(has_clear_value: bool) -> (r: AttachmentLoad)
    ensures
        r == (if has_clear_value {
            AttachmentLoad::Clear
        } else {
            AttachmentLoad::Load
        }),
{
    if has_clear_value {
        AttachmentLoad::Clear
    } else {
        AttachmentLoad::Load
    }
}

/// The final layout of an attachment: ready for presentation when it is
/// presented, the general layout otherwise.
pub fn attachment_final_layout(for_present: bool) -> (r: AttachmentFinalLayout)
    ensures
        r == (if for_present {
            AttachmentFinalLayout::PresentSource
        } else {
            AttachmentFinalLayout::General
        }),
{
    if for_present {
        AttachmentFinalLayout::PresentSource
    } else {
        AttachmentFinalLayout::General
    }
}

/// The final layout of an attachment built from an image: ready for
/// presentation when it is presented, the depth-stencil attachment layout
/// for a depth image, the general layout otherwise.
pub fn image_attachment_final_layout(for_present: bool, is_depth: bool) -> (r: AttachmentFinalLayout)
    ensures
        r == (if for_present {
            AttachmentFinalLayout::PresentSource
        } else if is_depth {
            AttachmentFinalLayout::DepthStencilAttachment
        } else {
            AttachmentFinalLayout::General
        }),
{
    if for_present {
        AttachmentFinalLayout::PresentSource
    } else if is_depth {
        AttachmentFinalLayout::DepthStencilAttachment
    } else {
        AttachmentFinalLayout::General
    }
}

} // verus!
