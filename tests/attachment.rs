use ve_memory::attachment::{
    attachment_final_layout, attachment_load, image_attachment_final_layout, AttachmentFinalLayout,
    AttachmentLoad,
};

#[test]
fn clear_value_selects_clear_on_load() {
    assert_eq!(attachment_load(true), AttachmentLoad::Clear);
    assert_eq!(attachment_load(false), AttachmentLoad::Load);
}

#[test]
fn presented_attachment_ends_in_present_layout() {
    assert_eq!(attachment_final_layout(true), AttachmentFinalLayout::PresentSource);
    assert_eq!(attachment_final_layout(false), AttachmentFinalLayout::General);
    assert_eq!(image_attachment_final_layout(true, true), AttachmentFinalLayout::PresentSource);
    assert_eq!(image_attachment_final_layout(true, false), AttachmentFinalLayout::PresentSource);
}

#[test]
fn depth_image_ends_in_depth_stencil_layout() {
    assert_eq!(image_attachment_final_layout(false, true), AttachmentFinalLayout::DepthStencilAttachment);
    assert_eq!(image_attachment_final_layout(false, false), AttachmentFinalLayout::General);
}
