use renderer::AttachmentCreateInfo;
use renderer::AttachmentInfo;
use renderer::AttachmentSize;
use renderer::BufferAttachmentInfo;
use renderer::BufferInfo;
use renderer::RenderGraph;
use renderer::RenderGraphError;

fn tex_info(name: &str, w: u32, h: u32, format: u32) -> AttachmentCreateInfo {
    AttachmentCreateInfo {
        size: AttachmentSize::Absolute(w, h),
        format,
        name: String::from(name),
    }
}

#[test]
fn create_texture_then_duplicate_texture_is_redundant() {
    let mut g = RenderGraph::new(1, 1);
    assert!(g.create_texture(tex_info("albedo", 64, 64, 1)).is_ok());
    let r = g.create_texture(tex_info("albedo", 32, 32, 2));
    assert_eq!(r, Err(RenderGraphError::RedundantResource));
}

#[test]
fn create_texture_then_buffer_with_same_name_is_redundant() {
    let mut g = RenderGraph::new(1, 1);
    assert!(g.create_texture(tex_info("shared", 64, 64, 1)).is_ok());
    let r = g.create_buffer(String::from("shared"), BufferInfo { size: 256 });
    assert_eq!(r, Err(RenderGraphError::RedundantResource));
}

#[test]
fn create_buffer_then_texture_with_same_name_is_redundant() {
    let mut g = RenderGraph::new(1, 1);
    assert!(g.create_buffer(String::from("shared"), BufferInfo { size: 256 }).is_ok());
    let r = g.create_texture(tex_info("shared", 64, 64, 1));
    assert_eq!(r, Err(RenderGraphError::RedundantResource));
}

#[test]
fn create_buffer_then_duplicate_buffer_is_redundant() {
    let mut g = RenderGraph::new(1, 1);
    assert!(g.create_buffer(String::from("vtx"), BufferInfo { size: 16 }).is_ok());
    let r = g.create_buffer(String::from("vtx"), BufferInfo { size: 32 });
    assert_eq!(r, Err(RenderGraphError::RedundantResource));
}

#[test]
fn registry_queries_see_created_resources() {
    let mut g = RenderGraph::new(1, 1);
    assert!(!g.texture_exists(&String::from("albedo")));
    g.create_texture(tex_info("albedo", 64, 64, 7)).unwrap();
    g.create_buffer(String::from("vtx"), BufferInfo { size: 16 }).unwrap();
    assert!(g.texture_exists(&String::from("albedo")));
    assert!(g.buffers_exists(&String::from("vtx")));
    assert!(!g.buffers_exists(&String::from("albedo")));
    assert!(!g.texture_exists(&String::from("vtx")));
    let t = g.get_texture(&String::from("albedo")).unwrap();
    assert_eq!(t.format, 7);
    assert!(!t.external);
    let b = g.get_buffer(&String::from("vtx")).unwrap();
    assert_eq!(b.size, 16);
    assert!(g.get_texture(&String::from("missing")).is_none());
    assert!(g.get_buffer(&String::from("missing")).is_none());
}

#[test]
fn duplicate_pass_name_is_rejected() {
    let mut g = RenderGraph::new(1, 1);
    assert_eq!(g.add_pass(String::from("geometry")), Ok(0));
    assert_eq!(
        g.add_pass(String::from("geometry")),
        Err(RenderGraphError::RedundantResource)
    );
    assert_eq!(g.add_pass(String::from("lighting")), Ok(1));
}

#[test]
fn declaring_on_a_missing_pass_fails() {
    let mut g = RenderGraph::new(1, 1);
    g.create_texture(tex_info("albedo", 64, 64, 1)).unwrap();
    let r = g.add_color_input(3, AttachmentInfo::Existing(String::from("albedo")));
    assert_eq!(r, Err(RenderGraphError::NonExistentPass));
}

#[test]
fn missing_existing_reference_fails_and_leaves_lists_unchanged() {
    let mut g = RenderGraph::new(1, 1);
    let p = g.add_pass(String::from("geometry")).unwrap();
    let r = g.add_color_input(p, AttachmentInfo::Existing(String::from("ghost")));
    assert_eq!(r, Err(RenderGraphError::NonExistentResource));
    assert_eq!(g.passes[p].input_images.len(), 0);
    let r = g.add_buffer_input(p, BufferAttachmentInfo::Existing(String::from("ghost")));
    assert_eq!(r, Err(RenderGraphError::NonExistentResource));
    assert_eq!(g.passes[p].input_buffers.len(), 0);
}

#[test]
fn declaring_the_same_existing_input_twice_keeps_one_entry() {
    let mut g = RenderGraph::new(1, 1);
    g.create_texture(tex_info("albedo", 64, 64, 1)).unwrap();
    let p = g.add_pass(String::from("geometry")).unwrap();
    assert!(g.add_color_input(p, AttachmentInfo::Existing(String::from("albedo"))).is_ok());
    assert!(g.add_color_input(p, AttachmentInfo::Existing(String::from("albedo"))).is_ok());
    assert_eq!(g.passes[p].input_images.len(), 1);
    assert_eq!(g.passes[p].input_images[0], String::from("albedo"));
}

#[test]
fn new_attachment_creates_the_texture_and_forwards_redundancy() {
    let mut g = RenderGraph::new(1, 1);
    let p = g.add_pass(String::from("geometry")).unwrap();
    assert!(g.add_color_output(p, AttachmentInfo::New(tex_info("color", 64, 64, 1))).is_ok());
    assert!(g.texture_exists(&String::from("color")));
    assert_eq!(g.passes[p].output_images.len(), 1);
    let r = g.add_color_output(p, AttachmentInfo::New(tex_info("color", 64, 64, 1)));
    assert_eq!(r, Err(RenderGraphError::RedundantResource));
    assert_eq!(g.passes[p].output_images.len(), 1);
}

#[test]
fn new_buffer_attachment_creates_the_buffer() {
    let mut g = RenderGraph::new(1, 1);
    let p = g.add_pass(String::from("skinning")).unwrap();
    let info = BufferAttachmentInfo::New(String::from("bones"), BufferInfo { size: 4096 });
    assert!(g.add_buffer_output(p, info).is_ok());
    assert!(g.buffers_exists(&String::from("bones")));
    assert_eq!(g.passes[p].output_buffers.len(), 1);
}

#[test]
fn aliasable_requires_same_layout_and_no_external() {
    let mut g = RenderGraph::new(1, 1);
    g.create_texture(tex_info("a", 64, 64, 1)).unwrap();
    g.create_texture(tex_info("b", 64, 64, 1)).unwrap();
    g.create_texture(tex_info("c", 32, 64, 1)).unwrap();
    g.create_texture(tex_info("d", 64, 64, 2)).unwrap();
    g.import_texture(tex_info("e", 64, 64, 1)).unwrap();
    let a = *g.get_texture(&String::from("a")).unwrap();
    let b = *g.get_texture(&String::from("b")).unwrap();
    let c = *g.get_texture(&String::from("c")).unwrap();
    let d = *g.get_texture(&String::from("d")).unwrap();
    let e = *g.get_texture(&String::from("e")).unwrap();
    assert!(a.aliasable(&b));
    assert!(!a.aliasable(&c));
    assert!(!a.aliasable(&d));
    assert!(!a.aliasable(&e));
    assert!(!e.aliasable(&a));
    assert!(e.external);
}

#[test]
fn attachment_size_resolves_against_reference_extent() {
    let abs = AttachmentSize::Absolute(640, 480);
    assert_eq!(abs.resolve(1920, 1080), (640, 480));
    let rel = AttachmentSize::SwapchainRelative(1000, 500);
    assert_eq!(rel.resolve(1920, 1080), (1920, 540));
    let quarter = AttachmentSize::SwapchainRelative(250, 250);
    assert_eq!(quarter.resolve(1920, 1080), (480, 270));
}

#[test]
fn pass_id_finds_registered_passes_by_name() {
    let mut g = RenderGraph::new(1, 1);
    let p = g.add_pass(String::from("geometry")).unwrap();
    assert_eq!(g.pass_id(&String::from("geometry")), Some(p));
    assert_eq!(g.pass_id(&String::from("lighting")), None);
}

#[test]
fn resource_exists_spans_both_registries() {
    let mut g = RenderGraph::new(1, 1);
    g.create_texture(tex_info("t", 8, 8, 1)).unwrap();
    g.create_buffer(String::from("b"), BufferInfo { size: 8 }).unwrap();
    assert!(g.resource_exists(&String::from("t")));
    assert!(g.resource_exists(&String::from("b")));
    assert!(!g.resource_exists(&String::from("c")));
}

#[test]
fn default_attachment_info_is_swapchain_sized() {
    let info = AttachmentCreateInfo::default();
    assert_eq!(info.size, AttachmentSize::SwapchainRelative(1000, 1000));
    assert_eq!(info.format, 0);
    assert_eq!(info.name, String::new());
}
