use renderer::AttachmentCreateInfo;
use renderer::AttachmentInfo;
use renderer::AttachmentSize;
use renderer::BufferAttachmentInfo;
use renderer::BufferInfo;
use renderer::CallbackLog;
use renderer::RenderGraph;
use renderer::RenderGraphError;

fn tex_info(name: &str, w: u32, h: u32, format: u32) -> AttachmentCreateInfo {
    AttachmentCreateInfo {
        size: AttachmentSize::Absolute(w, h),
        format,
        name: String::from(name),
    }
}

fn existing(name: &str) -> AttachmentInfo {
    AttachmentInfo::Existing(String::from(name))
}

#[test]
fn execute_before_compile_is_not_compiled_and_runs_nothing() {
    let mut g = RenderGraph::new(1, 1);
    g.add_pass(String::from("geometry")).unwrap();
    let mut log = CallbackLog::new();
    let r = g.execute(&mut log);
    assert_eq!(r, Err(RenderGraphError::NotCompiled));
    assert_eq!(log.records.len(), 0);
}

#[test]
fn diamond_graph_runs_every_pass_once_in_dependency_order() {
    let mut g = RenderGraph::new(1, 1);
    // Declared in an order that differs from any valid execution order.
    let lighting = g.add_pass(String::from("lighting")).unwrap();
    let gbuffer = g.add_pass(String::from("gbuffer")).unwrap();
    let shadow = g.add_pass(String::from("shadow")).unwrap();
    let post = g.add_pass(String::from("post")).unwrap();
    g.add_color_output(gbuffer, AttachmentInfo::New(tex_info("g", 64, 64, 1))).unwrap();
    g.add_color_output(shadow, AttachmentInfo::New(tex_info("s", 64, 64, 1))).unwrap();
    g.add_color_input(lighting, existing("g")).unwrap();
    g.add_color_input(lighting, existing("s")).unwrap();
    g.add_color_output(lighting, AttachmentInfo::New(tex_info("l", 64, 64, 1))).unwrap();
    g.add_color_input(post, existing("l")).unwrap();
    g.add_color_output(post, AttachmentInfo::New(tex_info("out", 64, 64, 1))).unwrap();

    assert!(g.compile().is_ok());
    assert!(g.is_compiled());
    let mut log = CallbackLog::new();
    assert_eq!(g.execute(&mut log), Ok(()));
    let names: Vec<&str> = log.records.iter().map(|r| r.pass_name.as_str()).collect();
    // Ready passes are taken in declaration order: gbuffer and shadow are
    // ready first, then lighting, then post.
    assert_eq!(names, vec!["gbuffer", "shadow", "lighting", "post"]);
    for want in ["gbuffer", "shadow", "lighting", "post"] {
        assert_eq!(names.iter().filter(|n| **n == want).count(), 1);
    }
    // Every consumer runs strictly after the producer of what it reads.
    let pos = |n: &str| names.iter().position(|x| *x == n).unwrap();
    assert!(pos("gbuffer") < pos("lighting"));
    assert!(pos("shadow") < pos("lighting"));
    assert!(pos("lighting") < pos("post"));
}

#[test]
fn executing_twice_replays_the_same_plan() {
    let mut g = RenderGraph::new(1, 1);
    let a = g.add_pass(String::from("a")).unwrap();
    let b = g.add_pass(String::from("b")).unwrap();
    g.add_color_output(a, AttachmentInfo::New(tex_info("t", 8, 8, 1))).unwrap();
    g.add_color_input(b, existing("t")).unwrap();
    g.compile().unwrap();
    let mut log = CallbackLog::new();
    g.execute(&mut log).unwrap();
    g.execute(&mut log).unwrap();
    assert_eq!(log.records.len(), 4);
    assert_eq!(log.records[0].pass_name, log.records[2].pass_name);
    assert_eq!(log.records[1].pass_name, log.records[3].pass_name);
}

#[test]
fn records_carry_resolved_bindings() {
    let mut g = RenderGraph::new(1, 1);
    let a = g.add_pass(String::from("producer")).unwrap();
    let b = g.add_pass(String::from("consumer")).unwrap();
    g.add_color_output(a, AttachmentInfo::New(tex_info("t", 8, 8, 1))).unwrap();
    g.add_color_input(b, existing("t")).unwrap();
    g.add_buffer_output(a, BufferAttachmentInfo::New(String::from("buf"), BufferInfo { size: 64 }))
        .unwrap();
    g.add_buffer_input(b, BufferAttachmentInfo::Existing(String::from("buf"))).unwrap();
    g.compile().unwrap();
    let tslot = g.texture_slot(&String::from("t")).unwrap();
    let bslot = g.buffer_slot(&String::from("buf")).unwrap();
    let mut log = CallbackLog::new();
    g.execute(&mut log).unwrap();
    assert_eq!(log.records[0].pass_name, String::from("producer"));
    // producer: output image t, output buffer buf.
    assert_eq!(log.records[0].bindings, vec![(String::from("t"), tslot), (String::from("buf"), bslot)]);
    // consumer: input image t, input buffer buf.
    assert_eq!(log.records[1].bindings, vec![(String::from("t"), tslot), (String::from("buf"), bslot)]);
}

#[test]
fn set_callback_keeps_the_last_handle_and_records_carry_it() {
    let mut g = RenderGraph::new(1, 1);
    let a = g.add_pass(String::from("a")).unwrap();
    let b = g.add_pass(String::from("b")).unwrap();
    g.add_color_output(a, AttachmentInfo::New(tex_info("t", 8, 8, 1))).unwrap();
    g.add_color_input(b, existing("t")).unwrap();
    assert_eq!(
        g.set_callback(9, 7),
        Err(RenderGraphError::NonExistentPass)
    );
    g.set_callback(a, 7).unwrap();
    g.set_callback(a, 8).unwrap();
    g.set_callback(b, 9).unwrap();
    assert_eq!(g.passes[a].callback, 8);
    g.compile().unwrap();
    let mut log = CallbackLog::new();
    g.execute(&mut log).unwrap();
    assert_eq!(log.records[0].callback, 8);
    assert_eq!(log.records[1].callback, 9);
}

#[test]
fn passes_start_with_the_noop_callback_handle() {
    let mut g = RenderGraph::new(1, 1);
    let a = g.add_pass(String::from("a")).unwrap();
    assert_eq!(g.passes[a].callback, 0);
}

#[test]
fn mutual_dependency_fails_compile_with_cyclic_dependency() {
    let mut g = RenderGraph::new(1, 1);
    let p1 = g.add_pass(String::from("p1")).unwrap();
    let p2 = g.add_pass(String::from("p2")).unwrap();
    // p1 consumes p2's output and p2 consumes p1's output.
    g.add_color_output(p1, AttachmentInfo::New(tex_info("a", 8, 8, 1))).unwrap();
    g.add_color_output(p2, AttachmentInfo::New(tex_info("b", 8, 8, 1))).unwrap();
    g.add_color_input(p1, existing("b")).unwrap();
    g.add_color_input(p2, existing("a")).unwrap();
    assert_eq!(g.compile(), Err(RenderGraphError::CyclicDependency));
    // The failed compile left no plan behind.
    let mut log = CallbackLog::new();
    assert_eq!(g.execute(&mut log), Err(RenderGraphError::NotCompiled));
    assert_eq!(log.records.len(), 0);
}

#[test]
fn failed_recompile_keeps_the_previous_plan() {
    let mut g = RenderGraph::new(1, 1);
    let a = g.add_pass(String::from("a")).unwrap();
    g.add_color_output(a, AttachmentInfo::New(tex_info("t", 8, 8, 1))).unwrap();
    g.compile().unwrap();
    // Introduce a cycle, recompile, and check the old plan still runs.
    let b = g.add_pass(String::from("b")).unwrap();
    let c = g.add_pass(String::from("c")).unwrap();
    g.add_color_output(b, AttachmentInfo::New(tex_info("x", 8, 8, 1))).unwrap();
    g.add_color_output(c, AttachmentInfo::New(tex_info("y", 8, 8, 1))).unwrap();
    g.add_color_input(b, existing("y")).unwrap();
    g.add_color_input(c, existing("x")).unwrap();
    assert_eq!(g.compile(), Err(RenderGraphError::CyclicDependency));
    let mut log = CallbackLog::new();
    assert_eq!(g.execute(&mut log), Ok(()));
    assert_eq!(log.records.len(), 1);
    assert_eq!(log.records[0].pass_name, String::from("a"));
}

/// Builds a four-pass chain whose compiled order is p0, p1, p2, p3, giving
/// texture `a` the lifetime window [0, 1] and texture `b` the window
/// [2, 3].  The chain is linked through a buffer so the windows of `a`
/// and `b` stay disjoint.
fn disjoint_window_graph() -> RenderGraph {
    let mut g = RenderGraph::new(1, 1);
    let p0 = g.add_pass(String::from("p0")).unwrap();
    let p1 = g.add_pass(String::from("p1")).unwrap();
    let p2 = g.add_pass(String::from("p2")).unwrap();
    let p3 = g.add_pass(String::from("p3")).unwrap();
    g.add_color_output(p0, AttachmentInfo::New(tex_info("a", 64, 64, 1))).unwrap();
    g.add_color_input(p1, existing("a")).unwrap();
    g.add_buffer_output(p1, BufferAttachmentInfo::New(String::from("link"), BufferInfo { size: 4 }))
        .unwrap();
    g.add_buffer_input(p2, BufferAttachmentInfo::Existing(String::from("link"))).unwrap();
    g.add_color_output(p2, AttachmentInfo::New(tex_info("b", 64, 64, 1))).unwrap();
    g.add_color_input(p3, existing("b")).unwrap();
    g
}

#[test]
fn compatible_textures_with_disjoint_windows_share_a_slot() {
    let mut g = disjoint_window_graph();
    g.compile().unwrap();
    let sa = g.texture_slot(&String::from("a")).unwrap();
    let sb = g.texture_slot(&String::from("b")).unwrap();
    assert_eq!(sa, sb);
}

#[test]
fn overlapping_windows_get_different_slots() {
    let mut g = RenderGraph::new(1, 1);
    let p0 = g.add_pass(String::from("p0")).unwrap();
    let p1 = g.add_pass(String::from("p1")).unwrap();
    let p2 = g.add_pass(String::from("p2")).unwrap();
    // a lives over [0, 2]; b lives over [1, 2]: they overlap.
    g.add_color_output(p0, AttachmentInfo::New(tex_info("a", 64, 64, 1))).unwrap();
    g.add_color_input(p1, existing("a")).unwrap();
    g.add_color_output(p1, AttachmentInfo::New(tex_info("b", 64, 64, 1))).unwrap();
    g.add_color_input(p2, existing("a")).unwrap();
    g.add_color_input(p2, existing("b")).unwrap();
    g.compile().unwrap();
    let sa = g.texture_slot(&String::from("a")).unwrap();
    let sb = g.texture_slot(&String::from("b")).unwrap();
    assert_ne!(sa, sb);
}

#[test]
fn external_texture_never_shares_a_slot() {
    let mut g = RenderGraph::new(1, 1);
    let p0 = g.add_pass(String::from("p0")).unwrap();
    let p1 = g.add_pass(String::from("p1")).unwrap();
    let p2 = g.add_pass(String::from("p2")).unwrap();
    let p3 = g.add_pass(String::from("p3")).unwrap();
    g.import_texture(tex_info("swap", 64, 64, 1)).unwrap();
    g.add_color_output(p0, AttachmentInfo::New(tex_info("a", 64, 64, 1))).unwrap();
    g.add_color_input(p1, existing("a")).unwrap();
    g.add_buffer_output(p1, BufferAttachmentInfo::New(String::from("link"), BufferInfo { size: 4 }))
        .unwrap();
    g.add_buffer_input(p2, BufferAttachmentInfo::Existing(String::from("link"))).unwrap();
    // swap has the same layout as a and a disjoint window, but is external.
    g.add_color_output(p2, existing("swap")).unwrap();
    g.add_color_input(p3, existing("swap")).unwrap();
    g.compile().unwrap();
    let sa = g.texture_slot(&String::from("a")).unwrap();
    let ss = g.texture_slot(&String::from("swap")).unwrap();
    assert_ne!(sa, ss);
}

#[test]
fn compile_is_idempotent_on_the_same_declarations() {
    let mut g = disjoint_window_graph();
    g.compile().unwrap();
    let mut log1 = CallbackLog::new();
    g.execute(&mut log1).unwrap();
    g.compile().unwrap();
    let mut log2 = CallbackLog::new();
    g.execute(&mut log2).unwrap();
    assert_eq!(log1.records.len(), log2.records.len());
    for (r1, r2) in log1.records.iter().zip(log2.records.iter()) {
        assert_eq!(r1.pass_name, r2.pass_name);
        assert_eq!(r1.bindings, r2.bindings);
    }
}

#[test]
fn slot_queries_before_compile_return_none() {
    let mut g = RenderGraph::new(1, 1);
    g.create_texture(tex_info("a", 8, 8, 1)).unwrap();
    g.create_buffer(String::from("b"), BufferInfo { size: 8 }).unwrap();
    assert!(!g.is_compiled());
    assert_eq!(g.texture_slot(&String::from("a")), None);
    assert_eq!(g.buffer_slot(&String::from("b")), None);
}

#[test]
fn buffers_never_share_slots_with_textures() {
    let mut g = RenderGraph::new(1, 1);
    let p0 = g.add_pass(String::from("p0")).unwrap();
    let p1 = g.add_pass(String::from("p1")).unwrap();
    g.add_color_output(p0, AttachmentInfo::New(tex_info("t", 8, 8, 1))).unwrap();
    g.add_color_input(p1, existing("t")).unwrap();
    g.add_buffer_output(p0, BufferAttachmentInfo::New(String::from("u"), BufferInfo { size: 8 }))
        .unwrap();
    g.add_buffer_input(p1, BufferAttachmentInfo::Existing(String::from("u"))).unwrap();
    g.compile().unwrap();
    let st = g.texture_slot(&String::from("t")).unwrap();
    let su = g.buffer_slot(&String::from("u")).unwrap();
    assert_ne!(st, su);
}
