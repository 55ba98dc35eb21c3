use webgpui::app::{
    run_exit_result, svg_key, AppError, BackendSwitcher, ImageLookup, ImageRegistry, PendingImage,
};
use webgpui::batch::{BatchKey, BlendModeKey};
use webgpui::graph::{PassId, PassKind, RenderGraph};
use webgpui::layout::{Direction, PositionType};
use webgpui::platform::{PlatformError, WindowConfig};
use webgpui::text::contains_str;
use webgpui::render::{
    BackendFeatures, BackendSelector, BlendMode, CpuRenderer, CudaRenderer, ImageHandle, RenderError,
};

// ---- back-end selection --------------------------------------------------------

#[test]
fn backend_selector_name() {
    assert_eq!(BackendSelector::Wgpu.name(), "wgpu");
    assert_eq!(BackendSelector::Cuda.name(), "CUDA");
    assert_eq!(BackendSelector::Cpu.name(), "CPU");
}

#[test]
fn backend_selector_display() {
    assert_eq!(BackendSelector::Wgpu.to_string(), "wgpu");
    assert_eq!(BackendSelector::Cuda.to_string(), "CUDA");
    assert_eq!(BackendSelector::Cpu.to_string(), "CPU");
}

#[test]
fn backend_selector_available() {
    let available = BackendSelector::available();
    assert!(!available.is_empty());
}

#[test]
fn backend_selector_available_empty_when_no_features() {
    assert!(BackendSelector::available_in(BackendFeatures::none()).is_empty());
}

#[test]
fn backend_selector_from_str() {
    assert_eq!("wgpu".parse::<BackendSelector>().unwrap(), BackendSelector::Wgpu);
    assert_eq!("cuda".parse::<BackendSelector>().unwrap(), BackendSelector::Cuda);
    assert_eq!("cpu".parse::<BackendSelector>().unwrap(), BackendSelector::Cpu);
    assert_eq!("WGPU".parse::<BackendSelector>().unwrap(), BackendSelector::Wgpu);
    assert!("invalid".parse::<BackendSelector>().is_err());
}

#[test]
fn backend_selector_parse_name_round_trip() {
    for b in [BackendSelector::Wgpu, BackendSelector::Cuda, BackendSelector::Cpu] {
        assert_eq!(BackendSelector::parse(b.name()).unwrap(), b);
    }
}

#[test]
fn backend_selector_unknown_name_lists_available() {
    match BackendSelector::parse("metal") {
        Err(RenderError::Other(m)) => assert_eq!(m, "unknown backend 'metal'; available: wgpu"),
        other => panic!("unexpected {:?}", other),
    }
}

#[test]
fn backend_selector_availability_and_create() {
    assert!(BackendSelector::Wgpu.is_available());
    assert!(!BackendSelector::Cuda.is_available());
    assert!(!BackendSelector::Cpu.is_available());
    assert!(matches!(BackendSelector::Cuda.create(), Err(RenderError::BackendUnavailable)));
    assert!(matches!(BackendSelector::Cpu.create(), Err(RenderError::BackendUnavailable)));
    assert!(matches!(BackendSelector::Wgpu.create(), Err(RenderError::Other(_))));
    let all = BackendFeatures { wgpu: true, cuda: true, cpu: true };
    assert_eq!(
        BackendSelector::available_in(all),
        vec![BackendSelector::Wgpu, BackendSelector::Cuda, BackendSelector::Cpu]
    );
    assert!(matches!(BackendSelector::Cpu.create_in(all), RenderError::Other(_)));
}

#[test]
fn render_error_messages() {
    assert_eq!(RenderError::Timeout.message(), "GPU timeout");
    assert_eq!(RenderError::DeviceLost("gone".to_string()).message(), "GPU device lost: gone");
    assert_eq!(RenderError::Other("x".to_string()).message(), "GPU error: x");
}

#[test]
fn blend_defaults() {
    assert_eq!(BlendMode::default(), BlendMode::Alpha);
    assert_eq!(BlendModeKey::default(), BlendModeKey::Opaque);
    assert_eq!(BlendModeKey::from(BlendMode::Additive), BlendModeKey::Additive);
    assert_eq!(BlendModeKey::from(BlendMode::Alpha), BlendModeKey::Alpha);
    assert_eq!(BatchKey::default().z_order, 0);
    assert_eq!(BatchKey::default().blend_mode, BlendModeKey::Opaque);
    assert!(BlendModeKey::Opaque < BlendModeKey::Additive);
    assert_eq!(ImageHandle(3), ImageHandle(3));
}

// ---- CPU and CUDA renderers -----------------------------------------------------

#[test]
fn cpu_renderer_creation() {
    let renderer = CpuRenderer::new(800, 600).unwrap();
    assert_eq!(renderer.surface_size(), (800, 600));
    assert_eq!(renderer.frame_count(), 0);
}

#[test]
fn cpu_renderer_resize() {
    let mut renderer = CpuRenderer::new(800, 600).unwrap();
    renderer.resize(1024, 768);
    assert_eq!(renderer.surface_size(), (1024, 768));
}

#[test]
fn cpu_renderer_frame_counting() {
    let mut renderer = CpuRenderer::new(800, 600).unwrap();
    renderer.render(0).unwrap();
    assert_eq!(renderer.frame_count(), 1);
    renderer.render(7).unwrap();
    assert_eq!(renderer.frame_count(), 2);
    assert_eq!(renderer.total_commands(), 7);
}

#[test]
fn cuda_renderer_is_disabled() {
    assert_eq!(
        CudaRenderer::new().unwrap_err(),
        "CUDA support disabled; enable 'backend-cuda' feature in Cargo.toml"
    );
}

// ---- render graph ----------------------------------------------------------------

#[test]
fn add_dependency_returns_false_for_missing_pass() {
    let mut graph = RenderGraph::new();
    let missing = PassId(9999);
    let ui_id = graph.pass_by_name("ui").unwrap().id;
    assert!(!graph.add_dependency(missing, ui_id));
}

#[test]
fn add_dependency_no_spurious_dirty() {
    let mut graph = RenderGraph::new();
    let _ = graph.execution_order();
    let missing = PassId(9999);
    let ui_id = graph.pass_by_name("ui").unwrap().id;
    graph.add_dependency(missing, ui_id);
    assert!(!graph.is_stale());
}

#[test]
fn pass_by_name_o1_lookup() {
    let mut graph = RenderGraph::new();
    let extra = graph.add_pass("extra", PassKind::Ui);
    assert_eq!(graph.pass_by_name("extra").unwrap().id, extra);
    assert!(graph.pass_by_name("nonexistent").is_none());
}

#[test]
fn default_passes_exist() {
    let mut graph = RenderGraph::new();
    assert!(graph.pass_by_name("clear").is_some());
    assert!(graph.pass_by_name("ui").is_some());
    let order = graph.execution_order();
    let clear_pos = order.iter().position(|p| p.name == "clear").unwrap();
    let ui_pos = order.iter().position(|p| p.name == "ui").unwrap();
    assert!(clear_pos < ui_pos);
}

#[test]
fn topological_sort_no_infinite_loop_on_cycle() {
    let mut graph = RenderGraph::new();
    let a = graph.add_pass("cycle_a", PassKind::Ui);
    let b = graph.add_pass("cycle_b", PassKind::Ui);
    graph.add_dependency(a, b);
    graph.add_dependency(b, a);
    let names: Vec<&str> = graph.execution_order().iter().map(|p| p.name).collect();
    assert_eq!(names, vec!["clear", "ui"]);
}

#[test]
fn overlay_is_disabled_until_enabled() {
    let mut graph = RenderGraph::new();
    let names: Vec<&str> = graph.execution_order().iter().map(|p| p.name).collect();
    assert_eq!(names, vec!["clear", "ui"]);
    graph.set_overlay_enabled(true);
    let names: Vec<&str> = graph.execution_order().iter().map(|p| p.name).collect();
    assert_eq!(names, vec!["clear", "ui", "overlay"]);
}

#[test]
fn dependencies_order_later_passes() {
    let mut graph = RenderGraph::new();
    let post = graph.add_pass("post", PassKind::Overlay);
    let pre = graph.add_pass("pre", PassKind::Clear);
    graph.add_dependency(post, pre);
    graph.add_dependency(PassId(0), pre);
    let names: Vec<&str> = graph.execution_order().iter().map(|p| p.name).collect();
    let pos = |n: &str| names.iter().position(|x| *x == n).unwrap();
    assert!(pos("pre") < pos("post"));
    assert!(pos("pre") < pos("clear"));
    assert!(pos("clear") < pos("ui"));
    assert_eq!(graph.pass(post).unwrap().depends_on(), &[pre]);
}

#[test]
fn pass_missing_dependency_is_left_out() {
    let mut graph = RenderGraph::new();
    let p = graph.add_pass("waits", PassKind::Ui);
    graph.add_dependency(p, PassId(50));
    let names: Vec<&str> = graph.execution_order().iter().map(|p| p.name).collect();
    assert!(!names.contains(&"waits"));
}

#[test]
fn pass_id_text() {
    assert_eq!(PassId(12).to_string(), "Pass(12)");
}

// ---- app-level state -------------------------------------------------------------

#[test]
fn backend_switcher_applies_pending_once() {
    let mut s = BackendSwitcher::new(BackendSelector::Wgpu);
    assert_eq!(s.current(), BackendSelector::Wgpu);
    assert_eq!(s.take_pending(), None);
    s.switch_to(BackendSelector::Cpu);
    assert_eq!(s.current(), BackendSelector::Wgpu);
    assert_eq!(s.take_pending(), Some(BackendSelector::Cpu));
    assert_eq!(s.current(), BackendSelector::Cpu);
    assert_eq!(s.take_pending(), None);
}

#[test]
fn pending_image_fields_preserved() {
    let img = PendingImage { id: 42, pixels: vec![255u8; 4 * 4 * 4], width: 4, height: 4 };
    assert_eq!(img.id, 42);
    assert_eq!(img.width, 4);
    assert_eq!(img.height, 4);
    assert_eq!(img.pixels.len(), 64);
}

#[test]
fn svg_load_invalid_path_returns_error() {
    let mut registry = ImageRegistry::new();
    let key = match registry.load_svg("nonexistent.svg", 16, 16) {
        ImageLookup::Decode(k) => k,
        ImageLookup::Cached(_) => panic!("nothing is cached yet"),
    };
    // Reading the file fails; the registry hands the error back.
    let result = registry.finish(&key, Err(AppError::SvgLoad("nonexistent.svg: not found".to_string())));
    assert!(result.is_err());
    assert!(matches!(registry.load_svg("nonexistent.svg", 16, 16), ImageLookup::Decode(_)));
}

#[test]
fn image_registry_same_path_returns_cached_handle() {
    let mut registry = ImageRegistry::new();
    let key = match registry.load("webgpui_test_cache.png") {
        ImageLookup::Decode(k) => k,
        ImageLookup::Cached(_) => panic!("nothing is cached yet"),
    };
    assert_eq!(key, "webgpui_test_cache.png");
    let h = registry.finish(&key, Ok((vec![0u8; 4], 1, 1))).unwrap();
    assert!(matches!(registry.load("webgpui_test_cache.png"), ImageLookup::Cached(x) if x == h));
    let other = match registry.load("other.png") {
        ImageLookup::Decode(k) => registry.finish(&k, Ok((vec![0u8; 16], 2, 2))).unwrap(),
        ImageLookup::Cached(_) => panic!("not cached"),
    };
    assert_ne!(h, other);
    let pending = registry.take_pending();
    assert_eq!(pending.len(), 2);
    assert_eq!((pending[1].id, pending[1].width, pending[1].height), (other.0, 2, 2));
    assert!(registry.take_pending().is_empty());
}

#[test]
fn svg_cache_key_format() {
    assert_eq!(svg_key("icons/a.svg", 16, 240), "svg:icons/a.svg@16x240");
}

// ---- small value types -------------------------------------------------------------

#[test]
fn window_config_defaults() {
    let c = WindowConfig::default();
    assert_eq!(c.title, "webgpui");
    assert_eq!((c.width, c.height, c.resizable, c.vsync), (800, 600, true, true));
    let n = WindowConfig::new("demo", 320, 200);
    assert_eq!(n.title, "demo");
    assert_eq!((n.width, n.height, n.resizable, n.vsync), (320, 200, true, true));
}

#[test]
fn platform_error_messages() {
    assert_eq!(PlatformError::EventLoop("x".to_string()).message(), "event loop error: x");
    assert_eq!(
        PlatformError::WindowCreation("y".to_string()).message(),
        "failed to create window: y"
    );
}

#[test]
fn layout_defaults() {
    assert_eq!(Direction::default(), Direction::Column);
    assert_eq!(PositionType::default(), PositionType::Stack);
}

#[test]
fn contains_str_finds_runs() {
    assert!(contains_str("Exit Failure: 1", "Exit Failure"));
    assert!(contains_str("abc", ""));
    assert!(contains_str("abc", "bc"));
    assert!(!contains_str("abc", "abcd"));
    assert!(!contains_str("ExitFailur", "ExitFailure"));
}

#[test]
fn run_exit_result_classifies_loop_errors() {
    assert!(run_exit_result(None, false, false).is_ok());
    assert!(run_exit_result(Some("ExitFailure(1)"), true, true).is_ok());
    match run_exit_result(Some("Exit Failure: 1"), false, false) {
        Err(AppError::EventLoop(m)) => assert_eq!(
            m,
            "display backend disconnected before first frame (e.g. WSLg/Wayland pipe closed)"
        ),
        _ => panic!("expected an event-loop error"),
    }
    match run_exit_result(Some("Exit Failure: 1"), false, true) {
        Err(AppError::EventLoop(m)) => assert_eq!(m, "Exit Failure: 1"),
        _ => panic!("expected an event-loop error"),
    }
    match run_exit_result(Some("os error 2"), true, false) {
        Err(AppError::EventLoop(m)) => assert_eq!(m, "os error 2"),
        _ => panic!("expected an event-loop error"),
    }
}

/// Loads `path` through the registry, standing in for a decoded 4x4 image.
fn load_4x4(registry: &mut ImageRegistry, path: &str) -> ImageHandle {
    match registry.load(path) {
        ImageLookup::Cached(h) => h,
        ImageLookup::Decode(k) => registry.finish(&k, Ok((vec![0u8; 64], 4, 4))).unwrap(),
    }
}

/// Loads an SVG through the registry, standing in for its rasterized pixels.
fn load_svg_pixels(registry: &mut ImageRegistry, path: &str, w: u32, h: u32) -> ImageHandle {
    match registry.load_svg(path, w, h) {
        ImageLookup::Cached(handle) => handle,
        ImageLookup::Decode(k) => {
            registry.finish(&k, Ok((vec![0u8; (w * h * 4) as usize], w, h))).unwrap()
        },
    }
}

#[test]
fn image_registry_different_paths_get_different_handles() {
    let mut reg = ImageRegistry::new();
    let h1 = load_4x4(&mut reg, "webgpui_test_diff1.png");
    let h2 = load_4x4(&mut reg, "webgpui_test_diff2.png");
    assert_ne!(h1, h2);
    assert_eq!(reg.take_pending().len(), 2);
}

#[test]
fn image_registry_invalid_path_returns_error() {
    let mut reg = ImageRegistry::new();
    let key = match reg.load("nonexistent_webgpui_image.png") {
        ImageLookup::Decode(k) => k,
        ImageLookup::Cached(_) => panic!("nothing is cached yet"),
    };
    let result = reg.finish(&key, Err(AppError::ImageLoad("No such file or directory".to_string())));
    assert!(result.is_err());
}

#[test]
fn image_registry_take_pending_drains_queue() {
    let mut reg = ImageRegistry::new();
    load_4x4(&mut reg, "webgpui_test_drain.png");
    let first = reg.take_pending();
    assert_eq!(first.len(), 1);
    assert_eq!(first[0].width, 4);
    assert_eq!(first[0].height, 4);
    assert!(reg.take_pending().is_empty());
}

#[test]
fn svg_load_same_path_size_returns_cached_handle() {
    let mut reg = ImageRegistry::new();
    let h1 = load_svg_pixels(&mut reg, "webgpui_test_svg_cache.svg", 16, 16);
    let h2 = load_svg_pixels(&mut reg, "webgpui_test_svg_cache.svg", 16, 16);
    assert_eq!(h1, h2);
    assert_eq!(reg.take_pending().len(), 1);
}

#[test]
fn svg_load_different_sizes_get_different_handles() {
    let mut reg = ImageRegistry::new();
    let h1 = load_svg_pixels(&mut reg, "webgpui_test_svg_sizes.svg", 16, 16);
    let h2 = load_svg_pixels(&mut reg, "webgpui_test_svg_sizes.svg", 32, 32);
    assert_ne!(h1, h2);
    assert_eq!(reg.take_pending().len(), 2);
}

#[test]
fn svg_load_invalid_svg_returns_error() {
    let mut reg = ImageRegistry::new();
    let key = match reg.load_svg("webgpui_test_bad.svg", 16, 16) {
        ImageLookup::Decode(k) => k,
        ImageLookup::Cached(_) => panic!("nothing is cached yet"),
    };
    let result = reg.finish(&key, Err(AppError::SvgLoad("not valid svg content".to_string())));
    assert!(result.is_err());
    assert!(reg.take_pending().is_empty());
}

/// A 2x1 PNG: one opaque red pixel, then one half-transparent blue pixel.
fn tiny_png() -> Vec<u8> {
    let pixels = vec![255u8, 0, 0, 255, 0, 0, 255, 128];
    let img = image::RgbaImage::from_raw(2, 1, pixels).unwrap();
    let mut out = std::io::Cursor::new(Vec::new());
    img.write_to(&mut out, image::ImageFormat::Png).unwrap();
    out.into_inner()
}

#[test]
fn load_bytes_decodes_and_queues_the_pixels() {
    let mut reg = ImageRegistry::new();
    let h = reg.load_bytes("webgpui_test_tiny.png", &tiny_png()).unwrap();
    assert_eq!(h, ImageHandle(0));
    let pending = reg.take_pending();
    assert_eq!(pending.len(), 1);
    assert_eq!(pending[0].id, 0);
    assert_eq!((pending[0].width, pending[0].height), (2, 1));
    assert_eq!(pending[0].pixels, vec![255u8, 0, 0, 255, 0, 0, 255, 128]);
}

#[test]
fn load_bytes_same_path_is_cached_without_decoding() {
    let mut reg = ImageRegistry::new();
    let h1 = reg.load_bytes("webgpui_test_cached.png", &tiny_png()).unwrap();
    let h2 = reg.load_bytes("webgpui_test_cached.png", b"not an image").unwrap();
    assert_eq!(h1, h2);
    assert_eq!(reg.take_pending().len(), 1);
}

#[test]
fn load_bytes_rejects_undecodable_bytes() {
    let mut reg = ImageRegistry::new();
    match reg.load_bytes("webgpui_test_garbage.png", b"not an image") {
        Err(AppError::ImageLoad(_)) => {},
        _ => panic!("expected an image-load error"),
    }
    assert!(reg.take_pending().is_empty());
    assert_eq!(reg.next_id(), 0);
}

#[test]
fn load_bytes_rejects_an_unknown_extension() {
    let mut reg = ImageRegistry::new();
    match reg.load_bytes("webgpui_test_tiny.unknownext", &tiny_png()) {
        Err(AppError::ImageLoad(_)) => {},
        _ => panic!("expected an image-load error"),
    }
    assert!(reg.lookup("webgpui_test_tiny.unknownext").is_none());
}

#[test]
fn finish_hands_back_the_decoding_error() {
    let mut reg = ImageRegistry::new();
    let key = match reg.load_svg("webgpui_test_err.svg", 8, 8) {
        ImageLookup::Decode(k) => k,
        ImageLookup::Cached(_) => panic!("nothing is cached yet"),
    };
    match reg.finish(&key, Err(AppError::SvgLoad("bad svg data".to_string()))) {
        Err(AppError::SvgLoad(m)) => assert_eq!(m, "bad svg data"),
        other => panic!("expected the SVG-load error back, got {other:?}"),
    }
    assert_eq!(reg.next_id(), 0);
    assert!(reg.lookup(&key).is_none());
    assert!(reg.take_pending().is_empty());
}
