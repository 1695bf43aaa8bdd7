use inox2d_mcp::params::{LoadPuppetParams, ParamValue, RenderParams, SetParamParams};
use inox2d_mcp::session::{InoxSession, RenderPlan, ToolError};

fn names(list: &[&str]) -> Vec<String> {
    list.iter().map(|s| s.to_string()).collect()
}

fn set(name: &str, x: f32, y: Option<f32>) -> SetParamParams {
    SetParamParams { name: name.to_string(), x_bits: x.to_bits(), y_bits: y.map(f32::to_bits) }
}

fn render(width: Option<u32>, height: Option<u32>) -> RenderParams {
    RenderParams { width, height, output_path: None, dt_bits: None }
}

fn loaded() -> InoxSession<&'static str> {
    let mut s = InoxSession::new();
    s.load(
        "gl",
        Some("Aka".to_string()),
        names(&["Head:: Yaw-Pitch", "Eye:: Left:: Blink", "Eye:: Right:: Blink"]),
        4,
        800,
        800,
    );
    s
}

fn value_of(s: &InoxSession<&'static str>, name: &str) -> Option<ParamValue> {
    let p = s.puppet().ok().unwrap();
    p.override_entries().into_iter().find(|(n, _)| n == name).map(|(_, v)| v)
}

#[test]
fn new_session_has_no_puppet() {
    let s: InoxSession<()> = InoxSession::new();
    assert!(!s.is_loaded());
    assert!(matches!(s.puppet(), Err(ToolError::NoPuppetLoaded)));
}

#[test]
fn tools_before_load_are_refused_and_change_nothing() {
    let mut s: InoxSession<()> = InoxSession::new();
    let r = s.set_param(set("Head:: Yaw-Pitch", 1.0, Some(0.0)));
    assert!(matches!(r, Err(ToolError::NoPuppetLoaded)));
    let r = s.prepare_render(&render(Some(100), Some(100)));
    assert!(matches!(r, Err(ToolError::NoPuppetLoaded)));
    assert!(s.resources_mut().is_none());
    assert!(!s.is_loaded());
}

#[test]
fn no_puppet_message() {
    assert_eq!(ToolError::NoPuppetLoaded.message(), "No puppet loaded. Call load_puppet first.");
}

#[test]
fn load_reports_summary() {
    let mut s = InoxSession::new();
    let summary = s.load((), Some("Aka".to_string()), names(&["a", "b"]), 3, 640, 480);
    assert_eq!(summary.name, "Aka");
    assert_eq!(summary.param_count, 2);
    assert_eq!(summary.texture_count, 3);
    assert_eq!(summary.render_width, 640);
    assert_eq!(summary.render_height, 480);
    assert!(s.is_loaded());
}

#[test]
fn load_of_unnamed_puppet() {
    let mut s = InoxSession::new();
    let summary = s.load((), None, Vec::new(), 0, 800, 800);
    assert_eq!(summary.name, "<unnamed>");
    assert_eq!(summary.param_count, 0);
}

#[test]
fn load_counts_each_parameter_name_once() {
    let mut s = InoxSession::new();
    let summary = s.load((), None, names(&["a", "b", "a", "c", "b"]), 0, 1, 1);
    assert_eq!(summary.param_count, 3);
}

#[test]
fn load_default_size_is_800() {
    let p = LoadPuppetParams { path: "puppet.inx".to_string(), width: None, height: None };
    assert_eq!(p.render_size(), (800, 800));
    let p = LoadPuppetParams { path: "puppet.inx".to_string(), width: Some(1024), height: None };
    assert_eq!(p.render_size(), (1024, 800));
    let p = LoadPuppetParams { path: "puppet.inx".to_string(), width: None, height: Some(600) };
    assert_eq!(p.render_size(), (800, 600));
}

#[test]
fn set_param_stores_value_read_after_write() {
    let mut s = loaded();
    let v = s.set_param(set("Head:: Yaw-Pitch", 1.0, Some(-0.3))).ok().unwrap();
    assert_eq!(v, ParamValue { x_bits: 1.0f32.to_bits(), y_bits: (-0.3f32).to_bits() });
    assert_eq!(value_of(&s, "Head:: Yaw-Pitch"), Some(v));
    assert_eq!(value_of(&s, "Eye:: Left:: Blink"), None);
}

#[test]
fn set_param_y_defaults_to_zero() {
    let mut s = loaded();
    let v = s.set_param(set("Eye:: Left:: Blink", 0.5, None)).ok().unwrap();
    assert_eq!(f32::from_bits(v.x_bits), 0.5);
    assert_eq!(f32::from_bits(v.y_bits), 0.0);
}

#[test]
fn set_param_unknown_name_is_refused() {
    let mut s = loaded();
    s.set_param(set("Eye:: Right:: Blink", 1.0, None)).ok().unwrap();
    let r = s.set_param(set("Tail:: Wag", 1.0, None));
    match r {
        Err(e) => {
            assert!(matches!(&e, ToolError::UnknownParameter(n) if n == "Tail:: Wag"));
            assert_eq!(e.message(), "No parameter named 'Tail:: Wag'");
        }
        Ok(_) => panic!("unknown parameter accepted"),
    }
    let entries = s.puppet().ok().unwrap().override_entries();
    assert_eq!(entries.len(), 1);
    assert_eq!(entries[0].0, "Eye:: Right:: Blink");
}

#[test]
fn last_set_wins() {
    let mut s = loaded();
    s.set_param(set("Head:: Yaw-Pitch", 1.0, Some(0.0))).ok().unwrap();
    s.set_param(set("Head:: Yaw-Pitch", -1.0, Some(0.0))).ok().unwrap();
    let v = value_of(&s, "Head:: Yaw-Pitch").unwrap();
    assert_eq!(f32::from_bits(v.x_bits), -1.0);
    assert_eq!(s.puppet().ok().unwrap().override_entries().len(), 1);
}

#[test]
fn sets_of_different_params_commute() {
    let mut a = loaded();
    a.set_param(set("Eye:: Left:: Blink", 1.0, None)).ok().unwrap();
    a.set_param(set("Eye:: Right:: Blink", 0.25, None)).ok().unwrap();
    let mut b = loaded();
    b.set_param(set("Eye:: Right:: Blink", 0.25, None)).ok().unwrap();
    b.set_param(set("Eye:: Left:: Blink", 1.0, None)).ok().unwrap();
    for name in ["Eye:: Left:: Blink", "Eye:: Right:: Blink", "Head:: Yaw-Pitch"] {
        assert_eq!(value_of(&a, name), value_of(&b, name));
    }
}

#[test]
fn reload_clears_values_set() {
    let mut s = loaded();
    s.set_param(set("Head:: Yaw-Pitch", 1.0, Some(0.0))).ok().unwrap();
    s.load("gl2", None, names(&["Head:: Yaw-Pitch"]), 1, 400, 300);
    assert!(s.puppet().ok().unwrap().override_entries().is_empty());
    assert_eq!(*s.resources_mut().unwrap(), "gl2");
    let plan = s.prepare_render(&render(None, None)).ok().unwrap();
    assert_eq!(plan, RenderPlan { width: 400, height: 300, resize: false });
}

#[test]
fn render_applies_each_size_given() {
    let mut s = loaded();
    let plan = s.prepare_render(&render(Some(1600), None)).ok().unwrap();
    assert_eq!(plan, RenderPlan { width: 1600, height: 800, resize: true });
    let plan = s.prepare_render(&render(None, Some(1200))).ok().unwrap();
    assert_eq!(plan, RenderPlan { width: 1600, height: 1200, resize: true });
    let plan = s.prepare_render(&render(Some(640), Some(480))).ok().unwrap();
    assert_eq!(plan, RenderPlan { width: 640, height: 480, resize: true });
    let plan = s.prepare_render(&render(None, None)).ok().unwrap();
    assert_eq!(plan, RenderPlan { width: 640, height: 480, resize: false });
}

#[test]
fn repeated_render_requests_change_nothing_more() {
    let mut s = loaded();
    s.set_param(set("Head:: Yaw-Pitch", 0.25, None)).ok().unwrap();
    let first = s.prepare_render(&render(Some(300), None)).ok().unwrap();
    let second = s.prepare_render(&render(Some(300), None)).ok().unwrap();
    assert_eq!(first.width, second.width);
    assert_eq!(first.height, second.height);
    assert_eq!(s.puppet().ok().unwrap().override_entries().len(), 1);
}

#[test]
fn render_keeps_values_set() {
    let mut s = loaded();
    s.set_param(set("Head:: Yaw-Pitch", 0.5, Some(-0.3))).ok().unwrap();
    s.prepare_render(&render(Some(10), Some(10))).ok().unwrap();
    let v = value_of(&s, "Head:: Yaw-Pitch").unwrap();
    assert_eq!(f32::from_bits(v.x_bits), 0.5);
    assert_eq!(f32::from_bits(v.y_bits), -0.3);
}

#[test]
fn resources_can_be_used_for_drawing() {
    let mut s = InoxSession::new();
    s.load(vec![1u8], None, names(&["a"]), 0, 2, 2);
    s.resources_mut().unwrap().push(2);
    assert_eq!(s.puppet().ok().unwrap().resources, vec![1u8, 2]);
}

#[test]
fn render_failure_message() {
    let e = ToolError::RenderFailed("zero-sized image".to_string());
    assert_eq!(e.message(), "Render failed: Failed to encode PNG: zero-sized image");
}

#[test]
fn render_params_size_after_and_dt() {
    let p = RenderParams { width: Some(3), height: Some(4), output_path: None, dt_bits: Some(0.5f32.to_bits()) };
    assert_eq!(p.size_after(10, 20), Some((3, 4)));
    assert_eq!(f32::from_bits(p.dt_bits_or_zero()), 0.5);
    let p = render(Some(3), None);
    assert_eq!(p.size_after(10, 20), Some((3, 20)));
    let p = render(None, Some(4));
    assert_eq!(p.size_after(10, 20), Some((10, 4)));
    let p = render(None, None);
    assert_eq!(p.size_after(10, 20), None);
    assert_eq!(f32::from_bits(p.dt_bits_or_zero()), 0.0);
}
