use ready_paint::wgsl::str_contains;
use ready_paint::wgsl::validate_wgsl;

const GOOD: &str = "\
@vertex
fn vs_main(@location(0) position: vec3<f32>) -> @builtin(position) vec4<f32> {
    return vec4<f32>(position, 1.0);
}
@fragment
fn fs_main() -> @location(0) vec4<f32> {
    return vec4<f32>(0.1, 0.2, 0.3, 1.0);
}
";

#[test]
fn well_formed_shader_is_accepted() {
    assert!(validate_wgsl(GOOD));
}

#[test]
fn missing_vertex_entry_is_rejected() {
    let source = GOOD.replace("fn vs_main", "fn vertex_main");
    assert!(!validate_wgsl(&source));
}

#[test]
fn missing_fragment_entry_is_rejected() {
    let source = GOOD.replace("fn fs_main", "fn frag_main");
    assert!(!validate_wgsl(&source));
}

#[test]
fn missing_marker_attribute_is_rejected() {
    let source = GOOD.replace("@builtin", "@built_in");
    assert!(!validate_wgsl(&source));
}

#[test]
fn containment_by_characters() {
    assert!(str_contains("hello world", "lo w"));
    assert!(str_contains("hello", "hello"));
    assert!(str_contains("hello", ""));
    assert!(str_contains("", ""));
    assert!(!str_contains("hello", "hello!"));
    assert!(!str_contains("abc", "ac"));
    assert!(!str_contains("", "a"));
}
