use nve::constants::{NODEJS_DIR, VERSION_DIR};
use nve::layout::NveLayout;

#[test]
fn versions_dir_joins_base_and_constant() {
    let base = "/tmp/nve_layout_base".to_string();
    let layout = NveLayout { base: base.clone() };

    let expected = format!("{}/{}", base, VERSION_DIR);
    assert_eq!(layout.versions_dir(), expected);
    assert_eq!(layout.base, base);
}

#[test]
fn current_dir_points_to_nodejs_dir_under_base() {
    let base = "/tmp/nve_layout_base".to_string();
    let layout = NveLayout { base: base.clone() };

    let expected = format!("{}/{}", base, NODEJS_DIR);
    assert_eq!(layout.current_dir(), expected);
}

#[test]
fn version_dir_appends_version_under_versions_dir() {
    let base = "/tmp/nve_layout_base".to_string();
    let layout = NveLayout { base: base.clone() };

    let v = "node-v23.1.0-win-x64";
    let expected = format!("{}/{}/{}", base, VERSION_DIR, v);

    assert_eq!(layout.version_dir(v), expected);
    assert_eq!(layout.version_dir(v), format!("{}/{}", layout.versions_dir(), v));
}

#[test]
fn paths_are_portable_pathbuf_joins_not_string_concat() {
    let base = "some/base".to_string();
    let layout = NveLayout { base: base.clone() };

    assert_eq!(layout.versions_dir(), format!("{}/{}", base, VERSION_DIR));
    assert_eq!(layout.current_dir(), format!("{}/{}", base, NODEJS_DIR));
}

#[test]
fn constants_hold_the_fixed_names() {
    assert_eq!(VERSION_DIR, "versions");
    assert_eq!(NODEJS_DIR, "nodejs");
    assert_eq!(nve::constants::NODEJS_API_BASE, "https://nodejs.org/dist");
    assert_eq!(nve::constants::NODEJS_API_INDEX, "https://nodejs.org/dist/index.json");
}
