use nve::platform::{
    is_current_target, Activation, Arch, CurrentRef, UnixPlatform, WindowsPlatform, UnixOs,
};

#[test]
fn os_arch_devuelve_los_nombres_de_la_distribucion() {
    let p = UnixPlatform::new(UnixOs::Linux, Arch::X64).unwrap();
    let (os, arch) = p.os_arch();
    assert_eq!(os, "linux");
    assert_eq!(arch, "x64");

    let p = UnixPlatform::new(UnixOs::Darwin, Arch::Arm64).unwrap();
    let (os, arch) = p.os_arch();
    assert_eq!(os, "darwin");
    assert_eq!(arch, "arm64");

    let w = WindowsPlatform::new(Arch::Arm64).unwrap();
    let (os, arch) = w.os_arch();
    assert_eq!(os, "win");
    assert_eq!(arch, "arm64");
}

#[test]
fn archive_name_formatea_con_version_y_plataforma() {
    let p = UnixPlatform::new(UnixOs::Linux, Arch::X64).unwrap();
    let (os, arch) = p.os_arch();

    let v = "23.1.0";
    let name = p.archive_name(v);

    let expected = format!("node-v{}-{}-{}.tar.xz", v, os, arch);
    assert_eq!(name, expected);
}

#[test]
fn windows_archive_and_dir_names() {
    let w = WindowsPlatform::new(Arch::X64).unwrap();
    assert_eq!(w.archive_name("23.1.0"), "node-v23.1.0-win-x64.zip");
    assert_eq!(w.version_dir_name_for("23.1.0"), "node-v23.1.0-win-x64");
}

#[test]
fn is_current_target_compara_segmentos_finales() {
    assert!(is_current_target("/home/u/.nve/versions/23.1.0", "23.1.0"));
    assert!(!is_current_target("/home/u/.nve/versions/23.1.0", "23.2.0"));
    assert!(is_current_target("/a/b/c", "b/c"));
    assert!(!is_current_target("/a/b/c", ""));
    assert!(is_current_target("a//b/", "b"));
    assert!(!is_current_target("1.0", "23.1.0"));
}

#[test]
fn activation_set_current_then_is_current() {
    let mut act = Activation::start();
    assert!(matches!(act.current, CurrentRef::Absent));
    assert!(!act.is_current("v1"));

    act.set_current("/base/versions/v1");
    assert!(act.is_current("v1"));
    assert!(!act.is_current("v2"));

    act.set_current("/base/versions/v2");
    assert!(act.is_current("v2"));
    assert!(!act.is_current("v1"));

    act.clear_active();
    assert!(matches!(act.current, CurrentRef::Empty));
    assert!(!act.is_current("v1"));
    assert!(!act.is_current("v2"));
}
