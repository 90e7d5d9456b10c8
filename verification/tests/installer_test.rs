use nve::constants::NODEJS_API_BASE;
use nve::error::NveError;
use nve::installer::{InstallService, InstallStep};
use nve::layout::NveLayout;
use nve::release::NodeRelease;
use nve::resolver::resolve;
use nve::version::ParsedVersion;

fn catalog(tags: &[&str]) -> Vec<NodeRelease> {
    tags.iter()
        .map(|t| NodeRelease {
            version: t.to_string(),
            date: "2024-01-01".to_string(),
            files: vec!["linux-x64".to_string()],
        })
        .collect()
}

#[test]
fn resolves_latest_matching_major() {
    let releases = catalog(&["v20.11.1", "v20.10.0", "v18.19.1"]);
    let spec = ParsedVersion::parse("20").unwrap();
    let exact = resolve(&releases, &spec).unwrap();
    assert_eq!(exact, "20.11.1");
}

#[test]
fn resolve_toma_la_primera_coincidencia_en_orden_de_catalogo() {
    let releases = catalog(&["v21.0.0", "v20.10.0", "v20.11.1"]);
    let spec = ParsedVersion::parse("20").unwrap();
    assert_eq!(resolve(&releases, &spec).unwrap(), "20.10.0");
}

#[test]
fn resolve_ignora_tags_sin_prefijo_v() {
    let releases = catalog(&["20.11.1", "v20.10.0"]);
    let spec = ParsedVersion::parse("20").unwrap();
    assert_eq!(resolve(&releases, &spec).unwrap(), "20.10.0");
}

#[test]
fn resolve_error_cuando_nada_coincide() {
    let releases = catalog(&["v20.11.1"]);
    let spec = ParsedVersion::parse("99").unwrap();
    match resolve(&releases, &spec).unwrap_err() {
        NveError::VersionNotFound(s) => assert_eq!(s, "99"),
        other => panic!("esperaba VersionNotFound, fue {:?}", other),
    }
}

#[test]
fn install_step_ya_instalada_no_pide_nada() {
    let svc = InstallService { layout: NveLayout { base: "/tmp/nve_base".to_string() } };
    let step = svc.install_step("23.1.0", "node-v23.1.0-linux-x64.tar.xz", true);
    assert!(matches!(step, InstallStep::AlreadyInstalled));
}

#[test]
fn install_step_construye_la_url_de_descarga() {
    let svc = InstallService { layout: NveLayout { base: "/tmp/nve_base".to_string() } };
    let name = "node-v23.2.1-linux-x64.tar.xz";
    let step = svc.install_step("23.2.1", name, false);
    match step {
        InstallStep::Download { url } => {
            assert_eq!(url, format!("{}/v{}/{}", NODEJS_API_BASE, "23.2.1", name));
        },
        other => panic!("esperaba Download, fue {:?}", other),
    }
}

#[test]
fn download_url_exacta() {
    let url = InstallService::download_url("23.2.1", "node-v23.2.1-win-x64.zip");
    assert_eq!(url, "https://nodejs.org/dist/v23.2.1/node-v23.2.1-win-x64.zip");
}
