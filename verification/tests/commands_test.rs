use nve::commands::{resolve_installed_required, sort_versions};
use nve::error::NveError;
use nve::version::ParsedVersion;

#[test]
fn sort_versions_ordena_y_conserva_los_nombres() {
    let input = vec![
        "23.2.1".to_string(),
        "22.9.9".to_string(),
        "23.1.0".to_string(),
        "23.2.0".to_string(),
    ];
    let sorted = sort_versions(&input);
    assert_eq!(
        sorted,
        vec![
            "22.9.9".to_string(),
            "23.1.0".to_string(),
            "23.2.0".to_string(),
            "23.2.1".to_string(),
        ]
    );
}

#[test]
fn sort_versions_con_duplicados_y_vacio() {
    let input = vec!["b".to_string(), "a".to_string(), "b".to_string()];
    let sorted = sort_versions(&input);
    assert_eq!(sorted, vec!["a".to_string(), "b".to_string(), "b".to_string()]);
    assert!(sort_versions(&Vec::new()).is_empty());
}

#[test]
fn resolve_installed_required_reporta_no_instalada() {
    let installed = vec!["23.1.0".to_string()];
    let sel = ParsedVersion::parse("24").unwrap();
    match resolve_installed_required(&installed, &sel).unwrap_err() {
        NveError::VersionNotInstalled(s) => assert_eq!(s, "24"),
        other => panic!("esperaba VersionNotInstalled, fue {:?}", other),
    }
    let sel_ok = ParsedVersion::parse("23").unwrap();
    assert_eq!(resolve_installed_required(&installed, &sel_ok).unwrap(), "23.1.0");
}
