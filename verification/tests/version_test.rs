use nve::commands::{parse_spec, resolve_installed};
use nve::version::{matches_semver, ParsedVersion};

#[test]
fn parse_valido_major() {
    let v = ParsedVersion::parse("18").expect("ok");
    assert_eq!(v.major, 18);
    assert_eq!(v.minor, None);
    assert_eq!(v.patch, None);
    assert_eq!(v.full_version, "18");
}

#[test]
fn parse_valido_major_minor() {
    let v = ParsedVersion::parse("18.19").expect("ok");
    assert_eq!(v.major, 18);
    assert_eq!(v.minor, Some(19));
    assert_eq!(v.patch, None);
    assert_eq!(v.full_version, "18.19");
}

#[test]
fn parse_valido_major_minor_patch() {
    let v = ParsedVersion::parse("18.19.1").expect("ok");
    assert_eq!(v.major, 18);
    assert_eq!(v.minor, Some(19));
    assert_eq!(v.patch, Some(1));
    assert_eq!(v.full_version, "18.19.1");
}

#[test]
fn parse_invalido_varios() {
    for s in ["", ".", "a", "1.", "1.a", "1.2.", "1.2.a", "1.2.3.4"] {
        assert!(ParsedVersion::parse(s).is_err(), "debería fallar: {s}");
    }
}

#[test]
fn parse_rejects_sign_and_overflow() {
    assert!(ParsedVersion::parse("+18").is_err());
    assert!(ParsedVersion::parse("18446744073709551615").is_ok());
    assert!(ParsedVersion::parse("18446744073709551616").is_err());
    assert!(ParsedVersion::parse("018.2").is_ok());
}

#[test]
fn parse_error_message_quotes_input() {
    let e = ParsedVersion::parse("1.2.3.4").unwrap_err();
    assert_eq!(e, "Formato inválido: '1.2.3.4'");
}

#[test]
fn matches_major_solo_cubre_todas_las_menores_y_patches() {
    let spec = ParsedVersion::parse("18").unwrap();
    assert!(matches_semver("18.0.0", &spec));
    assert!(matches_semver("18.19.1", &spec));
    assert!(matches_semver("18.99.99", &spec));
    assert!(!matches_semver("17.9.9", &spec));
    assert!(!matches_semver("19.0.0", &spec));
}

#[test]
fn matches_major_minor_cubre_todos_los_patches_de_esa_menor() {
    let spec = ParsedVersion::parse("20.3").unwrap();
    assert!(matches_semver("20.3.0", &spec));
    assert!(matches_semver("20.3.5", &spec));
    assert!(!matches_semver("20.4.0", &spec));
    assert!(!matches_semver("19.3.0", &spec));
}

#[test]
fn matches_exact_patch_exige_coincidir_los_tres() {
    let spec = ParsedVersion::parse("22.1.7").unwrap();
    assert!(matches_semver("22.1.7", &spec));
    assert!(!matches_semver("22.1.6", &spec));
    assert!(!matches_semver("22.2.7", &spec));
    assert!(!matches_semver("21.1.7", &spec));
}

#[test]
fn matches_acepta_prereleases_y_build_metadata_si_numeros_coinciden() {
    let spec = ParsedVersion::parse("18.19.1").unwrap();
    assert!(matches_semver("18.19.1-beta.1", &spec));
    assert!(matches_semver("18.19.1+build.42", &spec));
    assert!(matches_semver("18.19.1-beta.1+exp.sha", &spec));
}

#[test]
fn matches_devuelve_false_si_ver_no_es_semver_valido() {
    let spec = ParsedVersion::parse("18").unwrap();
    for s in ["", "18.x", "1.2.3.4", "foo", "v18"] {
        assert!(!matches_semver(s, &spec), "no debería machar: {s}");
    }
}

#[test]
fn matches_rejects_leading_zeros_and_empty_idents() {
    let spec = ParsedVersion::parse("18").unwrap();
    for s in ["18.01.0", "18.0.0-", "18.0.0+", "18.0.0-01", "18.0.0-a..b"] {
        assert!(!matches_semver(s, &spec), "no debería machar: {s}");
    }
    assert!(matches_semver("18.0.0-0a.1", &spec));
    assert!(matches_semver("18.0.0+007", &spec));
}

#[test]
fn parse_spec_ok_y_err() {
    let ok = parse_spec("23.2.1").unwrap();
    assert_eq!(ok.major, 23);
    assert_eq!(ok.minor, Some(2));
    assert_eq!(ok.patch, Some(1));
    assert!(parse_spec("foo").is_err());
    assert!(parse_spec("1.2.3.4").is_err());
}

#[test]
fn resolve_installed_cases() {
    let installed = vec![
        "23.1.0".to_string(),
        "23.2.0".to_string(),
        "23.2.1".to_string(),
        "22.9.9".to_string(),
    ];
    let spec = ParsedVersion::parse("23").unwrap();
    assert_eq!(resolve_installed(&installed, &spec).as_deref(), Some("23.2.1"));
    let spec_minor = ParsedVersion::parse("23.2").unwrap();
    assert_eq!(resolve_installed(&installed, &spec_minor).as_deref(), Some("23.2.1"));
    let spec_exact = ParsedVersion::parse("22.9.9").unwrap();
    assert_eq!(resolve_installed(&installed, &spec_exact).as_deref(), Some("22.9.9"));
    let spec_none = ParsedVersion::parse("24").unwrap();
    assert!(resolve_installed(&installed, &spec_none).is_none());
}

#[test]
fn resolve_installed_prefers_release_over_prerelease() {
    let installed = vec![
        "23.2.1-rc.1".to_string(),
        "23.2.1".to_string(),
        "23.2.1-alpha".to_string(),
    ];
    let spec = ParsedVersion::parse("23").unwrap();
    assert_eq!(resolve_installed(&installed, &spec).as_deref(), Some("23.2.1"));
}

#[test]
fn resolve_installed_orders_prereleases_numerically() {
    let installed = vec![
        "9.0.0-alpha.2".to_string(),
        "9.0.0-alpha.11".to_string(),
        "9.0.0-alpha".to_string(),
    ];
    let spec = ParsedVersion::parse("9").unwrap();
    assert_eq!(resolve_installed(&installed, &spec).as_deref(), Some("9.0.0-alpha.11"));
}

#[test]
fn resolve_installed_ignores_unparsable_names() {
    let installed = vec!["not-a-version".to_string(), "v23.1.0".to_string()];
    let spec = ParsedVersion::parse("23").unwrap();
    assert!(resolve_installed(&installed, &spec).is_none());
}
