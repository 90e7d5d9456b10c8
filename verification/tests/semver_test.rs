use nve::commands::resolve_installed;
use nve::semver::parse_semver;
use nve::version::ParsedVersion;

#[test]
fn validity_agrees_with_the_semver_crate() {
    let cases = [
        "1.2.3",
        "01.2.3",
        "1.02.3",
        "1.2.3-0",
        "1.2.3-00",
        "1.2.3-0a",
        "1.2.3-",
        "1.2.3+",
        "1.2.3+0",
        "1.2.3--",
        "1.2.3-a..b",
        "1.2.3-alpha.1+build.42",
        "1.2.3+b-2",
        "1.2.3.4",
        "v1.2.3",
        "1.2",
        "",
        "18446744073709551615.0.0",
        "18446744073709551616.0.0",
    ];
    for s in cases {
        let mine = parse_semver(s);
        let theirs = semver::Version::parse(s);
        assert_eq!(mine.is_some(), theirs.is_ok(), "disagree on {s:?}");
        if let (Some(m), Ok(t)) = (mine, theirs) {
            assert_eq!(m.major, t.major, "{s:?}");
            assert_eq!(m.minor, t.minor, "{s:?}");
            assert_eq!(m.patch, t.patch, "{s:?}");
        }
    }
}

#[test]
fn best_match_agrees_with_the_semver_crate_order() {
    let names = [
        "1.0.0-alpha",
        "1.0.0-alpha.1",
        "1.0.0-alpha.beta",
        "1.0.0-beta",
        "1.0.0-beta.2",
        "1.0.0-beta.11",
        "1.0.0-rc.1",
        "1.0.0",
        "1.0.0+bc17664",
        "1.0.0+c144a98",
        "1.0.1",
        "1.2.0-1.a",
        "1.2.0-a-1",
    ];
    let sel = ParsedVersion::parse("1").unwrap();
    for a in names {
        for b in names {
            if a == b {
                continue;
            }
            let installed = vec![a.to_string(), b.to_string()];
            let got = resolve_installed(&installed, &sel).unwrap();
            let va = semver::Version::parse(a).unwrap();
            let vb = semver::Version::parse(b).unwrap();
            let expected = if va < vb { b } else { a };
            assert_eq!(got, expected, "max of {a:?} and {b:?}");
        }
    }
}
