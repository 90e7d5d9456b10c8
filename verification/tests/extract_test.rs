use std::io::{Cursor, Write};

use tar::{Builder, Header};
use xz2::write::XzEncoder;
use zip::write::SimpleFileOptions as FileOptions;
use zip::{CompressionMethod, ZipWriter};

use nve::archive::{TarXzArchive, ZipArchive};
use nve::error::NveError;
use nve::extract::{plan_extraction, ExtractAction, RawEntry};

fn rel_of(a: &ExtractAction) -> Vec<String> {
    match a {
        ExtractAction::MakeDir { rel } => rel.clone(),
        ExtractAction::WriteFile { rel, .. } => rel.clone(),
    }
}

fn file_data<'a>(actions: &'a [ExtractAction], rel: &[&str]) -> Option<&'a [u8]> {
    for a in actions {
        if let ExtractAction::WriteFile { rel: r, data } = a {
            if r.iter().map(|s| s.as_str()).collect::<Vec<_>>() == rel {
                return Some(data.as_slice());
            }
        }
    }
    None
}

fn entry(path: &str, is_dir: bool, data: &[u8]) -> RawEntry {
    RawEntry { path: path.to_string(), is_dir, data: data.to_vec() }
}

fn build_zip_bytes_with_root(root: &str) -> Vec<u8> {

    let cursor = Cursor::new(Vec::<u8>::new());
    let mut w = ZipWriter::new(cursor);

    let opts_dir = FileOptions::default().compression_method(CompressionMethod::Stored);
    let opts_deflated = FileOptions::default().compression_method(CompressionMethod::Deflated);

    w.add_directory(format!("{root}/"), opts_dir).unwrap();
    w.add_directory(format!("{root}/bin/"), opts_dir).unwrap();

    w.start_file(format!("{root}/bin/node.exe"), opts_deflated).unwrap();
    w.write_all(b"exe").unwrap();

    w.start_file(format!("{root}/README.md"), opts_deflated).unwrap();
    w.write_all(b"# demo\n").unwrap();

    let cursor = w.finish().unwrap();
    cursor.into_inner()
}

fn build_tar_xz_bytes(root_dir: &str) -> Vec<u8> {

    let mut out = Vec::new();
    {
        let enc = XzEncoder::new(&mut out, 6);
        let mut tar = Builder::new(enc);

        let mut dir_hdr = Header::new_gnu();
        dir_hdr.set_entry_type(tar::EntryType::Directory);
        dir_hdr.set_mode(0o755);
        dir_hdr.set_size(0);
        dir_hdr.set_cksum();
        tar.append_data(&mut dir_hdr, format!("{}/", root_dir), &[][..]).unwrap();

        let node_contents = b"binary-node";
        let mut node_hdr = Header::new_gnu();
        node_hdr.set_entry_type(tar::EntryType::Regular);
        node_hdr.set_mode(0o755);
        node_hdr.set_size(node_contents.len() as u64);
        node_hdr.set_cksum();
        tar.append_data(&mut node_hdr, format!("{}/bin/node", root_dir), &node_contents[..])
            .unwrap();

        let readme = b"# demo\n";
        let mut readme_hdr = Header::new_gnu();
        readme_hdr.set_entry_type(tar::EntryType::Regular);
        readme_hdr.set_mode(0o644);
        readme_hdr.set_size(readme.len() as u64);
        readme_hdr.set_cksum();
        tar.append_data(&mut readme_hdr, format!("{}/README.md", root_dir), &readme[..]).unwrap();

        let enc = tar.into_inner().unwrap();
        enc.finish().unwrap();
    }
    out
}

#[test]
fn zip_plan_aplana_y_preserva_contenido() {
    let data = build_zip_bytes_with_root("node-v23.11.1-win-x64");
    let ar = ZipArchive::new().unwrap();
    let plan = ar.extract_plan(&data).unwrap();

    assert_eq!(file_data(&plan, &["bin", "node.exe"]), Some(&b"exe"[..]));
    assert_eq!(file_data(&plan, &["README.md"]), Some(&b"# demo\n"[..]));
    for a in &plan {
        assert_ne!(rel_of(a)[0], "node-v23.11.1-win-x64");
    }
}

#[test]
fn tar_xz_plan_aplana_y_preserva_contenido() {
    let data = build_tar_xz_bytes("node-v23.11.1-darwin-arm64");
    let ar = TarXzArchive::new().unwrap();
    let plan = ar.extract_plan(&data).unwrap();

    assert_eq!(file_data(&plan, &["bin", "node"]), Some(&b"binary-node"[..]));
    assert_eq!(file_data(&plan, &["README.md"]), Some(&b"# demo\n"[..]));
    for a in &plan {
        assert_ne!(rel_of(a)[0], "node-v23.11.1-darwin-arm64");
    }
}

#[test]
fn zip_plan_falla_con_zip_vacio() {

    let cursor = Cursor::new(Vec::<u8>::new());
    let w = ZipWriter::new(cursor);
    let data = w.finish().unwrap().into_inner();

    let ar = ZipArchive::new().unwrap();
    let err = ar.extract_plan(&data).unwrap_err();
    match err {
        NveError::ExtractError(m) => assert_eq!(m, "empty archive"),
        other => panic!("esperaba ExtractError, fue {:?}", other),
    }
}

#[test]
fn zip_plan_falla_con_zip_solo_con_carpeta_raiz() {

    let cursor = Cursor::new(Vec::<u8>::new());
    let mut w = ZipWriter::new(cursor);
    let opts_dir = FileOptions::default().compression_method(CompressionMethod::Stored);
    w.add_directory("node-vY-win-x64/", opts_dir).unwrap();
    let data = w.finish().unwrap().into_inner();

    let ar = ZipArchive::new().unwrap();
    let err = ar.extract_plan(&data).unwrap_err();
    match err {
        NveError::ExtractError(m) => assert_eq!(m, "empty archive"),
        other => panic!("esperaba ExtractError, fue {:?}", other),
    }
}

#[test]
fn zip_plan_ignora_archivos_en_raiz_pero_extrae_contenido_util() {

    let cursor = Cursor::new(Vec::<u8>::new());
    let mut w = ZipWriter::new(cursor);
    let opts_dir = FileOptions::default().compression_method(CompressionMethod::Stored);
    let opts_deflated = FileOptions::default().compression_method(CompressionMethod::Deflated);

    w.start_file("root.txt", opts_deflated).unwrap();
    w.write_all(b"ignored").unwrap();
    w.add_directory("node-vZ-win-x64/", opts_dir).unwrap();
    w.add_directory("node-vZ-win-x64/bin/", opts_dir).unwrap();
    w.start_file("node-vZ-win-x64/bin/node.exe", opts_deflated).unwrap();
    w.write_all(b"exe").unwrap();
    let data = w.finish().unwrap().into_inner();

    let ar = ZipArchive::new().unwrap();
    let plan = ar.extract_plan(&data).unwrap();
    assert_eq!(file_data(&plan, &["bin", "node.exe"]), Some(&b"exe"[..]));
    assert!(file_data(&plan, &["root.txt"]).is_none());
    for a in &plan {
        assert_ne!(rel_of(a), vec!["root.txt".to_string()]);
    }
}

#[test]
fn zip_plan_falla_con_zip_corrupto() {
    let data = b"\x00\x01not-zip\xff\xff".to_vec();
    let ar = ZipArchive::new().unwrap();
    let err = ar.extract_plan(&data).unwrap_err();
    match err {
        NveError::ExtractError(m) => assert!(!m.is_empty()),
        other => panic!("esperaba ExtractError, fue {:?}", other),
    }
}

#[test]
fn tar_xz_plan_falla_con_archivo_vacio() {
    let mut out = Vec::new();
    {
        let enc = XzEncoder::new(&mut out, 6);
        let tar = Builder::new(enc);
        let enc = tar.into_inner().unwrap();
        enc.finish().unwrap();
    }
    let ar = TarXzArchive::new().unwrap();
    let err = ar.extract_plan(&out).unwrap_err();
    match err {
        NveError::ExtractError(m) => assert_eq!(m, "empty archive"),
        other => panic!("esperaba ExtractError, fue {:?}", other),
    }
}

#[test]
fn plan_extraction_solo_con_wrapper_falla() {
    let entries = vec![entry("wrapper/", true, b"")];
    let err = plan_extraction(&entries).unwrap_err();
    match err {
        NveError::ExtractError(m) => assert_eq!(m, "empty archive"),
        other => panic!("esperaba ExtractError, fue {:?}", other),
    }
}

#[test]
fn plan_extraction_quita_el_wrapper_y_ordena_acciones() {
    let entries = vec![
        entry("wrapper/", true, b""),
        entry("wrapper/bin/", true, b""),
        entry("wrapper/bin/node", false, b"binary-node"),
        entry("wrapper/README.md", false, b"# demo\n"),
    ];
    let plan = plan_extraction(&entries).unwrap();
    assert_eq!(plan.len(), 3);
    assert_eq!(rel_of(&plan[0]), vec!["bin".to_string()]);
    assert!(matches!(plan[0], ExtractAction::MakeDir { .. }));
    assert_eq!(rel_of(&plan[1]), vec!["bin".to_string(), "node".to_string()]);
    assert_eq!(file_data(&plan, &["bin", "node"]), Some(&b"binary-node"[..]));
    assert_eq!(file_data(&plan, &["README.md"]), Some(&b"# demo\n"[..]));
}

#[test]
fn plan_extraction_neutraliza_rutas_peligrosas() {
    let entries = vec![
        entry("wrapper/../../evil", false, b"x"),
        entry("/abs/path/file", false, b"y"),
        entry("wrapper/./bin/../node", false, b"z"),
    ];
    let plan = plan_extraction(&entries).unwrap();
    for a in &plan {
        let rel = rel_of(a);
        assert!(!rel.is_empty());
        for seg in &rel {
            assert!(!seg.is_empty());
            assert_ne!(seg, "..");
            assert_ne!(seg, ".");
        }
    }
    assert_eq!(file_data(&plan, &["evil"]), Some(&b"x"[..]));
    assert_eq!(file_data(&plan, &["path", "file"]), Some(&b"y"[..]));
    assert_eq!(file_data(&plan, &["bin", "node"]), Some(&b"z"[..]));
}
