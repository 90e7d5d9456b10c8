use nve::error::NveError;

#[test]
fn display_de_variantes_simples_y_helpers() {
    assert_eq!(
        NveError::HomeDirNotFound.message(),
        "No se pudo encontrar el directorio HOME del usuario"
    );
    assert!(NveError::InvalidVersionFormat("18.x".into())
        .message()
        .contains("Formato de versión inválido"));
    assert!(NveError::VersionNotFound("23.9.9".into())
        .message()
        .contains("No se encontró la versión solicitada"));
    assert!(NveError::VersionNotInstalled("20.0.0".into())
        .message()
        .contains("La versión no está instalada"));
    assert_eq!(
        NveError::NoCurrentVersion.message(),
        "No hay versión activa configurada"
    );
    assert!(NveError::invalid_layout("/tmp/fake")
        .message()
        .contains("La ruta no pertenece a una instalación válida de Node"));

    assert_eq!(
        NveError::ConcurrencyConflict.message(),
        "Conflicto de concurrencia: operación en curso"
    );
    assert!(NveError::PlatformUnsupported("symlink")
        .message()
        .contains("Operación específica de la plataforma no soportada"));

    assert!(NveError::artifact_unavailable("http://example.com/x.zip")
        .message()
        .contains("El artefacto remoto no está disponible"));
    assert!(NveError::extract_err("boom")
        .message()
        .contains("Error extrayendo el archivo"));

    let msg = NveError::archive_name_build_failed("win", "x64").message();
    assert!(
        msg.contains(
            "Error resolviendo nombre de archivo del artefacto para la plataforma win-x64"
        ),
        "{msg}"
    );
}

#[test]
fn unix_symlink_error_display() {
    assert!(NveError::SymlinkError("permiso denegado".into())
        .message()
        .contains("No se pudo crear/actualizar enlace simbólico"));
}

#[test]
fn wrapped_error_messages_carry_payload() {
    let io = NveError::Io("iofail".into()).message();
    assert!(io.contains("Error de entrada/salida"));
    assert!(io.contains("iofail"));
    let json = NveError::Json("not-json".into()).message();
    assert!(json.contains("Error parseando/serializando JSON"));
    let sem = NveError::Semver("bad.version".into()).message();
    assert!(sem.contains("Error semver"));
    let http = NveError::Http("builder error".into()).message();
    assert!(http.starts_with("Error HTTP/Red:"));
    assert_eq!(
        NveError::SetCurrentFailed.message(),
        "Error estableciendo versión actual (atomic set)"
    );
}
