use vstd::prelude::*;
use vstd::string::StringExecFns;

verus! {

/// The error taxonomy of the library.
///
/// Payloads are plain values (strings) so that contracts can speak about
/// them; the surrounding application converts outside error values into
/// their textual form before handing them to the library.
#[derive(Debug)]
pub enum NveError {
    HomeDirNotFound,
    Io(String),
    Http(String),
    Json(String),
    Semver(String),
    InvalidVersionFormat(String),
    VersionNotFound(String),
    VersionNotInstalled(String),
    NoCurrentVersion,
    InvalidInstallLayout(String),
    ConcurrencyConflict,
    ArtifactUnavailable(String),
    ExtractError(String),
    PlatformUnsupported(&'static str),
    SetCurrentFailed,
    ArchiveNameBuildFailed { os: String, arch: String },
    SymlinkError(String),
}

impl NveError {
    /// The one user-visible message of each error kind.
    pub open spec fn spec_message(&self) -> Seq<char> {
        match self {
            NveError::HomeDirNotFound => "No se pudo encontrar el directorio HOME del usuario"@,
            NveError::Io(m) => "Error de entrada/salida: "@ + m@,
            NveError::Http(m) => "Error HTTP/Red: "@ + m@,
            NveError::Json(m) => "Error parseando/serializando JSON: "@ + m@,
            NveError::Semver(m) => "Error semver: "@ + m@,
            NveError::InvalidVersionFormat(v) => "Formato de versión inválido: '"@ + v@
                + "' (usa '18', '18.19' o '18.19.1')"@,
            NveError::VersionNotFound(v) => "No se encontró la versión solicitada: '"@ + v@ + "'"@,
            NveError::VersionNotInstalled(v) => "La versión no está instalada: '"@ + v@ + "'"@,
            NveError::NoCurrentVersion => "No hay versión activa configurada"@,
            NveError::InvalidInstallLayout(p) =>
                "La ruta no pertenece a una instalación válida de Node: "@ + p@,
            NveError::ConcurrencyConflict => "Conflicto de concurrencia: operación en curso"@,
            NveError::ArtifactUnavailable(u) =>
                "El artefacto remoto no está disponible (404/403): "@ + u@,
            NveError::ExtractError(m) => "Error extrayendo el archivo (zip/tar.xz): "@ + m@,
            NveError::PlatformUnsupported(w) =>
                "Operación específica de la plataforma no soportada: "@ + w@,
            NveError::SetCurrentFailed => "Error estableciendo versión actual (atomic set)"@,
            NveError::ArchiveNameBuildFailed { os, arch } =>
                "Error resolviendo nombre de archivo del artefacto para la plataforma "@ + os@
                + "-"@ + arch@,
            NveError::SymlinkError(m) => "No se pudo crear/actualizar enlace simbólico: "@ + m@,
        }
    }

    /// Renders the error as its one message.
    pub fn message(&self) -> (r: String)
        ensures
            r@ == self.spec_message(),
    {
        match self {
            NveError::HomeDirNotFound => String::from_str(
                "No se pudo encontrar el directorio HOME del usuario",
            ),
            NveError::Io(m) => String::from_str("Error de entrada/salida: ").concat(m.as_str()),
            NveError::Http(m) => String::from_str("Error HTTP/Red: ").concat(m.as_str()),
            NveError::Json(m) => String::from_str("Error parseando/serializando JSON: ").concat(
                m.as_str(),
            ),
            NveError::Semver(m) => String::from_str("Error semver: ").concat(m.as_str()),
            NveError::InvalidVersionFormat(v) => String::from_str(
                "Formato de versión inválido: '",
            ).concat(v.as_str()).concat("' (usa '18', '18.19' o '18.19.1')"),
            NveError::VersionNotFound(v) => String::from_str(
                "No se encontró la versión solicitada: '",
            ).concat(v.as_str()).concat("'"),
            NveError::VersionNotInstalled(v) => String::from_str(
                "La versión no está instalada: '",
            ).concat(v.as_str()).concat("'"),
            NveError::NoCurrentVersion => String::from_str("No hay versión activa configurada"),
            NveError::InvalidInstallLayout(p) => String::from_str(
                "La ruta no pertenece a una instalación válida de Node: ",
            ).concat(p.as_str()),
            NveError::ConcurrencyConflict => String::from_str(
                "Conflicto de concurrencia: operación en curso",
            ),
            NveError::ArtifactUnavailable(u) => String::from_str(
                "El artefacto remoto no está disponible (404/403): ",
            ).concat(u.as_str()),
            NveError::ExtractError(m) => String::from_str(
                "Error extrayendo el archivo (zip/tar.xz): ",
            ).concat(m.as_str()),
            NveError::PlatformUnsupported(w) => String::from_str(
                "Operación específica de la plataforma no soportada: ",
            ).concat(w),
            NveError::SetCurrentFailed => String::from_str(
                "Error estableciendo versión actual (atomic set)",
            ),
            NveError::ArchiveNameBuildFailed { os, arch } => String::from_str(
                "Error resolviendo nombre de archivo del artefacto para la plataforma ",
            ).concat(os.as_str()).concat("-").concat(arch.as_str()),
            NveError::SymlinkError(m) => String::from_str(
                "No se pudo crear/actualizar enlace simbólico: ",
            ).concat(m.as_str()),
        }
    }

    pub fn artifact_unavailable(url: &str) -> (r: NveError)
        ensures
            r matches NveError::ArtifactUnavailable(u) && u@ == url@,
    {
        NveError::ArtifactUnavailable(String::from_str(url))
    }

    pub fn extract_err(msg: &str) -> (r: NveError)
        ensures
            r matches NveError::ExtractError(m) && m@ == msg@,
    {
        NveError::ExtractError(String::from_str(msg))
    }

    pub fn invalid_layout(path: &str) -> (r: NveError)
        ensures
            r matches NveError::InvalidInstallLayout(p) && p@ == path@,
    {
        NveError::InvalidInstallLayout(String::from_str(path))
    }

    pub fn archive_name_build_failed(os: &str, arch: &str) -> (r: NveError)
        ensures
            r matches NveError::ArchiveNameBuildFailed { os: o, arch: a } && o@ == os@ && a@
                == arch@,
    {
        NveError::ArchiveNameBuildFailed { os: String::from_str(os), arch: String::from_str(arch) }
    }
}

} // verus!
