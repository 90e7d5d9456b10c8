use vstd::prelude::*;

use crate::error::NveError;
use crate::extract::{action_models, entry_models, plan_extraction, plan_of, ExtractAction, RawEntry};

verus! {

/// What the tar.xz container holds for given bytes: every entry's path,
/// kind and contents in archive order, or the decoder's failure message.
/// A function of the bytes alone.
pub uninterp spec fn tar_xz_entries_of(data: Seq<u8>) -> Result<
    Seq<(Seq<char>, bool, Seq<u8>)>,
    Seq<char>,
>;

/// What the zip container holds for given bytes, in the same shape.
pub uninterp spec fn zip_entries_of(data: Seq<u8>) -> Result<
    Seq<(Seq<char>, bool, Seq<u8>)>,
    Seq<char>,
>;

/// Relies on xz2::read::XzDecoder and tar::Archive: decoding the xz
/// stream and walking the tar entries depends on the bytes alone; each
/// entry hands out its path, its kind and its contents.
#[verifier::external_body]
fn tar_xz_list(data: &Vec<u8>) -> (r: Result<Vec<RawEntry>, String>)
    ensures
        r is Ok <==> tar_xz_entries_of(data@) is Ok,
        r matches Ok(es) ==> (tar_xz_entries_of(data@) matches Ok(m) && entry_models(es@) == m),
        r matches Err(s) ==> (tar_xz_entries_of(data@) matches Err(m) && s@ == m),
{
    let err = |e: std::io::Error| e.to_string();
    let mut ar = tar::Archive::new(xz2::read::XzDecoder::new(std::io::Cursor::new(data.as_slice())));
    let mut out: Vec<RawEntry> = Vec::new();
    for ent in ar.entries().map_err(err)? {
        let mut ent = ent.map_err(err)?;
        let path = ent.path().map_err(err)?.to_string_lossy().into_owned();
        let is_dir = ent.header().entry_type().is_dir();
        let mut buf: Vec<u8> = Vec::new();
        std::io::Read::read_to_end(&mut ent, &mut buf).map_err(err)?;
        out.push(RawEntry { path, is_dir, data: buf });
    }
    Ok(out)
}

/// Relies on zip::ZipArchive: opening the central directory and reading
/// each entry depends on the bytes alone; an entry is a directory exactly
/// when the container marks it so.
#[verifier::external_body]
fn zip_list(data: &Vec<u8>) -> (r: Result<Vec<RawEntry>, String>)
    ensures
        r is Ok <==> zip_entries_of(data@) is Ok,
        r matches Ok(es) ==> (zip_entries_of(data@) matches Ok(m) && entry_models(es@) == m),
        r matches Err(s) ==> (zip_entries_of(data@) matches Err(m) && s@ == m),
{
    let mut ar = zip::ZipArchive::new(std::io::Cursor::new(data.as_slice())).map_err(|e| e.to_string())?;
    let mut out: Vec<RawEntry> = Vec::new();
    for i in 0..ar.len() {
        let mut f = ar.by_index(i).map_err(|e| e.to_string())?;
        let path = f.name().to_string();
        let is_dir = f.is_dir();
        let mut buf: Vec<u8> = Vec::new();
        std::io::Read::read_to_end(&mut f, &mut buf).map_err(|e| e.to_string())?;
        out.push(RawEntry { path, is_dir, data: buf });
    }
    Ok(out)
}

/// The planned outcome for a materialized container: the decoder's failure
/// verbatim; the one "empty archive" error when nothing would be written;
/// otherwise the full plan.
pub open spec fn container_plan_ok(
    listed: Result<Seq<(Seq<char>, bool, Seq<u8>)>, Seq<char>>,
    r: Result<Vec<ExtractAction>, NveError>,
) -> bool {
    match listed {
        Err(m) => r matches Err(e) && (e matches NveError::ExtractError(em) && em@ == m),
        Ok(es) => {
            if plan_of(es).len() == 0 {
                r matches Err(e) && (e matches NveError::ExtractError(em) && em@
                    == "empty archive"@)
            } else {
                r matches Ok(p) && action_models(p@) == plan_of(es)
            }
        },
    }
}

/// The tar.xz extraction variant.
#[derive(Debug)]
pub struct TarXzArchive;

impl TarXzArchive {
    pub fn new() -> (r: Result<TarXzArchive, NveError>)
        ensures
            r is Ok,
    {
        Ok(TarXzArchive)
    }

    /// Materializes the archive bytes and plans their extraction.
    pub fn extract_plan(&self, data: &Vec<u8>) -> (r: Result<Vec<ExtractAction>, NveError>)
        ensures
            container_plan_ok(tar_xz_entries_of(data@), r),
    {
        match tar_xz_list(data) {
            Ok(es) => plan_extraction(&es),
            Err(m) => Err(NveError::ExtractError(m)),
        }
    }
}

/// The zip extraction variant.
#[derive(Debug)]
pub struct ZipArchive;

impl ZipArchive {
    pub fn new() -> (r: Result<ZipArchive, NveError>)
        ensures
            r is Ok,
    {
        Ok(ZipArchive)
    }

    /// Materializes the archive bytes and plans their extraction.
    pub fn extract_plan(&self, data: &Vec<u8>) -> (r: Result<Vec<ExtractAction>, NveError>)
        ensures
            container_plan_ok(zip_entries_of(data@), r),
    {
        match zip_list(data) {
            Ok(es) => plan_extraction(&es),
            Err(m) => Err(NveError::ExtractError(m)),
        }
    }
}

} // verus!
