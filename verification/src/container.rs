//! The container adapter for multi-part archives.
//!
//! The whole archive is held as plain bytes; reading turns the bytes into an
//! ordered list of named parts, and writing turns an ordered list of named
//! parts back into archive bytes.  File reading and writing is the caller's
//! business: the library never touches a path.

use vstd::prelude::*;

use crate::errors::GenError;

verus! {

/// One named unit of content of an archive, with its storage choice: `true`
/// asks for compression, `false` for plain storage (the mandatory first
/// entry of a flat-package archive must be stored uncompressed).
pub struct ArchivePart {
    pub name: String,
    pub data: Vec<u8>,
    pub compress: bool,
}

/// What a part list says once the storage choice is forgotten: the names and
/// bytes, in order.
pub open spec fn parts_view(s: Seq<ArchivePart>) -> Seq<(Seq<char>, Seq<u8>)> {
    s.map_values(|p: ArchivePart| (p.name@, p.data@))
}

/// What a part list says in full: names, bytes and storage choices, in
/// order.
pub open spec fn parts_full_view(s: Seq<ArchivePart>) -> Seq<(Seq<char>, Seq<u8>, bool)> {
    s.map_values(|p: ArchivePart| (p.name@, p.data@, p.compress))
}

/// The parts that a byte string holds when read as an archive: the file
/// entries in stored order, or nothing when the bytes are not a readable
/// archive.  This names what the zip format defines; the two functions below
/// are the only places the library relies on it.
pub uninterp spec fn archive_parts_of(bytes: Seq<u8>) -> Option<Seq<(Seq<char>, Seq<u8>)>>;

/// Whether writing this part list as a fresh archive succeeds.  The archive
/// writer decides this from its arguments alone (for one, a repeated part
/// name makes it fail), so the outcome deserves a name; `write_archive`
/// below ties it to the writer on both outcomes.
pub uninterp spec fn archive_write_ok(parts: Seq<(Seq<char>, Seq<u8>, bool)>) -> bool;

/// A name the archive writer accepts for a file entry: non-empty and not
/// shaped like a directory entry.
pub open spec fn part_name_ok(name: Seq<char>) -> bool {
    name.len() > 0 && name.last() != '/' && name.last() != '\\'
}

/// Relies on `zip::ZipArchive` (`new`, `len`, `by_index`, `is_file`, `name`)
/// and `Read::read_to_end`: reads every stored file entry of the archive
/// into a name-to-bytes list, in stored order, skipping directory entries;
/// any failure to open or decode the archive is reported as
/// `ContainerOpenFailed`.
#[verifier::external_body]
pub fn read_archive(bytes: &[u8]) -> (r: Result<Vec<ArchivePart>, GenError>)
    ensures
        match r {
            Ok(parts) => archive_parts_of(bytes@) == Some(parts_view(parts@)),
            Err(e) => e == GenError::ContainerOpenFailed && archive_parts_of(bytes@) is None,
        },
{
    let cursor = std::io::Cursor::new(bytes);
    let mut archive = zip::ZipArchive::new(cursor).map_err(|_| GenError::ContainerOpenFailed)?;
    let mut parts = Vec::new();
    for index in 0..archive.len() {
        let mut file = archive.by_index(index).map_err(|_| GenError::ContainerOpenFailed)?;
        if !file.is_file() { continue; }
        let name = file.name().to_string();
        let mut data = Vec::new();
        std::io::Read::read_to_end(&mut file, &mut data).map_err(|_| GenError::ContainerOpenFailed)?;
        parts.push(ArchivePart { name, data, compress: true });
    }
    Ok(parts)
}

/// Relies on `zip::ZipWriter` (`new`, `start_file`, `finish`) and
/// `Write::write_all`: writes the given parts, in order, as the file entries
/// of a fresh archive, compressed or stored as each part asks; on success
/// reading the produced bytes back yields exactly the given names and bytes.
/// A failure (a duplicate part name, for one) is reported as
/// `ContainerWriteFailed`.
#[verifier::external_body]
pub fn write_archive(parts: &Vec<ArchivePart>) -> (r: Result<Vec<u8>, GenError>)
    requires
        forall|i: int| 0 <= i < parts@.len() ==> part_name_ok(#[trigger] parts@[i].name@),
    ensures
        match r {
            Ok(bytes) => archive_parts_of(bytes@) == Some(parts_view(parts@)) && archive_write_ok(
                parts_full_view(parts@),
            ),
            Err(e) => e == GenError::ContainerWriteFailed && !archive_write_ok(
                parts_full_view(parts@),
            ),
        },
{
    let mut writer = zip::ZipWriter::new(std::io::Cursor::new(Vec::new()));
    for part in parts.iter() {
        let method = if part.compress { zip::CompressionMethod::Deflated } else { zip::CompressionMethod::Stored };
        let options = zip::write::SimpleFileOptions::default().compression_method(method);
        writer.start_file(part.name.as_str(), options).map_err(|_| GenError::ContainerWriteFailed)?;
        std::io::Write::write_all(&mut writer, &part.data).map_err(|_| GenError::ContainerWriteFailed)?;
    }
    Ok(writer.finish().map_err(|_| GenError::ContainerWriteFailed)?.into_inner())
}

} // verus!
