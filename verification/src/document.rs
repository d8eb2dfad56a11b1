//! A save document: the header, the root scope and what follows it.

use vstd::prelude::*;
use crate::cursor::{parse_bytes, parse_le, Cursor, Parsed};
use crate::decode::{decode_scope, in_order, outcome_of, tree_outcome};
use crate::encode::write_scope;
use crate::error::{ErrorModel, FormatError};
use crate::format::{advanced, encode_scope, parse_scope, properties_fit};
use crate::graphql::ID;
use crate::le::{as_signed, as_unsigned, le_bytes, lemma_pow256_values, unsigned32, write_le};
use crate::registry::{LayoutModel, StructRegistry};
use crate::tree::{PropertyModel, PropertyTree};

verus! {

/// The version of one custom format that the save was written with.
#[derive(Clone, Copy, Debug)]
pub struct CustomVersion {
    pub id: ID,
    pub version: i32,
}

/// The metadata in front of the properties. Nothing in the library reads it;
/// it is kept so that a document is written back as it was.
#[derive(Debug)]
pub struct Header {
    pub engine_major: u16,
    pub engine_minor: u16,
    pub engine_patch: u16,
    pub custom_versions: Vec<CustomVersion>,
}

/// One decoded save: its header, its root scope, and the bytes that follow
/// the end of the root scope.
#[derive(Debug)]
pub struct SaveDocument {
    pub header: Header,
    pub root: PropertyTree,
    pub trailer: Vec<u8>,
}

/// What a [`CustomVersion`] holds.
pub struct VersionModel {
    pub id: Seq<u8>,
    pub version: i32,
}

/// What a [`Header`] holds.
pub struct HeaderModel {
    pub engine_major: u16,
    pub engine_minor: u16,
    pub engine_patch: u16,
    pub custom_versions: Seq<VersionModel>,
}

/// What a [`SaveDocument`] holds.
pub struct DocumentModel {
    pub header: HeaderModel,
    pub root: Seq<PropertyModel>,
    pub trailer: Seq<u8>,
}

impl View for CustomVersion {
    type V = VersionModel;

    open spec fn view(&self) -> VersionModel {
        VersionModel { id: self.id@, version: self.version }
    }
}

/// The versions of a header, each by what it holds.
pub open spec fn versions_model(versions: Seq<CustomVersion>) -> Seq<VersionModel> {
    Seq::new(versions.len(), |i: int| versions[i]@)
}

impl View for Header {
    type V = HeaderModel;

    open spec fn view(&self) -> HeaderModel {
        HeaderModel {
            engine_major: self.engine_major,
            engine_minor: self.engine_minor,
            engine_patch: self.engine_patch,
            custom_versions: versions_model(self.custom_versions@),
        }
    }
}

impl View for SaveDocument {
    type V = DocumentModel;

    open spec fn view(&self) -> DocumentModel {
        DocumentModel { header: self.header@, root: self.root@, trailer: self.trailer@ }
    }
}

/// One custom version at `pos`: sixteen bytes of identifier and a signed
/// 32-bit version number.
pub open spec fn parse_version(bytes: Seq<u8>, pos: int) -> Parsed<VersionModel> {
    match parse_bytes(bytes, pos, 16) {
        Err(e) => Err(e),
        Ok((id, middle)) => match parse_le(bytes, middle, 4) {
            Err(e) => Err(e),
            Ok((raw, end)) => Ok((VersionModel { id, version: as_signed(raw, 4) as i32 }, end)),
        },
    }
}

/// `count` custom versions from `pos` on, put behind `done`.
pub open spec fn parse_versions(bytes: Seq<u8>, pos: int, count: nat, done: Seq<VersionModel>) -> Parsed<
    Seq<VersionModel>,
>
    decreases count,
{
    if count == 0 {
        Ok((done, pos))
    } else {
        match parse_version(bytes, pos) {
            Err(e) => Err(e),
            Ok((version, end)) => parse_versions(bytes, end, (count - 1) as nat, done.push(version)),
        }
    }
}

/// The header at `pos`: the three parts of the engine version, 16 bits each,
/// the number of custom versions, 32 bits, then the custom versions.
pub open spec fn parse_header(bytes: Seq<u8>, pos: int) -> Parsed<HeaderModel> {
    match parse_le(bytes, pos, 2) {
        Err(e) => Err(e),
        Ok((major, at1)) => match parse_le(bytes, at1, 2) {
            Err(e) => Err(e),
            Ok((minor, at2)) => match parse_le(bytes, at2, 2) {
                Err(e) => Err(e),
                Ok((patch, at3)) => match parse_le(bytes, at3, 4) {
                    Err(e) => Err(e),
                    Ok((count, at4)) => match parse_versions(bytes, at4, count, Seq::empty()) {
                        Err(e) => Err(e),
                        Ok((custom_versions, end)) => Ok(
                            (
                                HeaderModel {
                                    engine_major: major as u16,
                                    engine_minor: minor as u16,
                                    engine_patch: patch as u16,
                                    custom_versions,
                                },
                                end,
                            ),
                        ),
                    },
                },
            },
        },
    }
}

/// The document that a byte string holds: the header, the root scope up to
/// the name that ends it, and the rest as the trailer.
pub open spec fn parse_document(registry: Seq<LayoutModel>, bytes: Seq<u8>) -> Result<DocumentModel, ErrorModel> {
    match parse_header(bytes, 0) {
        Err(e) => Err(e),
        Ok((header, start)) => match parse_scope(registry, bytes, start, Seq::empty()) {
            Err(e) => Err(e),
            Ok((root, end)) => Ok(
                DocumentModel { header, root, trailer: bytes.subrange(end, bytes.len() as int) },
            ),
        },
    }
}

/// The bytes of one custom version.
pub open spec fn encode_version(version: VersionModel) -> Seq<u8> {
    version.id + le_bytes(as_unsigned(version.version as int, 4), 4)
}

/// The bytes of the custom versions, one after the other.
pub open spec fn encode_versions(versions: Seq<VersionModel>) -> Seq<u8>
    decreases versions.len(),
{
    if versions.len() == 0 {
        Seq::empty()
    } else {
        encode_versions(versions.drop_last()) + encode_version(versions.last())
    }
}

/// The bytes of a header.
pub open spec fn encode_header(header: HeaderModel) -> Seq<u8> {
    le_bytes(header.engine_major as nat, 2) + le_bytes(header.engine_minor as nat, 2) + le_bytes(
        header.engine_patch as nat,
        2,
    ) + le_bytes(header.custom_versions.len(), 4) + encode_versions(header.custom_versions)
}

/// The bytes of a document: header, root scope, trailer.
pub open spec fn encode_document(document: DocumentModel) -> Seq<u8> {
    encode_header(document.header) + encode_scope(document.root) + document.trailer
}

/// Whether every length and count of a document can be written in its field.
pub open spec fn document_fits(document: DocumentModel) -> bool {
    &&& document.header.custom_versions.len() <= u32::MAX
    &&& properties_fit(document.root)
}

/// What a decoded header, or the failure to decode one, holds.
pub open spec fn header_outcome(r: Result<Header, FormatError>) -> Result<HeaderModel, ErrorModel> {
    match r {
        Ok(header) => Ok(header@),
        Err(e) => Err(e@),
    }
}

/// What a decoded document, or the failure to decode one, holds.
pub open spec fn document_outcome(r: Result<SaveDocument, FormatError>) -> Result<DocumentModel, ErrorModel> {
    match r {
        Ok(document) => Ok(document@),
        Err(e) => Err(e@),
    }
}

/// Reads the header of a document.
pub(crate) fn decode_header(cursor: &mut Cursor) -> (r: Result<Header, FormatError>)
    ensures
        final(cursor).reaches(old(cursor), parse_header(old(cursor).bytes(), old(cursor).offset())),
        header_outcome(r) == outcome_of(parse_header(old(cursor).bytes(), old(cursor).offset())),
        in_order(old(cursor), parse_header(old(cursor).bytes(), old(cursor).offset())),
{
    let ghost start = cursor.offset();
    let ghost bytes = cursor.bytes();
    let _ = cursor.position();
    proof {
        lemma_pow256_values();
    }
    let engine_major = match cursor.read_u16() {
        Err(e) => {
            return Err(e);
        },
        Ok(v) => v,
    };
    let engine_minor = match cursor.read_u16() {
        Err(e) => {
            return Err(e);
        },
        Ok(v) => v,
    };
    let engine_patch = match cursor.read_u16() {
        Err(e) => {
            return Err(e);
        },
        Ok(v) => v,
    };
    let count = match cursor.read_u32() {
        Err(e) => {
            return Err(e);
        },
        Ok(v) => v,
    };
    let ghost first = cursor.offset();
    let mut custom_versions: Vec<CustomVersion> = Vec::new();
    let mut i: u32 = 0;
    assert(versions_model(custom_versions@) =~= Seq::empty());
    while i < count
        invariant
            i <= count,
            cursor.bytes() == bytes,
            bytes == old(cursor).bytes(),
            start == old(cursor).offset(),
            advanced(start, first, bytes.len()),
            advanced(first, cursor.offset(), bytes.len()),
            0 <= start,
            parse_versions(bytes, cursor.offset(), (count - i) as nat, versions_model(custom_versions@))
                == parse_versions(bytes, first, count as nat, Seq::empty()),
            parse_header(bytes, start) == match parse_versions(bytes, first, count as nat, Seq::empty()) {
                Err(e) => Err(e),
                Ok((versions, end)) => Ok(
                    (
                        HeaderModel {
                            engine_major,
                            engine_minor,
                            engine_patch,
                            custom_versions: versions,
                        },
                        end,
                    ),
                ),
            },
        decreases count - i,
    {
        let ghost before = versions_model(custom_versions@);
        let id = match cursor.read_guid() {
            Err(e) => {
                return Err(e);
            },
            Ok(id) => id,
        };
        let version = match cursor.read_i32() {
            Err(e) => {
                return Err(e);
            },
            Ok(v) => v,
        };
        let entry = CustomVersion { id, version };
        custom_versions.push(entry);
        assert(versions_model(custom_versions@) =~= before.push(entry@));
        i = i + 1;
    }
    Ok(Header { engine_major, engine_minor, engine_patch, custom_versions })
}

/// Appends a header, if the number of its custom versions can be written.
pub fn write_header(header: &Header, out: &mut Vec<u8>) -> (ok: bool)
    ensures
        ok == (header@.custom_versions.len() <= u32::MAX),
        ok ==> final(out)@ == old(out)@ + encode_header(header@),
        !ok ==> final(out)@ == old(out)@,
{
    if header.custom_versions.len() > 0xffff_ffff {
        return false;
    }
    write_le(out, header.engine_major as u64, 2);
    write_le(out, header.engine_minor as u64, 2);
    write_le(out, header.engine_patch as u64, 2);
    write_le(out, header.custom_versions.len() as u64, 4);
    let ghost base = out@;
    let ghost model = header@.custom_versions;
    let mut i: usize = 0;
    assert(model.take(0) =~= Seq::empty());
    assert(out@ =~= base + encode_versions(model.take(0)));
    while i < header.custom_versions.len()
        invariant
            i <= header.custom_versions.len(),
            model == versions_model(header.custom_versions@),
            out@ == base + encode_versions(model.take(i as int)),
        decreases header.custom_versions.len() - i,
    {
        proof {
            assert(model.take(i + 1).drop_last() =~= model.take(i as int));
            assert(model.take(i + 1).last() == header.custom_versions@[i as int]@);
        }
        let entry = &header.custom_versions[i];
        out.extend_from_slice(vstd::array::array_as_slice(&entry.id.0));
        write_le(out, unsigned32(entry.version) as u64, 4);
        assert(out@ =~= base + encode_versions(model.take(i + 1)));
        i = i + 1;
    }
    assert(model.take(header.custom_versions.len() as int) =~= model);
    assert(out@ =~= old(out)@ + encode_header(header@));
    true
}

impl PropertyTree {
    /// Reads the properties of one scope at the cursor, up to and with the
    /// name that ends the scope. Where that fails the cursor stays where it was.
    pub fn decode(cursor: &mut Cursor, registry: &StructRegistry) -> (r: Result<PropertyTree, FormatError>)
        ensures
            final(cursor).follows(
                old(cursor),
                parse_scope(registry@, old(cursor).bytes(), old(cursor).offset(), Seq::empty()),
            ),
            tree_outcome(r) == outcome_of(
                parse_scope(registry@, old(cursor).bytes(), old(cursor).offset(), Seq::empty()),
            ),
    {
        let start = cursor.position();
        match decode_scope(registry, cursor) {
            Ok(tree) => Ok(tree),
            Err(e) => {
                match cursor.seek(start) {
                    Ok(()) => {},
                    Err(_) => {},
                }
                Err(e)
            },
        }
    }

    /// The bytes of the scope: its properties and the name that ends it; none
    /// where a length or a count in the tree cannot be written in its field.
    pub fn encode(&self) -> (r: Option<Vec<u8>>)
        ensures
            r is Some == properties_fit(self@),
            r matches Some(bytes) ==> bytes@ == encode_scope(self@),
    {
        let mut out: Vec<u8> = Vec::new();
        if write_scope(self, &mut out) {
            assert(out@ =~= encode_scope(self@));
            Some(out)
        } else {
            None
        }
    }
}

impl SaveDocument {
    /// Reads a document from the bytes of a property stream.
    pub fn decode(bytes: &[u8], registry: &StructRegistry) -> (r: Result<SaveDocument, FormatError>)
        ensures
            document_outcome(r) == parse_document(registry@, bytes@),
    {
        let mut cursor = Cursor::new(bytes);
        let header = match decode_header(&mut cursor) {
            Err(e) => {
                return Err(e);
            },
            Ok(header) => header,
        };
        let root = match decode_scope(registry, &mut cursor) {
            Err(e) => {
                return Err(e);
            },
            Ok(root) => root,
        };
        let rest = cursor.remaining();
        let trailer = match cursor.read_bytes(rest) {
            Err(e) => {
                return Err(e);
            },
            Ok(trailer) => trailer,
        };
        Ok(SaveDocument { header, root, trailer })
    }

    /// The bytes of the document; none where a length or a count in it cannot
    /// be written in its field.
    pub fn encode(&self) -> (r: Option<Vec<u8>>)
        ensures
            r is Some == document_fits(self@),
            r matches Some(bytes) ==> bytes@ == encode_document(self@),
    {
        let mut out: Vec<u8> = Vec::new();
        if !write_header(&self.header, &mut out) {
            return None;
        }
        if !write_scope(&self.root, &mut out) {
            return None;
        }
        out.extend_from_slice(self.trailer.as_slice());
        assert(out@ =~= encode_document(self@));
        Some(out)
    }
}

} // verus!
