//! A ZIP archive of stored files, its CRC-32, and the Word package of an
//! annotated document.
use vstd::prelude::*;
use vstd::utf8::encode_utf8;
use crate::decimal::{decimal, push_decimal};
use crate::docx::TextSizes;
use crate::pronounce::push_str;
use crate::text::owned;
use crate::tokens::concat;

verus! {

// ---------------------------------------------------------------------------
// Little-endian numbers
// ---------------------------------------------------------------------------

/// A 16-bit number, low byte first.
pub open spec fn le16(v: u16) -> Seq<u8> {
    seq![(v % 256) as u8, (v / 256) as u8]
}

/// A 32-bit number, lowest byte first.
pub open spec fn le32(v: u32) -> Seq<u8> {
    seq![(v % 256) as u8, ((v / 256) % 256) as u8, ((v / 65536) % 256) as u8, (v / 16777216) as u8]
}

/// Appends a 16-bit number, low byte first.
pub fn write_u16(out: &mut Vec<u8>, value: u16)
    ensures
        final(out)@ == old(out)@ + le16(value),
{
    out.push((value % 256) as u8);
    out.push((value / 256) as u8);
    assert(out@ =~= old(out)@ + le16(value));
}

/// Appends a 32-bit number, lowest byte first.
pub fn write_u32(out: &mut Vec<u8>, value: u32)
    ensures
        final(out)@ == old(out)@ + le32(value),
{
    out.push((value % 256) as u8);
    out.push(((value / 256) % 256) as u8);
    out.push(((value / 65536) % 256) as u8);
    out.push((value / 16777216) as u8);
    assert(out@ =~= old(out)@ + le32(value));
}

fn append_bytes(out: &mut Vec<u8>, bytes: &Vec<u8>)
    ensures
        final(out)@ == old(out)@ + bytes@,
{
    let mut i: usize = 0;
    while i < bytes.len()
        invariant
            i <= bytes.len(),
            out@ == old(out)@ + bytes@.take(i as int),
        decreases bytes.len() - i,
    {
        out.push(bytes[i]);
        assert(bytes@.take(i + 1) =~= bytes@.take(i as int).push(bytes@[i as int]));
        i += 1;
    }
    assert(bytes@.take(bytes.len() as int) =~= bytes@);
}

// ---------------------------------------------------------------------------
// CRC-32
// ---------------------------------------------------------------------------

/// One bit of the reflected CRC-32 with polynomial `0xEDB88320`.
pub open spec fn crc_bit(c: u32) -> u32 {
    if c & 1 == 1 {
        (c >> 1) ^ 0xedb8_8320u32
    } else {
        c >> 1
    }
}

/// `crc_bit` applied `n` times.
pub open spec fn crc_bits(c: u32, n: nat) -> u32
    decreases n,
{
    if n == 0 {
        c
    } else {
        crc_bits(crc_bit(c), (n - 1) as nat)
    }
}

/// The running CRC after the bytes `bytes`.
pub open spec fn crc_update(c: u32, bytes: Seq<u8>) -> u32
    decreases bytes.len(),
{
    if bytes.len() == 0 {
        c
    } else {
        crc_bits(crc_update(c, bytes.drop_last()) ^ (bytes.last() as u32), 8)
    }
}

/// The CRC-32 of `bytes`, as ZIP archives use it.
pub open spec fn spec_crc32(bytes: Seq<u8>) -> u32 {
    !crc_update(0xffff_ffffu32, bytes)
}

/// The CRC-32 of `bytes`: reflected, polynomial `0xEDB88320`, starting
/// from all ones and inverted at the end.
pub fn crc32(bytes: &[u8]) -> (r: u32)
    ensures
        r == spec_crc32(bytes@),
{
    let mut crc: u32 = 0xffff_ffff;
    let mut i: usize = 0;
    while i < bytes.len()
        invariant
            i <= bytes@.len(),
            crc == crc_update(0xffff_ffffu32, bytes@.take(i as int)),
        decreases bytes@.len() - i,
    {
        assert(bytes@.take(i + 1).drop_last() =~= bytes@.take(i as int));
        crc = crc ^ (bytes[i] as u32);
        let ghost start = crc;
        let mut k: usize = 0;
        while k < 8
            invariant
                k <= 8,
                crc_bits(crc, (8 - k) as nat) == crc_bits(start, 8),
            decreases 8 - k,
        {
            crc = if crc & 1 == 1 {
                (crc >> 1) ^ 0xedb8_8320
            } else {
                crc >> 1
            };
            k += 1;
        }
        i += 1;
    }
    assert(bytes@.take(bytes@.len() as int) =~= bytes@);
    !crc
}

// ---------------------------------------------------------------------------
// The archive
// ---------------------------------------------------------------------------

/// A file of the archive: its name, CRC, size and where its header starts.
pub struct ZipEntry {
    pub name: Vec<u8>,
    pub crc: u32,
    pub size: u32,
    pub offset: u32,
}

/// What an entry holds, as values.
pub struct EntryRecord {
    pub name: Seq<u8>,
    pub crc: u32,
    pub size: u32,
    pub offset: u32,
}

pub open spec fn record_of(e: ZipEntry) -> EntryRecord {
    EntryRecord { name: e.name@, crc: e.crc, size: e.size, offset: e.offset }
}

/// The local header of a stored file, followed by its name and bytes.
pub open spec fn local_file(name: Seq<u8>, bytes: Seq<u8>) -> Seq<u8> {
    le32(0x0403_4b50) + le16(20) + le16(0) + le16(0) + le16(0) + le16(0) + le32(spec_crc32(bytes))
        + le32(bytes.len() as u32) + le32(bytes.len() as u32) + le16(name.len() as u16) + le16(0)
        + name + bytes
}

/// The central directory record of an entry.
pub open spec fn central_record(e: EntryRecord) -> Seq<u8> {
    le32(0x0201_4b50) + le16(20) + le16(20) + le16(0) + le16(0) + le16(0) + le16(0) + le32(e.crc)
        + le32(e.size) + le32(e.size) + le16(e.name.len() as u16) + le16(0) + le16(0) + le16(0) + le16(
        0,
    ) + le32(0) + le32(e.offset) + e.name
}

/// The central directory.
pub open spec fn central_directory(entries: Seq<EntryRecord>) -> Seq<u8>
    decreases entries.len(),
{
    if entries.len() == 0 {
        seq![]
    } else {
        central_directory(entries.drop_last()) + central_record(entries.last())
    }
}

/// The end of the central directory.
pub open spec fn end_record(count: nat, central_size: u32, central_offset: u32) -> Seq<u8> {
    le32(0x0605_4b50) + le16(0) + le16(0) + le16(count as u16) + le16(count as u16) + le32(
        central_size,
    ) + le32(central_offset) + le16(0)
}

/// The finished archive.
pub open spec fn finished(data: Seq<u8>, entries: Seq<EntryRecord>) -> Seq<u8> {
    data + central_directory(entries) + end_record(
        entries.len(),
        central_directory(entries).len() as u32,
        data.len() as u32,
    )
}

/// An archive of stored files being written.
pub struct ZipWriter {
    data: Vec<u8>,
    entries: Vec<ZipEntry>,
}

impl ZipWriter {
    /// The local headers and files written so far.
    pub closed spec fn data_view(&self) -> Seq<u8> {
        self.data@
    }

    /// The entries written so far.
    pub closed spec fn entries_view(&self) -> Seq<EntryRecord> {
        self.entries@.map_values(|e: ZipEntry| record_of(e))
    }

    /// An archive with at least one file starts with a local header.
    pub closed spec fn wf(&self) -> bool {
        &&& self.entries@.len() == 0 ==> self.data@.len() == 0
        &&& self.entries@.len() > 0 ==> self.data@.len() >= 4 && self.data@.take(4) == le32(
            0x0403_4b50,
        )
    }

    /// An empty archive.
    pub fn new() -> (r: ZipWriter)
        ensures
            r.wf(),
            r.data_view() == Seq::<u8>::empty(),
            r.entries_view() == Seq::<EntryRecord>::empty(),
    {
        let r = ZipWriter { data: Vec::new(), entries: Vec::new() };
        assert(r.entries_view() =~= Seq::<EntryRecord>::empty());
        r
    }

    /// Adds a stored file: its local header, name and bytes, and its entry.
    /// A file or archive too large for 32-bit sizes is an error and leaves
    /// the archive as it was.
    pub fn add(&mut self, name: &str, bytes: &[u8]) -> (r: Result<(), String>)
        requires
            old(self).wf(),
        ensures
            final(self).wf(),
            bytes@.len() > u32::MAX ==> (r matches Err(e) && e@ == "DOCX part too large"@
                && final(self).data_view() == old(self).data_view() && final(self).entries_view()
                == old(self).entries_view()),
            bytes@.len() <= u32::MAX && old(self).data_view().len() > u32::MAX ==> (r matches Err(e)
                && e@ == "DOCX package too large"@ && final(self).data_view() == old(self).data_view()
                && final(self).entries_view() == old(self).entries_view()),
            bytes@.len() <= u32::MAX && old(self).data_view().len() <= u32::MAX ==> r is Ok
                && final(self).data_view() == old(self).data_view() + local_file(encode_utf8(name@), bytes@)
                && final(self).entries_view() == old(self).entries_view().push(
                EntryRecord {
                    name: encode_utf8(name@),
                    crc: spec_crc32(bytes@),
                    size: bytes@.len() as u32,
                    offset: old(self).data_view().len() as u32,
                },
            ),
    {
        if bytes.len() > 0xffff_ffff {
            return Err(owned("DOCX part too large"));
        }
        if self.data.len() > 0xffff_ffff {
            return Err(owned("DOCX package too large"));
        }
        let size = bytes.len() as u32;
        let offset = self.data.len() as u32;
        let crc = crc32(bytes);
        let name_bytes = name.as_bytes_vec();
        let ghost before = self.data@;
        let ghost old_entries = self.entries_view();
        write_u32(&mut self.data, 0x0403_4b50);
        write_u16(&mut self.data, 20);
        write_u16(&mut self.data, 0);
        write_u16(&mut self.data, 0);
        write_u16(&mut self.data, 0);
        write_u16(&mut self.data, 0);
        write_u32(&mut self.data, crc);
        write_u32(&mut self.data, size);
        write_u32(&mut self.data, size);
        write_u16(&mut self.data, name_bytes.len() as u16);
        write_u16(&mut self.data, 0);
        append_bytes(&mut self.data, &name_bytes);
        let mut copy: Vec<u8> = Vec::new();
        let mut i: usize = 0;
        while i < bytes.len()
            invariant
                i <= bytes@.len(),
                copy@ == bytes@.take(i as int),
            decreases bytes@.len() - i,
        {
            copy.push(bytes[i]);
            assert(bytes@.take(i + 1) =~= bytes@.take(i as int).push(bytes@[i as int]));
            i += 1;
        }
        assert(bytes@.take(bytes@.len() as int) =~= bytes@);
        append_bytes(&mut self.data, &copy);
        assert(self.data@ =~= before + local_file(encode_utf8(name@), bytes@));
        self.entries.push(ZipEntry { name: name_bytes, crc, size, offset });
        assert(self.entries_view() =~= old_entries.push(
            EntryRecord { name: encode_utf8(name@), crc, size, offset },
        ));
        proof {
            if before.len() > 0 {
                assert(self.data@.take(4) =~= before.take(4));
            } else {
                assert(self.data@.take(4) =~= le32(0x0403_4b50));
            }
        }
        Ok(())
    }

    /// The size of the finished archive's data and directory.
    pub open spec fn directory_end(&self) -> nat {
        self.data_view().len() + central_directory(self.entries_view()).len()
    }

    /// Writes the central directory and its end record, and gives the
    /// archive's bytes.
    pub fn finish(self) -> (r: Vec<u8>)
        requires
            self.wf(),
            self.directory_end() <= u32::MAX,
        ensures
            r@ == finished(self.data_view(), self.entries_view()),
            self.entries_view().len() > 0 ==> r@.take(4) == le32(0x0403_4b50),
    {
        let ghost data0 = self.data@;
        let ghost entries = self.entries_view();
        let mut data = self.data;
        let central_offset = data.len() as u32;
        let mut i: usize = 0;
        assert(entries.take(0) =~= Seq::<EntryRecord>::empty());
        while i < self.entries.len()
            invariant
                i <= self.entries@.len(),
                entries == self.entries@.map_values(|e: ZipEntry| record_of(e)),
                data@ == data0 + central_directory(entries.take(i as int)),
            decreases self.entries@.len() - i,
        {
            assert(entries.take(i + 1).drop_last() =~= entries.take(i as int));
            assert(entries[i as int] == record_of(self.entries@[i as int]));
            let entry = &self.entries[i];
            let ghost before = data@;
            write_u32(&mut data, 0x0201_4b50);
            write_u16(&mut data, 20);
            write_u16(&mut data, 20);
            write_u16(&mut data, 0);
            write_u16(&mut data, 0);
            write_u16(&mut data, 0);
            write_u16(&mut data, 0);
            write_u32(&mut data, entry.crc);
            write_u32(&mut data, entry.size);
            write_u32(&mut data, entry.size);
            write_u16(&mut data, entry.name.len() as u16);
            write_u16(&mut data, 0);
            write_u16(&mut data, 0);
            write_u16(&mut data, 0);
            write_u16(&mut data, 0);
            write_u32(&mut data, 0);
            write_u32(&mut data, entry.offset);
            append_bytes(&mut data, &entry.name);
            assert(data@ =~= before + central_record(record_of(*entry)));
            i += 1;
        }
        assert(entries.take(self.entries@.len() as int) =~= entries);
        let central_size = (data.len() as u32) - central_offset;
        let count = self.entries.len();
        let ghost before_end = data@;
        write_u32(&mut data, 0x0605_4b50);
        write_u16(&mut data, 0);
        write_u16(&mut data, 0);
        write_u16(&mut data, count as u16);
        write_u16(&mut data, count as u16);
        write_u32(&mut data, central_size);
        write_u32(&mut data, central_offset);
        write_u16(&mut data, 0);
        assert(data@ =~= finished(data0, entries));
        proof {
            if entries.len() > 0 {
                assert(data@.take(4) =~= data0.take(4));
            }
        }
        data
    }
}

// ---------------------------------------------------------------------------
// The Word package
// ---------------------------------------------------------------------------

/// A fixed part of the Word package.
pub open spec fn spec_document_head() -> Seq<char> {
    "<?xml version=\"1.0\" encoding=\"UTF-8\" standalone=\"yes\"?><w:document xmlns:w=\"http://schemas.openxmlformats.org/wordprocessingml/2006/main\" xmlns:r=\"http://schemas.openxmlformats.org/officeDocument/2006/relationships\" xmlns:xml=\"http://www.w3.org/XML/1998/namespace\"><w:body>"@
}

fn document_head() -> (r: &'static str)
    ensures
        r@ == spec_document_head(),
{
    "<?xml version=\"1.0\" encoding=\"UTF-8\" standalone=\"yes\"?><w:document xmlns:w=\"http://schemas.openxmlformats.org/wordprocessingml/2006/main\" xmlns:r=\"http://schemas.openxmlformats.org/officeDocument/2006/relationships\" xmlns:xml=\"http://www.w3.org/XML/1998/namespace\"><w:body>"
}

/// A fixed part of the Word package.
pub open spec fn spec_document_page_width() -> Seq<char> {
    "<w:sectPr><w:pgSz w:w=\""@
}

fn document_page_width() -> (r: &'static str)
    ensures
        r@ == spec_document_page_width(),
{
    "<w:sectPr><w:pgSz w:w=\""
}

/// A fixed part of the Word package.
pub open spec fn spec_document_page_height() -> Seq<char> {
    "\" w:h=\""@
}

fn document_page_height() -> (r: &'static str)
    ensures
        r@ == spec_document_page_height(),
{
    "\" w:h=\""
}

/// A fixed part of the Word package.
pub open spec fn spec_document_tail() -> Seq<char> {
    "\"/><w:pgMar w:top=\"1440\" w:right=\"1440\" w:bottom=\"1440\" w:left=\"1440\" w:header=\"720\" w:footer=\"720\" w:gutter=\"0\"/></w:sectPr></w:body></w:document>"@
}

fn document_tail() -> (r: &'static str)
    ensures
        r@ == spec_document_tail(),
{
    "\"/><w:pgMar w:top=\"1440\" w:right=\"1440\" w:bottom=\"1440\" w:left=\"1440\" w:header=\"720\" w:footer=\"720\" w:gutter=\"0\"/></w:sectPr></w:body></w:document>"
}

/// A fixed part of the Word package.
pub open spec fn spec_styles_head() -> Seq<char> {
    "<?xml version=\"1.0\" encoding=\"UTF-8\" standalone=\"yes\"?><w:styles xmlns:w=\"http://schemas.openxmlformats.org/wordprocessingml/2006/main\"><w:style w:type=\"paragraph\" w:default=\"1\" w:styleId=\"Normal\"><w:name w:val=\"Normal\"/><w:rPr><w:rFonts w:ascii=\"Times New Roman\" w:hAnsi=\"Times New Roman\" w:eastAsia=\"SimSun\"/><w:sz w:val=\""@
}

fn styles_head() -> (r: &'static str)
    ensures
        r@ == spec_styles_head(),
{
    "<?xml version=\"1.0\" encoding=\"UTF-8\" standalone=\"yes\"?><w:styles xmlns:w=\"http://schemas.openxmlformats.org/wordprocessingml/2006/main\"><w:style w:type=\"paragraph\" w:default=\"1\" w:styleId=\"Normal\"><w:name w:val=\"Normal\"/><w:rPr><w:rFonts w:ascii=\"Times New Roman\" w:hAnsi=\"Times New Roman\" w:eastAsia=\"SimSun\"/><w:sz w:val=\""
}

/// A fixed part of the Word package.
pub open spec fn spec_styles_middle() -> Seq<char> {
    "\"/><w:szCs w:val=\""@
}

fn styles_middle() -> (r: &'static str)
    ensures
        r@ == spec_styles_middle(),
{
    "\"/><w:szCs w:val=\""
}

/// A fixed part of the Word package.
pub open spec fn spec_styles_tail() -> Seq<char> {
    "\"/></w:rPr></w:style></w:styles>"@
}

fn styles_tail() -> (r: &'static str)
    ensures
        r@ == spec_styles_tail(),
{
    "\"/></w:rPr></w:style></w:styles>"
}

/// A fixed part of the Word package.
pub open spec fn spec_content_types_xml() -> Seq<char> {
    "<?xml version=\"1.0\" encoding=\"UTF-8\" standalone=\"yes\"?><Types xmlns=\"http://schemas.openxmlformats.org/package/2006/content-types\"><Default Extension=\"rels\" ContentType=\"application/vnd.openxmlformats-package.relationships+xml\"/><Default Extension=\"xml\" ContentType=\"application/xml\"/><Override PartName=\"/word/document.xml\" ContentType=\"application/vnd.openxmlformats-officedocument.wordprocessingml.document.main+xml\"/><Override PartName=\"/word/styles.xml\" ContentType=\"application/vnd.openxmlformats-officedocument.wordprocessingml.styles+xml\"/><Override PartName=\"/word/settings.xml\" ContentType=\"application/vnd.openxmlformats-officedocument.wordprocessingml.settings+xml\"/></Types>"@
}

fn content_types_xml() -> (r: &'static str)
    ensures
        r@ == spec_content_types_xml(),
{
    "<?xml version=\"1.0\" encoding=\"UTF-8\" standalone=\"yes\"?><Types xmlns=\"http://schemas.openxmlformats.org/package/2006/content-types\"><Default Extension=\"rels\" ContentType=\"application/vnd.openxmlformats-package.relationships+xml\"/><Default Extension=\"xml\" ContentType=\"application/xml\"/><Override PartName=\"/word/document.xml\" ContentType=\"application/vnd.openxmlformats-officedocument.wordprocessingml.document.main+xml\"/><Override PartName=\"/word/styles.xml\" ContentType=\"application/vnd.openxmlformats-officedocument.wordprocessingml.styles+xml\"/><Override PartName=\"/word/settings.xml\" ContentType=\"application/vnd.openxmlformats-officedocument.wordprocessingml.settings+xml\"/></Types>"
}

/// A fixed part of the Word package.
pub open spec fn spec_package_rels_xml() -> Seq<char> {
    "<?xml version=\"1.0\" encoding=\"UTF-8\" standalone=\"yes\"?><Relationships xmlns=\"http://schemas.openxmlformats.org/package/2006/relationships\"><Relationship Id=\"rId1\" Type=\"http://schemas.openxmlformats.org/officeDocument/2006/relationships/officeDocument\" Target=\"word/document.xml\"/></Relationships>"@
}

fn package_rels_xml() -> (r: &'static str)
    ensures
        r@ == spec_package_rels_xml(),
{
    "<?xml version=\"1.0\" encoding=\"UTF-8\" standalone=\"yes\"?><Relationships xmlns=\"http://schemas.openxmlformats.org/package/2006/relationships\"><Relationship Id=\"rId1\" Type=\"http://schemas.openxmlformats.org/officeDocument/2006/relationships/officeDocument\" Target=\"word/document.xml\"/></Relationships>"
}

/// A fixed part of the Word package.
pub open spec fn spec_document_rels_xml() -> Seq<char> {
    "<?xml version=\"1.0\" encoding=\"UTF-8\" standalone=\"yes\"?><Relationships xmlns=\"http://schemas.openxmlformats.org/package/2006/relationships\"></Relationships>"@
}

fn document_rels_xml() -> (r: &'static str)
    ensures
        r@ == spec_document_rels_xml(),
{
    "<?xml version=\"1.0\" encoding=\"UTF-8\" standalone=\"yes\"?><Relationships xmlns=\"http://schemas.openxmlformats.org/package/2006/relationships\"></Relationships>"
}

/// A fixed part of the Word package.
pub open spec fn spec_settings_xml() -> Seq<char> {
    "<?xml version=\"1.0\" encoding=\"UTF-8\" standalone=\"yes\"?><w:settings xmlns:w=\"http://schemas.openxmlformats.org/wordprocessingml/2006/main\"><w:zoom w:percent=\"100\"/></w:settings>"@
}

fn settings_xml() -> (r: &'static str)
    ensures
        r@ == spec_settings_xml(),
{
    "<?xml version=\"1.0\" encoding=\"UTF-8\" standalone=\"yes\"?><w:settings xmlns:w=\"http://schemas.openxmlformats.org/wordprocessingml/2006/main\"><w:zoom w:percent=\"100\"/></w:settings>"
}

/// The main document: the paragraphs, then the page size and margins.
pub open spec fn spec_document_xml(paragraphs: Seq<Seq<char>>, sizes: TextSizes) -> Seq<char> {
    spec_document_head() + concat(paragraphs) + spec_document_page_width() + decimal(
        sizes.page_width_twips as nat,
    ) + spec_document_page_height() + decimal(sizes.page_height_twips as nat) + spec_document_tail()
}

/// The styles: Times New Roman and SimSun at the text size.
pub open spec fn spec_styles_xml(hps: nat) -> Seq<char> {
    spec_styles_head() + decimal(hps) + spec_styles_middle() + decimal(hps) + spec_styles_tail()
}

/// The archive after adding a file, or the first error.
#[verifier::opaque]
pub open spec fn zip_add(
    st: Result<(Seq<u8>, Seq<EntryRecord>), Seq<char>>,
    name: Seq<char>,
    bytes: Seq<u8>,
) -> Result<(Seq<u8>, Seq<EntryRecord>), Seq<char>> {
    match st {
        Err(e) => Err(e),
        Ok((data, entries)) => if bytes.len() > u32::MAX {
            Err("DOCX part too large"@)
        } else if data.len() > u32::MAX {
            Err("DOCX package too large"@)
        } else {
            Ok(
                (
                    data + local_file(encode_utf8(name), bytes),
                    entries.push(
                        EntryRecord {
                            name: encode_utf8(name),
                            crc: spec_crc32(bytes),
                            size: bytes.len() as u32,
                            offset: data.len() as u32,
                        },
                    ),
                ),
            )
        },
    }
}

/// The archive of the six parts of a Word document, before its directory,
/// given its main document and its styles.
pub open spec fn docx_archive_of(document: Seq<char>, styles: Seq<char>) -> Result<
    (Seq<u8>, Seq<EntryRecord>),
    Seq<char>,
> {
    let s0 = Ok((Seq::<u8>::empty(), Seq::<EntryRecord>::empty()));
    let s1 = zip_add(s0, "[Content_Types].xml"@, encode_utf8(spec_content_types_xml()));
    let s2 = zip_add(s1, "_rels/.rels"@, encode_utf8(spec_package_rels_xml()));
    let s3 = zip_add(s2, "word/document.xml"@, encode_utf8(document));
    let s4 = zip_add(s3, "word/_rels/document.xml.rels"@, encode_utf8(spec_document_rels_xml()));
    let s5 = zip_add(s4, "word/styles.xml"@, encode_utf8(styles));
    zip_add(s5, "word/settings.xml"@, encode_utf8(spec_settings_xml()))
}

/// The archive of the six parts of a Word document, before its directory.
pub open spec fn docx_archive(paragraphs: Seq<Seq<char>>, sizes: TextSizes) -> Result<
    (Seq<u8>, Seq<EntryRecord>),
    Seq<char>,
> {
    docx_archive_of(spec_document_xml(paragraphs, sizes), spec_styles_xml(sizes.english_hps as nat))
}

/// The bytes of the Word document of `paragraphs`, or why it is too large
/// for a 32-bit archive.
pub open spec fn spec_build_docx(paragraphs: Seq<Seq<char>>, sizes: TextSizes) -> Result<Seq<u8>, Seq<char>> {
    match docx_archive(paragraphs, sizes) {
        Err(e) => Err(e),
        Ok((data, entries)) => if data.len() + central_directory(entries).len() <= u32::MAX {
            Ok(finished(data, entries))
        } else {
            Err("DOCX package too large"@)
        },
    }
}

proof fn lemma_zip_add_error(e: Seq<char>)
    ensures
        forall|name: Seq<char>, bytes: Seq<u8>|
            #[trigger] zip_add(Err(e), name, bytes) == Err::<(Seq<u8>, Seq<EntryRecord>), Seq<char>>(e),
{
    reveal(zip_add);
}

proof fn lemma_zip_add_ok(
    st: Result<(Seq<u8>, Seq<EntryRecord>), Seq<char>>,
    name: Seq<char>,
    bytes: Seq<u8>,
)
    ensures
        zip_add(st, name, bytes) matches Ok((d, es)) ==> es.len() >= 1,
{
    reveal(zip_add);
}

fn add_part(zip: &mut ZipWriter, name: &str, text: &str) -> (r: Result<(), String>)
    requires
        old(zip).wf(),
    ensures
        final(zip).wf(),
        ({
            let before = Ok::<(Seq<u8>, Seq<EntryRecord>), Seq<char>>(
                (old(zip).data_view(), old(zip).entries_view()),
            );
            match zip_add(before, name@, encode_utf8(text@)) {
                Ok((d, es)) => r is Ok && final(zip).data_view() == d && final(zip).entries_view() == es,
                Err(e) => r matches Err(x) && x@ == e,
            }
        }),
{
    reveal(zip_add);
    let bytes = text.as_bytes_vec();
    zip.add(name, bytes.as_slice())
}

fn document_xml(paragraphs: &Vec<String>, sizes: TextSizes) -> (r: String)
    ensures
        r@ == spec_document_xml(paragraphs.deep_view(), sizes),
{
    let mut xml = String::new();
    push_str(&mut xml, document_head());
    let body = crate::pronounce::join_all(paragraphs);
    push_str(&mut xml, body.as_str());
    push_str(&mut xml, document_page_width());
    push_decimal(&mut xml, sizes.page_width_twips as u64);
    push_str(&mut xml, document_page_height());
    push_decimal(&mut xml, sizes.page_height_twips as u64);
    push_str(&mut xml, document_tail());
    assert(xml@ =~= spec_document_xml(paragraphs.deep_view(), sizes));
    xml
}

fn styles_xml(hps: usize) -> (r: String)
    ensures
        r@ == spec_styles_xml(hps as nat),
{
    let mut xml = String::new();
    push_str(&mut xml, styles_head());
    push_decimal(&mut xml, hps as u64);
    push_str(&mut xml, styles_middle());
    push_decimal(&mut xml, hps as u64);
    push_str(&mut xml, styles_tail());
    assert(xml@ =~= spec_styles_xml(hps as nat));
    xml
}

fn directory_size(zip: &ZipWriter) -> (r: Option<usize>)
    requires
        zip.wf(),
    ensures
        r matches Some(n) ==> n == zip.directory_end(),
        r is None ==> zip.directory_end() > usize::MAX,
{
    let mut total: usize = zip.data.len();
    let mut i: usize = 0;
    let ghost entries = zip.entries_view();
    assert(entries.take(0) =~= Seq::<EntryRecord>::empty());
    while i < zip.entries.len()
        invariant
            i <= zip.entries@.len(),
            entries == zip.entries_view(),
            total == zip.data_view().len() + central_directory(entries.take(i as int)).len(),
        decreases zip.entries@.len() - i,
    {
        assert(entries.take(i + 1).drop_last() =~= entries.take(i as int));
        assert(entries[i as int] == record_of(zip.entries@[i as int]));
        let n = zip.entries[i].name.len();
        if total > usize::MAX - 46 || n > usize::MAX - 46 - total {
            proof {
                lemma_central_grows(entries, (i + 1) as int);
            }
            return None;
        }
        total = total + 46 + n;
        i += 1;
    }
    assert(entries.take(zip.entries@.len() as int) =~= entries);
    Some(total)
}

proof fn lemma_central_grows(entries: Seq<EntryRecord>, k: int)
    requires
        0 <= k <= entries.len(),
    ensures
        central_directory(entries.take(k)).len() <= central_directory(entries).len(),
    decreases entries.len() - k,
{
    if k < entries.len() {
        lemma_central_grows(entries, k + 1);
        assert(entries.take(k + 1).drop_last() =~= entries.take(k));
    } else {
        assert(entries.take(k) =~= entries);
    }
}

fn pack_parts(document: &String, styles: &String) -> (r: Result<ZipWriter, String>)
    ensures
        match docx_archive_of(document@, styles@) {
            Ok((d, es)) => r matches Ok(z) && z.wf() && z.data_view() == d && z.entries_view() == es,
            Err(e) => r matches Err(x) && x@ == e,
        },
{
    let mut zip = ZipWriter::new();
    match add_part(&mut zip, "[Content_Types].xml", content_types_xml()) {
        Ok(()) => {},
        Err(e) => {
            proof {
                lemma_zip_add_error(e@);
            }
            return Err(e);
        },
    }
    match add_part(&mut zip, "_rels/.rels", package_rels_xml()) {
        Ok(()) => {},
        Err(e) => {
            proof {
                lemma_zip_add_error(e@);
            }
            return Err(e);
        },
    }
    match add_part(&mut zip, "word/document.xml", document.as_str()) {
        Ok(()) => {},
        Err(e) => {
            proof {
                lemma_zip_add_error(e@);
            }
            return Err(e);
        },
    }
    match add_part(&mut zip, "word/_rels/document.xml.rels", document_rels_xml()) {
        Ok(()) => {},
        Err(e) => {
            proof {
                lemma_zip_add_error(e@);
            }
            return Err(e);
        },
    }
    match add_part(&mut zip, "word/styles.xml", styles.as_str()) {
        Ok(()) => {},
        Err(e) => {
            proof {
                lemma_zip_add_error(e@);
            }
            return Err(e);
        },
    }
    match add_part(&mut zip, "word/settings.xml", settings_xml()) {
        Ok(()) => {},
        Err(e) => {
            return Err(e);
        },
    }
    Ok(zip)
}

/// A packed Word document holds at least one entry.
proof fn lemma_archive_has_entries(document: Seq<char>, styles: Seq<char>)
    ensures
        docx_archive_of(document, styles) matches Ok((d, es)) ==> es.len() >= 1,
{
    let s5 = zip_add(
        zip_add(
            zip_add(
                zip_add(
                    zip_add(
                        Ok((Seq::<u8>::empty(), Seq::<EntryRecord>::empty())),
                        "[Content_Types].xml"@,
                        encode_utf8(spec_content_types_xml()),
                    ),
                    "_rels/.rels"@,
                    encode_utf8(spec_package_rels_xml()),
                ),
                "word/document.xml"@,
                encode_utf8(document),
            ),
            "word/_rels/document.xml.rels"@,
            encode_utf8(spec_document_rels_xml()),
        ),
        "word/styles.xml"@,
        encode_utf8(styles),
    );
    lemma_zip_add_ok(s5, "word/settings.xml"@, encode_utf8(spec_settings_xml()));
}

/// The signature of a local file header, byte by byte.
proof fn lemma_local_signature()
    ensures
        le32(0x0403_4b50) == seq![0x50u8, 0x4bu8, 0x03u8, 0x04u8],
{
    assert(le32(0x0403_4b50) =~= seq![0x50u8, 0x4bu8, 0x03u8, 0x04u8]);
}

/// Packs the paragraphs into a Word document of the page size, with the
/// text size as the default style. What comes back starts with `PK` and
/// the bytes `3` and `4`, as every ZIP archive does.
pub fn build_docx(paragraphs: &Vec<String>, sizes: TextSizes) -> (r: Result<Vec<u8>, String>)
    ensures
        match spec_build_docx(paragraphs.deep_view(), sizes) {
            Ok(bytes) => r matches Ok(b) && b@ == bytes && b@.take(4) == seq![0x50u8, 0x4bu8, 0x03u8, 0x04u8],
            Err(e) => r matches Err(x) && x@ == e,
        },
{
    let document = document_xml(paragraphs, sizes);
    let styles = styles_xml(sizes.english_hps);
    let zip = match pack_parts(&document, &styles) {
        Ok(z) => z,
        Err(e) => return Err(e),
    };
    proof {
        lemma_archive_has_entries(document@, styles@);
        lemma_local_signature();
    }
    match directory_size(&zip) {
        Some(n) => {
            if n > 0xffff_ffff {
                return Err(owned("DOCX package too large"));
            }
        },
        None => return Err(owned("DOCX package too large")),
    }
    let bytes = zip.finish();
    Ok(bytes)
}

} // verus!
