//! Documents that are shared in a department: reading their text, cutting it
//! into chunks, and the memories that stand for them.
use vstd::prelude::*;
use vstd::utf8::encode_utf8;
use std::io::Read;
use crate::hash;
use crate::paths;
use crate::text;

verus! {

/// How large a document may be, in bytes.
pub const MAX_DOC_BYTES: u64 = 20971520;

/// How many characters a chunk has at most.
pub const CHUNK_CHARS: usize = 3500;

/// How many characters a chunk repeats of the one before.
pub const OVERLAP_CHARS: usize = 200;

/// The namespace of the department.
pub const DEFAULT_DEPT_NS: &'static str = "org/cs-pufa-2nd-thermal/dept/gufei";

/// What came of storing a document.
#[derive(Debug)]
pub struct IngestOutcome {
    pub doc_id: String,
    pub namespace: String,
    pub filename: String,
    pub kind: String,
    pub raw_ref: String,
    pub chars: usize,
    pub chunk_count: usize,
    pub manifest_id: String,
    pub chunk_ids: Vec<String>,
}

/// The kind of a document, by its lower-case name or its media type.
pub open spec fn kind_by(lower: Seq<char>, media: Option<Seq<char>>) -> Option<Seq<char>> {
    if text::ends(lower, ".pdf"@) || media == Some("application/pdf"@) {
        Some("pdf"@)
    } else if text::ends(lower, ".docx"@) || media == Some(
        "application/vnd.openxmlformats-officedocument.wordprocessingml.document"@,
    ) {
        Some("docx"@)
    } else if text::ends(lower, ".xlsx"@) || media == Some(
        "application/vnd.openxmlformats-officedocument.spreadsheetml.sheet"@,
    ) {
        Some("xlsx"@)
    } else if text::ends(lower, ".xls"@) || media == Some("application/vnd.ms-excel"@) {
        Some("xls"@)
    } else {
        None
    }
}

fn is_media(media: Option<&str>, m: &str) -> (r: bool)
    ensures
        r == (text::opt_str(media) == Some(m@)),
{
    match media {
        Some(x) => text::same(x, m),
        None => false,
    }
}

/// The kind of a document, by its name in lower case or its media type.
pub fn kind_of(lower: &str, content_type: Option<&str>) -> (r: Option<&'static str>)
    ensures
        text::opt_str(r) == kind_by(lower@, text::opt_str(content_type)),
{
    if text::ends_with(lower, ".pdf") || is_media(content_type, "application/pdf") {
        Some("pdf")
    } else if text::ends_with(lower, ".docx") || is_media(
        content_type,
        "application/vnd.openxmlformats-officedocument.wordprocessingml.document",
    ) {
        Some("docx")
    } else if text::ends_with(lower, ".xlsx") || is_media(
        content_type,
        "application/vnd.openxmlformats-officedocument.spreadsheetml.sheet",
    ) {
        Some("xlsx")
    } else if text::ends_with(lower, ".xls") || is_media(content_type, "application/vnd.ms-excel") {
        Some("xls")
    } else {
        None
    }
}

/// The kind of a document, by its name or its media type.
pub fn detect_kind(filename: &str, content_type: Option<&str>) -> (r: Option<&'static str>)
    ensures
        text::opt_str(r) == kind_by(text::lowercased(filename@), text::opt_str(content_type)),
{
    kind_of(text::to_lowercase(filename).as_str(), content_type)
}

/// How many characters of `s` are not white space.
pub open spec fn solid_count(s: Seq<char>) -> nat
    decreases s.len(),
{
    if s.len() == 0 {
        0
    } else if text::is_space(s.last()) {
        solid_count(s.drop_last())
    } else {
        solid_count(s.drop_last()) + 1
    }
}

/// Counts the characters of `s` that are not white space.
pub fn count_solid(s: &str) -> (r: usize)
    ensures
        r == solid_count(s@),
{
    let v = text::chars_of(s);
    let mut i: usize = 0;
    let mut n: usize = 0;
    assert(v@.take(0) =~= Seq::<char>::empty());
    while i < v.len()
        invariant
            i <= v@.len(),
            n <= i,
            n == solid_count(v@.take(i as int)),
        decreases v@.len() - i,
    {
        assert(v@.take(i + 1).drop_last() =~= v@.take(i as int));
        if !text::space(v[i]) {
            n += 1;
        }
        i += 1;
    }
    assert(v@.take(v@.len() as int) =~= v@);
    n
}

/// What reading a document in the PDF format came to.
#[derive(Debug)]
pub enum PdfRead {
    Text(String),
    /// It could not be parsed, for this reason.
    Fault(String),
    /// The parser gave up without a reason.
    Broken,
}

pub open spec fn text_result(r: Result<String, String>) -> Result<Seq<char>, Seq<char>> {
    match r {
        Ok(s) => Ok(s@),
        Err(e) => Err(e@),
    }
}

/// The text of a document in the PDF format. One with fewer than 50 characters
/// that are not white space holds pictures only.
pub open spec fn pdf_text(read: PdfRead) -> Result<Seq<char>, Seq<char>> {
    match read {
        PdfRead::Text(t) => if solid_count(t@) < 50 {
            Err("PDF 似乎是扫描件/纯图片，当前不支持 OCR。请上传可选中文字的 PDF。"@)
        } else {
            Ok(t@)
        },
        PdfRead::Fault(e) => Err("PDF parse error: "@ + e@),
        PdfRead::Broken => Err("PDF parsing failed unexpectedly"@),
    }
}

/// The text of a document in the PDF format.
pub fn extract_pdf(read: &PdfRead) -> (r: Result<String, String>)
    ensures
        text_result(r) == pdf_text(*read),
{
    match read {
        PdfRead::Text(t) => if count_solid(t.as_str()) < 50 {
            Err(
                "PDF 似乎是扫描件/纯图片，当前不支持 OCR。请上传可选中文字的 PDF。".to_string(),
            )
        } else {
            Ok(t.clone())
        },
        PdfRead::Fault(e) => Err(text::cat("PDF parse error: ", e.as_str())),
        PdfRead::Broken => Err("PDF parsing failed unexpectedly".to_string()),
    }
}

/// Why an entry of an archive could not be read.
#[derive(Debug)]
pub enum ZipFault {
    /// The bytes are no archive.
    Archive(String),
    /// The archive has no such entry, or none that can be opened.
    Missing,
    /// The entry is no text.
    Entry(String),
}

pub enum ZipFaultView {
    Archive(Seq<char>),
    Missing,
    Entry(Seq<char>),
}

impl ZipFault {
    pub open spec fn view(&self) -> ZipFaultView {
        match self {
            ZipFault::Archive(e) => ZipFaultView::Archive(e@),
            ZipFault::Missing => ZipFaultView::Missing,
            ZipFault::Entry(e) => ZipFaultView::Entry(e@),
        }
    }
}

/// The text of the entry `name` in the archive `data`, as the `zip` crate reads
/// it.
pub uninterp spec fn entry_text(data: Seq<u8>, name: Seq<char>) -> Result<Seq<char>, ZipFaultView>;

/// Opens `data` with `zip::ZipArchive::new`, finds the entry with
/// `ZipArchive::by_name` and reads it as UTF-8. What comes of it is a function of
/// the bytes and the name.
#[verifier::external_body]
fn read_entry(data: &[u8], name: &str) -> (r: Result<String, ZipFault>)
    ensures
        match r {
            Ok(s) => entry_text(data@, name@) == Ok::<Seq<char>, ZipFaultView>(s@),
            Err(e) => entry_text(data@, name@) == Err::<Seq<char>, ZipFaultView>(e@),
        },
{
    let mut archive = zip::ZipArchive::new(std::io::Cursor::new(data)).map_err(
        |e| ZipFault::Archive(e.to_string()),
    )?;
    let mut entry = archive.by_name(name).map_err(|_| ZipFault::Missing)?;
    let mut s = String::new();
    entry.read_to_string(&mut s).map_err(|e| ZipFault::Entry(e.to_string()))?;
    Ok(s)
}

/// A step through the text of an XML document.
#[derive(Debug)]
pub enum Markup {
    /// An element of this name begins.
    Start(String),
    /// An element of this name ends.
    End(String),
    Text(String),
    /// Anything else: a comment, a declaration, an empty element.
    Other,
    /// The document ends.
    Eof,
    /// The document is broken.
    Fault(String),
}

pub enum MarkupView {
    Start(Seq<char>),
    End(Seq<char>),
    Text(Seq<char>),
    Other,
    Eof,
    Fault(Seq<char>),
}

impl Markup {
    pub open spec fn view(&self) -> MarkupView {
        match self {
            Markup::Start(n) => MarkupView::Start(n@),
            Markup::End(n) => MarkupView::End(n@),
            Markup::Text(t) => MarkupView::Text(t@),
            Markup::Other => MarkupView::Other,
            Markup::Eof => MarkupView::Eof,
            Markup::Fault(e) => MarkupView::Fault(e@),
        }
    }
}

/// `quick_xml::Reader`, as an opaque value.
#[verifier::external_type_specification]
#[verifier::external_body]
#[verifier::reject_recursive_types(R)]
pub struct ExReader<R>(quick_xml::Reader<R>);

/// The steps that a reader has still to give, up to the end of the document or
/// its first fault.
pub uninterp spec fn steps_left(r: quick_xml::Reader<&[u8]>) -> Seq<MarkupView>;

/// The steps through an XML document, white space at both ends of its texts left
/// out, as the `quick-xml` crate takes them.
pub uninterp spec fn markup_of(s: Seq<char>) -> Seq<MarkupView>;

/// Nothing follows this step.
pub open spec fn is_last(m: MarkupView) -> bool {
    m is Eof || m is Fault
}

/// Calls `quick_xml::Reader::from_str` and sets `trim_text`. The steps that the
/// reader gives are a function of the text, and there is at least one.
#[verifier::external_body]
fn open_markup<'a>(s: &'a str) -> (r: quick_xml::Reader<&'a [u8]>)
    ensures
        steps_left(r) == markup_of(s@),
        steps_left(r).len() > 0,
{
    let mut reader = quick_xml::Reader::from_str(s);
    reader.config_mut().trim_text(true);
    reader
}

/// Calls `quick_xml::Reader::read_event_into`, which gives the next step. Each
/// step but the last takes at least one byte of the document, so the steps come
/// to an end. Names are decoded and texts unescaped; one that cannot be counts as
/// empty.
#[verifier::external_body]
fn next_markup<'a>(reader: &mut quick_xml::Reader<&'a [u8]>) -> (r: Markup)
    requires
        steps_left(*old(reader)).len() > 0,
    ensures
        r@ == steps_left(*old(reader))[0],
        steps_left(*final(reader)) == steps_left(*old(reader)).skip(1),
        is_last(r@) <==> steps_left(*final(reader)).len() == 0,
{
    let mut buf = Vec::new();
    let event = reader.read_event_into(&mut buf);
    let decoder = reader.decoder();
    match event {
        Ok(quick_xml::events::Event::Start(e)) => Markup::Start(decoder.decode(e.name().as_ref()).unwrap_or_default().into_owned()),
        Ok(quick_xml::events::Event::End(e)) => Markup::End(decoder.decode(e.name().as_ref()).unwrap_or_default().into_owned()),
        Ok(quick_xml::events::Event::Text(t)) => Markup::Text(t.unescape().unwrap_or_default().into_owned()),
        Ok(quick_xml::events::Event::Eof) => Markup::Eof,
        Ok(_) => Markup::Other,
        Err(e) => Markup::Fault(e.to_string()),
    }
}

/// The name of an element that holds text.
pub open spec fn text_element(name: Seq<char>) -> bool {
    text::ends(name, ":t"@) || name == "t"@
}

/// The name of a paragraph.
pub open spec fn paragraph_element(name: Seq<char>) -> bool {
    text::ends(name, ":p"@) || name == "p"@
}

/// The text that the steps spell out: what stands in text elements, a blank
/// behind each of these and an empty line behind each paragraph. `inside` tells
/// whether a text element is open, `out` is what has been spelled out.
pub open spec fn spelled_out(
    steps: Seq<MarkupView>,
    inside: bool,
    out: Seq<char>,
) -> Result<Seq<char>, Seq<char>>
    decreases steps.len(),
{
    if steps.len() == 0 {
        Ok(out)
    } else {
        match steps[0] {
            MarkupView::Start(n) => spelled_out(steps.skip(1), inside || text_element(n), out),
            MarkupView::End(n) => spelled_out(
                steps.skip(1),
                inside && !text_element(n),
                out + (if text_element(n) {
                    seq![' ']
                } else {
                    Seq::empty()
                }) + (if paragraph_element(n) {
                    "\n\n"@
                } else {
                    Seq::empty()
                }),
            ),
            MarkupView::Text(t) => spelled_out(
                steps.skip(1),
                inside,
                if inside {
                    out + t
                } else {
                    out
                },
            ),
            MarkupView::Other => spelled_out(steps.skip(1), inside, out),
            MarkupView::Eof => Ok(out),
            MarkupView::Fault(e) => Err("DOCX XML: "@ + e),
        }
    }
}

fn is_text_element(name: &str) -> (r: bool)
    ensures
        r == text_element(name@),
{
    text::ends_with(name, ":t") || text::same(name, "t")
}

fn is_paragraph_element(name: &str) -> (r: bool)
    ensures
        r == paragraph_element(name@),
{
    text::ends_with(name, ":p") || text::same(name, "p")
}

/// The views of steps.
pub open spec fn markups(v: Seq<Markup>) -> Seq<MarkupView> {
    Seq::new(v.len(), |i: int| v[i]@)
}

/// Spells out the text that steps through an XML document give.
pub fn spell_out(steps: &Vec<Markup>) -> (r: Result<String, String>)
    ensures
        text_result(r) == spelled_out(markups(steps@), false, Seq::empty()),
{
    let ghost all = spelled_out(markups(steps@), false, Seq::empty());
    let mut out = String::new();
    let mut inside: bool = false;
    let mut i: usize = 0;
    assert(out@ =~= Seq::empty());
    assert(markups(steps@).skip(0) =~= markups(steps@));
    while i < steps.len()
        invariant
            i <= steps@.len(),
            spelled_out(markups(steps@).skip(i as int), inside, out@) == all,
            all == spelled_out(markups(steps@), false, Seq::empty()),
        decreases steps@.len() - i,
    {
        proof {
            let rest = markups(steps@).skip(i as int);
            assert(rest[0] == steps@[i as int]@);
            assert(rest.skip(1) =~= markups(steps@).skip(i + 1));
        }
        match &steps[i] {
            Markup::Start(n) => {
                if is_text_element(n.as_str()) {
                    inside = true;
                }
            },
            Markup::End(n) => {
                let ghost before = out@;
                if is_text_element(n.as_str()) {
                    inside = false;
                    out.push(' ');
                }
                let ghost between = out@;
                if is_paragraph_element(n.as_str()) {
                    out.append("\n\n");
                }
                assert(between =~= before + (if text_element(n@) {
                    seq![' ']
                } else {
                    Seq::empty()
                }));
                assert(out@ =~= between + (if paragraph_element(n@) {
                    "\n\n"@
                } else {
                    Seq::empty()
                }));
            },
            Markup::Text(t) => {
                if inside {
                    out.append(t.as_str());
                }
            },
            Markup::Other => {},
            Markup::Eof => {
                return Ok(out);
            },
            Markup::Fault(e) => {
                return Err(text::cat("DOCX XML: ", e.as_str()));
            },
        }
        i += 1;
    }
    Ok(out)
}

/// Takes the steps through an XML document, up to its end or its first fault.
fn read_markup(xml: &str) -> (r: Vec<Markup>)
    ensures
        markups(r@) == markup_of(xml@),
{
    let mut reader = open_markup(xml);
    let mut steps: Vec<Markup> = Vec::new();
    let mut over: bool = false;
    assert(markups(steps@) + steps_left(reader) =~= markup_of(xml@));
    while !over
        invariant
            over <==> steps_left(reader).len() == 0,
            markups(steps@) + steps_left(reader) == markup_of(xml@),
        decreases steps_left(reader).len(),
    {
        let ghost before = steps@;
        let ghost left = steps_left(reader);
        let step = next_markup(&mut reader);
        over = match &step {
            Markup::Eof => true,
            Markup::Fault(_) => true,
            _ => false,
        };
        steps.push(step);
        assert(markups(steps@) =~= markups(before).push(left[0]));
        assert(markups(steps@) + steps_left(reader) =~= markups(before) + left);
    }
    assert(markups(steps@) =~= markup_of(xml@));
    steps
}

/// The text of an XML document.
pub fn markup_text(xml: &str) -> (r: Result<String, String>)
    ensures
        text_result(r) == spelled_out(markup_of(xml@), false, Seq::empty()),
{
    spell_out(&read_markup(xml))
}

/// A text with at least ten characters that are not white space; else the
/// refusal.
pub open spec fn substantial(
    t: Result<Seq<char>, Seq<char>>,
    refusal: Seq<char>,
) -> Result<Seq<char>, Seq<char>> {
    match t {
        Ok(s) => if solid_count(s) < 10 {
            Err(refusal)
        } else {
            Ok(s)
        },
        Err(e) => Err(e),
    }
}

/// The text of a document in the DOCX format, from its entry.
pub open spec fn docx_text(entry: Result<Seq<char>, ZipFaultView>) -> Result<Seq<char>, Seq<char>> {
    match entry {
        Ok(xml) => substantial(
            spelled_out(markup_of(xml), false, Seq::empty()),
            "DOCX 未提取到有效文本"@,
        ),
        Err(ZipFaultView::Archive(e)) => Err("DOCX zip: "@ + e),
        Err(ZipFaultView::Missing) => Err("DOCX 缺少 word/document.xml"@),
        Err(ZipFaultView::Entry(e)) => Err("read document.xml: "@ + e),
    }
}

/// The text of a document in the DOCX format, from the steps through its entry.
pub fn docx_of_markup(steps: &Vec<Markup>) -> (r: Result<String, String>)
    ensures
        text_result(r) == substantial(
            spelled_out(markups(steps@), false, Seq::empty()),
            "DOCX 未提取到有效文本"@,
        ),
{
    match spell_out(steps) {
        Ok(s) => if count_solid(s.as_str()) < 10 {
            Err("DOCX 未提取到有效文本".to_string())
        } else {
            Ok(s)
        },
        Err(e) => Err(e),
    }
}

/// The text of a document in the DOCX format, from its entry.
pub fn docx_of_entry(entry: Result<String, ZipFault>) -> (r: Result<String, String>)
    ensures
        text_result(r) == docx_text(
            match entry {
                Ok(s) => Ok(s@),
                Err(e) => Err(e@),
            },
        ),
{
    match entry {
        Ok(xml) => docx_of_markup(&read_markup(xml.as_str())),
        Err(ZipFault::Archive(e)) => Err(text::cat("DOCX zip: ", e.as_str())),
        Err(ZipFault::Missing) => Err("DOCX 缺少 word/document.xml".to_string()),
        Err(ZipFault::Entry(e)) => Err(text::cat("read document.xml: ", e.as_str())),
    }
}

/// The text of a document in the DOCX format.
pub fn extract_docx(bytes: &[u8]) -> (r: Result<String, String>)
    ensures
        text_result(r) == docx_text(entry_text(bytes@, "word/document.xml"@)),
{
    docx_of_entry(read_entry(bytes, "word/document.xml"))
}

/// A sheet of a workbook: its name, and the texts of its cells row by row. One
/// that cannot be read has no rows to show.
#[derive(Debug)]
pub struct Sheet {
    pub name: String,
    pub rows: Option<Vec<Vec<String>>>,
}

/// What reading a workbook came to: its sheets, or why it could not be opened.
#[derive(Debug)]
pub enum BookRead {
    Sheets(Vec<Sheet>),
    Fault(String),
}

/// The rows as lines, the cells of each set apart by tabs.
pub open spec fn rows_text(rows: Seq<Vec<String>>) -> Seq<char>
    decreases rows.len(),
{
    if rows.len() == 0 {
        Seq::empty()
    } else {
        rows_text(rows.drop_last()) + text::joined(text::texts(rows.last()@), "\t"@).push('\n')
    }
}

/// A sheet with its heading and an empty line behind it; nothing where it cannot
/// be read.
pub open spec fn sheet_text(s: Sheet) -> Seq<char> {
    match s.rows {
        Some(rows) => ("# Sheet: "@ + s.name@ + "\n"@ + rows_text(rows@)).push('\n'),
        None => Seq::empty(),
    }
}

/// The sheets one behind the other.
pub open spec fn sheets_text(sheets: Seq<Sheet>) -> Seq<char>
    decreases sheets.len(),
{
    if sheets.len() == 0 {
        Seq::empty()
    } else {
        sheets_text(sheets.drop_last()) + sheet_text(sheets.last())
    }
}

/// The text of a workbook.
pub open spec fn book_text(book: BookRead) -> Result<Seq<char>, Seq<char>> {
    match book {
        BookRead::Sheets(s) => substantial(Ok(sheets_text(s@)), "Excel 未提取到有效文本"@),
        BookRead::Fault(e) => Err("Excel 打开失败: "@ + e@),
    }
}

fn write_rows(rows: &Vec<Vec<String>>) -> (r: String)
    ensures
        r@ == rows_text(rows@),
{
    let mut out = String::new();
    let mut i: usize = 0;
    assert(out@ =~= rows_text(rows@.take(0)));
    while i < rows.len()
        invariant
            i <= rows@.len(),
            out@ == rows_text(rows@.take(i as int)),
        decreases rows@.len() - i,
    {
        assert(rows@.take(i + 1).drop_last() =~= rows@.take(i as int));
        let ghost before = out@;
        let line = text::join(&rows[i], "\t");
        out.append(line.as_str());
        out.push('\n');
        assert(out@ =~= before + line@.push('\n'));
        i += 1;
    }
    assert(rows@.take(rows@.len() as int) =~= rows@);
    out
}

/// The text of a workbook.
pub fn extract_spreadsheet(book: &BookRead) -> (r: Result<String, String>)
    ensures
        text_result(r) == book_text(*book),
{
    let sheets = match book {
        BookRead::Sheets(s) => s,
        BookRead::Fault(e) => {
            return Err(text::cat("Excel 打开失败: ", e.as_str()));
        },
    };
    let mut out = String::new();
    let mut i: usize = 0;
    assert(out@ =~= sheets_text(sheets@.take(0)));
    while i < sheets.len()
        invariant
            i <= sheets@.len(),
            out@ == sheets_text(sheets@.take(i as int)),
        decreases sheets@.len() - i,
    {
        assert(sheets@.take(i + 1).drop_last() =~= sheets@.take(i as int));
        let ghost before = out@;
        match &sheets[i].rows {
            Some(rows) => {
                let head = text::cat3("# Sheet: ", sheets[i].name.as_str(), "\n");
                let body = write_rows(rows);
                let mut s = text::cat(head.as_str(), body.as_str());
                s.push('\n');
                assert(s@ == sheet_text(sheets@[i as int]));
                out.append(s.as_str());
            },
            None => {
                assert(before + sheet_text(sheets@[i as int]) =~= before);
            },
        }
        i += 1;
    }
    assert(sheets@.take(sheets@.len() as int) =~= sheets@);
    if count_solid(out.as_str()) < 10 {
        Err("Excel 未提取到有效文本".to_string())
    } else {
        Ok(out)
    }
}

/// What the readers that run outside the library made of a document. Each is
/// looked at only for documents of its own format.
#[derive(Debug)]
pub struct Reading {
    pub pdf: PdfRead,
    pub book: BookRead,
}

/// The text of a document.
pub open spec fn extracted(kind: Seq<char>, bytes: Seq<u8>, reading: Reading) -> Result<
    Seq<char>,
    Seq<char>,
> {
    if kind == "pdf"@ {
        pdf_text(reading.pdf)
    } else if kind == "docx"@ {
        docx_text(entry_text(bytes, "word/document.xml"@))
    } else if kind == "xlsx"@ || kind == "xls"@ {
        book_text(reading.book)
    } else {
        Err("unsupported kind: "@ + kind)
    }
}

/// Reads the text of a document.
pub fn extract_text(kind: &str, bytes: &[u8], reading: &Reading) -> (r: Result<String, String>)
    ensures
        text_result(r) == extracted(kind@, bytes@, *reading),
{
    if text::same(kind, "pdf") {
        extract_pdf(&reading.pdf)
    } else if text::same(kind, "docx") {
        extract_docx(bytes)
    } else if text::same(kind, "xlsx") || text::same(kind, "xls") {
        extract_spreadsheet(&reading.book)
    } else {
        Err(text::cat("unsupported kind: ", kind))
    }
}

/// A text that was read from a document is never blank.
pub proof fn law_extracted_is_substantial(kind: Seq<char>, bytes: Seq<u8>, reading: Reading)
    requires
        extracted(kind, bytes, reading) is Ok,
    ensures
        solid_count(extracted(kind, bytes, reading)->Ok_0) >= 10,
        extracted(kind, bytes, reading)->Ok_0.len() >= 10,
{
    lemma_solid_count(extracted(kind, bytes, reading)->Ok_0);
}

proof fn lemma_solid_count(s: Seq<char>)
    ensures
        solid_count(s) <= s.len(),
    decreases s.len(),
{
    if s.len() > 0 {
        lemma_solid_count(s.drop_last());
    }
}

/// Where the chunk that begins at `i` ends.
pub open spec fn chunk_end(len: int, size: int, i: int) -> int {
    if i + size < len {
        i + size
    } else {
        len
    }
}

/// Where the chunk behind the one from `i` to `end` begins: a little before its
/// end, and behind its beginning.
pub open spec fn next_start(i: int, end: int) -> int {
    if end - OVERLAP_CHARS > i {
        end - OVERLAP_CHARS
    } else {
        i + 1
    }
}

/// The chunks of a text of `len` characters from position `i` on, each as where
/// it begins and where it ends.
pub open spec fn chunk_ranges(len: int, size: int, i: int) -> Seq<(int, int)>
    decreases len - i,
{
    if i < 0 || i >= len {
        Seq::empty()
    } else {
        let end = chunk_end(len, size, i);
        if end >= len {
            seq![(i, end)]
        } else {
            seq![(i, end)] + chunk_ranges(len, size, next_start(i, end))
        }
    }
}

/// The chunks of a text, at most `size` characters each.
pub open spec fn chunks_of(s: Seq<char>, size: int) -> Seq<Seq<char>> {
    let ranges = chunk_ranges(s.len() as int, size, 0);
    Seq::new(ranges.len(), |k: int| s.subrange(ranges[k].0, ranges[k].1))
}

/// Cuts a text into chunks of at most `chunk_chars` characters, each with the end
/// of the one before at its beginning.
pub fn chunk_text(text: &str, chunk_chars: usize) -> (r: Vec<String>)
    ensures
        text::texts(r@) == chunks_of(text@, chunk_chars as int),
{
    let v = text::chars_of(text);
    let n = v.len();
    let mut out: Vec<String> = Vec::new();
    let ghost all = chunk_ranges(n as int, chunk_chars as int, 0);
    let ghost mut done: Seq<(int, int)> = Seq::empty();
    let mut i: usize = 0;
    assert(done + chunk_ranges(n as int, chunk_chars as int, 0) =~= all);
    while i < n
        invariant_except_break
            i <= n,
            done + chunk_ranges(n as int, chunk_chars as int, i as int) == all,
        invariant
            n == v@.len(),
            v@ == text@,
            all == chunk_ranges(n as int, chunk_chars as int, 0),
            out@.len() == done.len(),
            forall|k: int|
                0 <= k < done.len() ==> (#[trigger] out@[k])@ == text@.subrange(
                    done[k].0,
                    done[k].1,
                ),
        ensures
            done == all,
        decreases n - i,
    {
        let end: usize = if chunk_chars < n - i {
            i + chunk_chars
        } else {
            n
        };
        out.push(text::string_between(&v, i, end));
        let ghost before = done;
        proof {
            done = done.push((i as int, end as int));
            assert(before + seq![(i as int, end as int)] =~= done);
        }
        if end >= n {
            assert(done =~= all);
            break ;
        }
        let ghost rest = chunk_ranges(n as int, chunk_chars as int, next_start(i as int, end as int));
        assert(before + (seq![(i as int, end as int)] + rest) =~= done + rest);
        i = if end >= OVERLAP_CHARS && end - OVERLAP_CHARS > i {
            end - OVERLAP_CHARS
        } else {
            i + 1
        };
        assert(i == next_start((done.last()).0, end as int));
        if i >= n {
            assert(done + chunk_ranges(n as int, chunk_chars as int, i as int) =~= done);
        }
    }
    assert(text::texts(out@) =~= chunks_of(text@, chunk_chars as int));
    out
}

/// The chunks cover the text without a gap: the first begins at its beginning,
/// each begins where the one before has not yet ended or just ends, and the last
/// ends at its end. None is empty or longer than asked for, and each begins behind
/// the one before.
pub proof fn law_chunks_cover(len: int, size: int, i: int)
    requires
        0 <= i < len,
        size > 0,
    ensures
        chunk_ranges(len, size, i).len() > 0,
        chunk_ranges(len, size, i)[0].0 == i,
        chunk_ranges(len, size, i).last().1 == len,
        forall|k: int|
            0 <= k < chunk_ranges(len, size, i).len() ==> i <= (#[trigger] chunk_ranges(
                len,
                size,
                i,
            )[k]).0 < chunk_ranges(len, size, i)[k].1 <= len && chunk_ranges(len, size, i)[k].1
                - chunk_ranges(len, size, i)[k].0 <= size,
        forall|k: int|
            #![trigger chunk_ranges(len, size, i)[k]]
            0 < k < chunk_ranges(len, size, i).len() ==> chunk_ranges(len, size, i)[k - 1].0
                < chunk_ranges(len, size, i)[k].0 <= chunk_ranges(len, size, i)[k - 1].1,
    decreases len - i,
{
    let end = chunk_end(len, size, i);
    let all = chunk_ranges(len, size, i);
    if end < len {
        let next = next_start(i, end);
        law_chunks_cover(len, size, next);
        let rest = chunk_ranges(len, size, next);
        assert(all == seq![(i, end)] + rest);
        assert(all.last() == rest.last());
        assert forall|k: int| 0 <= k < all.len() implies i <= (#[trigger] all[k]).0 < all[k].1
            <= len && all[k].1 - all[k].0 <= size by {
            if k > 0 {
                assert(all[k] == rest[k - 1]);
            }
        }
        assert forall|k: int| #![trigger all[k]] 0 < k < all.len() implies all[k - 1].0 < all[k].0
            <= all[k - 1].1 by {
            assert(all[k] == rest[k - 1]);
            if k > 1 {
                assert(all[k - 1] == rest[k - 2]);
            }
        }
    }
}

/// A character that may stand in the name of a stored file.
pub open spec fn name_char(c: char) -> bool {
    text::is_alnum(c) || c == '.' || c == '_' || c == '-'
}

fn is_name_char(c: char) -> (r: bool)
    ensures
        r == name_char(c),
{
    text::alnum(c) || c == '.' || c == '_' || c == '-'
}

/// The name under which a file is stored: the last part of its path, with an
/// underscore for every other character.
pub open spec fn stored_name(name: Seq<char>) -> Seq<char> {
    let base = match paths::last_named(text::split_on(name, '/')) {
        Some(b) => b,
        None => "upload.bin"@,
    };
    Seq::new(
        base.len(),
        |i: int|
            if name_char(base[i]) {
                base[i]
            } else {
                '_'
            },
    )
}

/// The name under which a file is stored.
pub fn safe_filename(name: &str) -> (r: String)
    ensures
        r@ == stored_name(name@),
{
    let base = match paths::file_name(name) {
        Some(b) => b,
        None => "upload.bin".to_string(),
    };
    let v = text::chars_of(base.as_str());
    let mut out: Vec<char> = Vec::new();
    let mut i: usize = 0;
    while i < v.len()
        invariant
            i <= v@.len(),
            out@.len() == i,
            forall|k: int|
                0 <= k < i ==> #[trigger] out@[k] == (if name_char(v@[k]) {
                    v@[k]
                } else {
                    '_'
                }),
        decreases v@.len() - i,
    {
        out.push(
            if is_name_char(v[i]) {
                v[i]
            } else {
                '_'
            },
        );
        i += 1;
    }
    let r = text::string_of(&out);
    assert(r@ =~= stored_name(name@));
    r
}

/// A namespace as the name of a directory: slashes become underscores, and every
/// other character that may not stand in a name is left out.
pub open spec fn ns_component(ns: Seq<char>) -> Seq<char>
    decreases ns.len(),
{
    if ns.len() == 0 {
        Seq::empty()
    } else {
        let p = ns_component(ns.drop_last());
        let c = ns.last();
        if c == '/' || c == '\\' {
            p.push('_')
        } else if name_char(c) {
            p.push(c)
        } else {
            p
        }
    }
}

/// A namespace as the name of a directory.
pub fn ns_dir_component(ns: &str) -> (r: String)
    ensures
        r@ == ns_component(ns@),
{
    let v = text::chars_of(ns);
    let mut out = String::new();
    let mut i: usize = 0;
    assert(out@ =~= ns_component(v@.take(0)));
    while i < v.len()
        invariant
            i <= v@.len(),
            out@ == ns_component(v@.take(i as int)),
        decreases v@.len() - i,
    {
        assert(v@.take(i + 1).drop_last() =~= v@.take(i as int));
        let c = v[i];
        if c == '/' || c == '\\' {
            out.push('_');
        } else if is_name_char(c) {
            out.push(c);
        }
        i += 1;
    }
    assert(v@.take(v@.len() as int) =~= v@);
    out
}

/// A stored name or directory leads nowhere else: there is no slash in it.
pub proof fn law_stored_names_stay_put(name: Seq<char>, ns: Seq<char>)
    ensures
        forall|i: int|
            0 <= i < stored_name(name).len() ==> name_char(#[trigger] stored_name(name)[i]),
        forall|i: int|
            0 <= i < ns_component(ns).len() ==> name_char(#[trigger] ns_component(ns)[i]),
    decreases ns.len(),
{
    if ns.len() > 0 {
        law_stored_names_stay_put(name, ns.drop_last());
        let p = ns_component(ns.drop_last());
        assert forall|i: int| 0 <= i < ns_component(ns).len() implies name_char(
            #[trigger] ns_component(ns)[i],
        ) by {
            if i < p.len() {
                assert(ns_component(ns)[i] == p[i]);
            }
        }
    }
}

/// A memory that is written for a document.
#[derive(Debug)]
pub struct Record {
    pub content: String,
    pub importance: i64,
    pub tags: String,
}

/// What is written for a document: the memory that stands for it and those that
/// hold its chunks, all of them with the same reference to the file.
#[derive(Debug)]
pub struct IngestPlan {
    pub doc_id: String,
    pub namespace: String,
    pub filename: String,
    pub kind: String,
    /// The directory of the file, below the root of all documents. None where
    /// there is no file.
    pub directory: Option<String>,
    pub stored_as: String,
    pub raw_ref: String,
    pub chars: usize,
    pub manifest: Record,
    pub chunks: Vec<Record>,
}

/// The memory type, the domain and the source domain of everything that is
/// written for a document.
pub const DOCUMENT_TYPE: &'static str = "document";

pub open spec fn manifest_tags(kind: Seq<char>, stored: Seq<char>) -> Seq<char> {
    "[\"document\",\""@ + kind + "\",\"dept-share\",\"file:"@ + stored + "\"]"@
}

pub open spec fn chunk_tags(kind: Seq<char>, stored: Seq<char>) -> Seq<char> {
    "[\"document\",\""@ + kind + "\",\"dept-share\",\"chunk\",\"file:"@ + stored + "\"]"@
}

/// What the memory that stands for a document says of it. `size` is the line on
/// its size, where there is a file.
pub open spec fn manifest_text(
    filename: Seq<char>,
    kind: Seq<char>,
    size: Seq<char>,
    t: Seq<char>,
    chunks: nat,
    raw_ref: Seq<char>,
) -> Seq<char> {
    "[文档] "@ + filename + "\n类型: "@ + kind + size + "\n字符: "@ + text::dec(t.len())
        + "\n分块: "@ + text::dec(chunks) + "\n路径: "@ + raw_ref + "\n---\n"@ + text::first_chars(
        t,
        400,
    )
}

/// What the memory that holds a chunk says.
pub open spec fn chunk_body(k: nat, total: nat, filename: Seq<char>, chunk: Seq<char>) -> Seq<char> {
    "[文档块 "@ + text::dec(k) + "/"@ + text::dec(total) + "] "@ + filename + "\n\n"@ + chunk
}

/// The memories are those for the chunks, in their order.
pub open spec fn holds_chunks(
    records: Seq<Record>,
    chunks: Seq<Seq<char>>,
    filename: Seq<char>,
    tags: Seq<char>,
) -> bool {
    &&& records.len() == chunks.len()
    &&& forall|k: int|
        0 <= k < chunks.len() ==> {
            &&& (#[trigger] records[k]).content@ == chunk_body(
                (k + 1) as nat,
                chunks.len(),
                filename,
                chunks[k],
            )
            &&& records[k].importance == 6
            &&& records[k].tags@ == tags
        }
}

/// What is written for a document with this text.
pub open spec fn plan_of(
    p: IngestPlan,
    namespace: Seq<char>,
    filename: Seq<char>,
    kind: Seq<char>,
    t: Seq<char>,
    size: Seq<char>,
) -> bool {
    let chunks = chunks_of(t, CHUNK_CHARS as int);
    &&& p.namespace@ == namespace
    &&& p.filename@ == filename
    &&& p.kind@ == kind
    &&& p.stored_as@ == stored_name(filename)
    &&& p.chars == t.len()
    &&& p.manifest.content@ == manifest_text(filename, kind, size, t, chunks.len(), p.raw_ref@)
    &&& p.manifest.importance == 7
    &&& p.manifest.tags@ == manifest_tags(kind, p.stored_as@)
    &&& holds_chunks(p.chunks@, chunks, filename, chunk_tags(kind, p.stored_as@))
}

fn chunk_records(chunks: &Vec<String>, filename: &str, tags: &str) -> (r: Vec<Record>)
    ensures
        holds_chunks(r@, text::texts(chunks@), filename@, tags@),
{
    let total = chunks.len();
    let mut out: Vec<Record> = Vec::new();
    let mut i: usize = 0;
    while i < total
        invariant
            i <= total,
            total == chunks@.len(),
            out@.len() == i,
            forall|k: int|
                0 <= k < i ==> {
                    &&& (#[trigger] out@[k]).content@ == chunk_body(
                        (k + 1) as nat,
                        total as nat,
                        filename@,
                        text::texts(chunks@)[k],
                    )
                    &&& out@[k].importance == 6
                    &&& out@[k].tags@ == tags@
                },
        decreases total - i,
    {
        let mut content = text::cat5(
            "[文档块 ",
            text::decimal(i as u64 + 1).as_str(),
            "/",
            text::decimal(total as u64).as_str(),
            "] ",
        );
        content.append(filename);
        content.append("\n\n");
        content.append(chunks[i].as_str());
        out.push(Record { content, importance: 6, tags: tags.to_string() });
        i += 1;
    }
    out
}

fn tags_of(kind: &str, stored: &str) -> (r: (String, String))
    ensures
        r.0@ == manifest_tags(kind@, stored@),
        r.1@ == chunk_tags(kind@, stored@),
{
    (
        text::cat5("[\"document\",\"", kind, "\",\"dept-share\",\"file:", stored, "\"]"),
        text::cat5("[\"document\",\"", kind, "\",\"dept-share\",\"chunk\",\"file:", stored, "\"]"),
    )
}

/// Settles what is written for a document with this text. `size` is the line on
/// its size, where there is a file.
fn make_plan(
    doc_id: String,
    directory: Option<String>,
    raw_ref: String,
    namespace: &str,
    filename: &str,
    kind: &str,
    t: &str,
    size: &str,
) -> (p: IngestPlan)
    ensures
        plan_of(p, namespace@, filename@, kind@, t@, size@),
        p.doc_id@ == doc_id@,
        text::opt_text(p.directory) == text::opt_text(directory),
        p.raw_ref@ == raw_ref@,
{
    let stored_as = safe_filename(filename);
    let chunks = chunk_text(t, CHUNK_CHARS);
    let chars = text::chars_of(t).len();
    let mut content = text::cat5("[文档] ", filename, "\n类型: ", kind, size);
    content.append("\n字符: ");
    content.append(text::decimal(chars as u64).as_str());
    content.append("\n分块: ");
    content.append(text::decimal(chunks.len() as u64).as_str());
    content.append("\n路径: ");
    content.append(raw_ref.as_str());
    content.append("\n---\n");
    content.append(text::take_chars(t, 400).as_str());
    let tags = tags_of(kind, stored_as.as_str());
    let records = chunk_records(&chunks, filename, tags.1.as_str());
    assert(text::texts(chunks@).len() == chunks@.len());
    IngestPlan {
        doc_id,
        namespace: namespace.to_string(),
        filename: filename.to_string(),
        kind: kind.to_string(),
        directory,
        stored_as,
        raw_ref,
        chars,
        manifest: Record { content, importance: 7, tags: tags.0 },
        chunks: records,
    }
}

/// The directory of a file below the root of all documents.
pub open spec fn file_dir(namespace: Seq<char>, doc_id: Seq<char>) -> Seq<char> {
    "documents/"@ + ns_component(namespace) + "/"@ + doc_id
}

/// What is written for a file with this name of its contents and this text.
pub open spec fn file_record(
    p: IngestPlan,
    doc_id: Seq<char>,
    namespace: Seq<char>,
    filename: Seq<char>,
    kind: Seq<char>,
    size: nat,
    t: Seq<char>,
) -> bool {
    &&& plan_of(p, namespace, filename, kind, t, "\n大小: "@ + text::dec(size) + " bytes"@)
    &&& p.doc_id@ == doc_id
    &&& text::opt_text(p.directory) == Some(file_dir(namespace, doc_id))
    &&& p.raw_ref@ == file_dir(namespace, doc_id) + "/"@ + stored_name(filename)
}

/// Settles what is written for a file with this name of its contents and this text.
pub fn plan_file(
    doc_id: String,
    namespace: &str,
    filename: &str,
    kind: &str,
    size: u64,
    t: &str,
) -> (p: IngestPlan)
    ensures
        file_record(p, doc_id@, namespace@, filename@, kind@, size as nat, t@),
{
    let mut directory = text::cat3("documents/", ns_dir_component(namespace).as_str(), "/");
    directory.append(doc_id.as_str());
    let raw_ref = text::cat3(directory.as_str(), "/", safe_filename(filename).as_str());
    let line = text::cat3("\n大小: ", text::decimal(size).as_str(), " bytes");
    make_plan(doc_id, Some(directory), raw_ref, namespace, filename, kind, t, line.as_str())
}

/// What is written for a file: refused where it is too large or its text cannot
/// be read.
pub open spec fn file_plan(
    r: Result<IngestPlan, String>,
    namespace: Seq<char>,
    filename: Seq<char>,
    kind: Seq<char>,
    bytes: Seq<u8>,
    reading: Reading,
) -> bool {
    if bytes.len() > MAX_DOC_BYTES {
        r matches Err(e) && e@ == "文件过大（上限 20 MiB）"@
    } else {
        match extracted(kind, bytes, reading) {
            Err(x) => r matches Err(e) && e@ == x,
            Ok(t) => {
                &&& r matches Ok(p)
                &&& file_record(
                    p,
                    hash::sum(bytes).take(16),
                    namespace,
                    filename,
                    kind,
                    bytes.len(),
                    t,
                )
            },
        }
    }
}

/// Settles what is written for a file.
pub fn ingest_bytes(
    namespace: &str,
    filename: &str,
    kind: &str,
    bytes: &[u8],
    reading: &Reading,
) -> (r: Result<IngestPlan, String>)
    ensures
        file_plan(r, namespace@, filename@, kind@, bytes@, *reading),
{
    if bytes.len() as u64 > MAX_DOC_BYTES {
        return Err("文件过大（上限 20 MiB）".to_string());
    }
    let t = match extract_text(kind, bytes, reading) {
        Ok(t) => t,
        Err(e) => {
            return Err(e);
        },
    };
    Ok(
        plan_file(
            hash::short_sum(bytes),
            namespace,
            filename,
            kind,
            bytes.len() as u64,
            t.as_str(),
        ),
    )
}

/// What is written for a text that was read elsewhere, with this name of its contents
/// and the kind that its file name tells.
pub open spec fn text_record(
    p: IngestPlan,
    doc_id: Seq<char>,
    kind: Option<Seq<char>>,
    namespace: Seq<char>,
    filename: Seq<char>,
    t: Seq<char>,
) -> bool {
    &&& plan_of(
        p,
        namespace,
        filename,
        match kind {
            Some(k) => k,
            None => "text"@,
        },
        t,
        ""@,
    )
    &&& p.doc_id@ == doc_id
    &&& p.directory is None
    &&& p.raw_ref@ == "text-only/"@ + ns_component(namespace) + "/"@ + stored_name(filename)
}

/// Settles what is written for a text that was read elsewhere, with this name of its
/// contents and the kind that its file name tells.
pub fn plan_text(
    doc_id: String,
    kind: Option<&str>,
    namespace: &str,
    filename: &str,
    t: &str,
) -> (p: IngestPlan)
    ensures
        text_record(p, doc_id@, text::opt_str(kind), namespace@, filename@, t@),
{
    let kind = match kind {
        Some(k) => k,
        None => "text",
    };
    let mut raw_ref = text::cat3("text-only/", ns_dir_component(namespace).as_str(), "/");
    raw_ref.append(safe_filename(filename).as_str());
    make_plan(doc_id, None, raw_ref, namespace, filename, kind, t, "")
}

/// What is written for a text that was read elsewhere: refused where fewer than
/// ten of its characters are not white space.
pub open spec fn text_plan(
    r: Result<IngestPlan, String>,
    namespace: Seq<char>,
    filename: Seq<char>,
    kind: Option<Seq<char>>,
    t: Seq<char>,
) -> bool {
    if solid_count(t) < 10 {
        r matches Err(e) && e@ == "文本过短"@
    } else {
        r matches Ok(p) && text_record(
            p,
            hash::sum(encode_utf8(t)).take(16),
            kind,
            namespace,
            filename,
            t,
        )
    }
}

/// Settles what is written for a text that was read elsewhere.
pub fn ingest_plain_text(namespace: &str, filename: &str, t: &str) -> (r: Result<
    IngestPlan,
    String,
>)
    ensures
        text_plan(
            r,
            namespace@,
            filename@,
            kind_by(text::lowercased(filename@), None),
            t@,
        ),
{
    if count_solid(t) < 10 {
        return Err("文本过短".to_string());
    }
    Ok(
        plan_text(
            hash::short_sum(t.as_bytes()),
            detect_kind(filename, None),
            namespace,
            filename,
            t,
        ),
    )
}

/// A memory that is written for a document, as the storage takes it.
#[derive(Debug)]
pub struct DocumentMemory {
    pub namespace: String,
    pub content: String,
    pub category: &'static str,
    pub memory_type: &'static str,
    pub importance: i64,
    pub tags: String,
    pub source: String,
    pub actor: String,
    /// The memory that stands for the document, for each of its chunks.
    pub parent_id: Option<String>,
    pub raw_ref: String,
}

/// The records of a document in the order in which they are written: the one that stands
/// for it, then its chunks.
pub open spec fn record_at(p: IngestPlan, position: int) -> Record {
    if position == 0 {
        p.manifest
    } else {
        p.chunks@[position - 1]
    }
}

/// The parent of a record: none for the one that stands for the document, and that one's
/// id for every chunk.
pub open spec fn parent_at(position: int, manifest_id: Seq<char>) -> Option<Seq<char>> {
    if position == 0 {
        None
    } else {
        Some(manifest_id)
    }
}

/// This memory is written for a record of a document.
pub open spec fn stored_memory(
    p: IngestPlan,
    position: int,
    manifest_id: Seq<char>,
    actor: Seq<char>,
    m: DocumentMemory,
) -> bool {
    let record = record_at(p, position);
    &&& m.namespace@ == p.namespace@
    &&& m.content@ == record.content@
    &&& m.category@ == DOCUMENT_TYPE@
    &&& m.memory_type@ == DOCUMENT_TYPE@
    &&& m.importance == record.importance
    &&& m.tags@ == record.tags@
    &&& m.source@ == actor
    &&& m.actor@ == actor
    &&& text::opt_text(m.parent_id) == parent_at(position, manifest_id)
    &&& m.raw_ref@ == p.raw_ref@
}

/// The memory that is written for a record of a document. The record that stands for the
/// document has the position 0; once it is written, its id is `manifest_id`, which each
/// chunk has for its parent.
pub fn memory_at(p: &IngestPlan, position: usize, manifest_id: &str, actor: &str) -> (m:
    DocumentMemory)
    requires
        position <= p.chunks@.len(),
    ensures
        stored_memory(*p, position as int, manifest_id@, actor@, m),
{
    let record = if position == 0 {
        &p.manifest
    } else {
        &p.chunks[position - 1]
    };
    let parent_id = if position == 0 {
        None
    } else {
        Some(manifest_id.to_string())
    };
    DocumentMemory {
        namespace: p.namespace.clone(),
        content: record.content.clone(),
        category: DOCUMENT_TYPE,
        memory_type: DOCUMENT_TYPE,
        importance: record.importance,
        tags: record.tags.clone(),
        source: actor.to_string(),
        actor: actor.to_string(),
        parent_id,
        raw_ref: p.raw_ref.clone(),
    }
}

/// The chunks of a document hang below the one memory that stands for it, which itself
/// has no parent, and all of them refer to the same file.
pub proof fn law_chunks_hang_below_the_document(
    p: IngestPlan,
    position: int,
    manifest_id: Seq<char>,
    actor: Seq<char>,
    m: DocumentMemory,
)
    requires
        0 <= position <= p.chunks@.len(),
        stored_memory(p, position, manifest_id, actor, m),
    ensures
        m.parent_id is None <==> position == 0,
        position > 0 ==> text::opt_text(m.parent_id) == Some(manifest_id),
        m.raw_ref@ == p.raw_ref@,
        m.memory_type@ == "document"@,
{
}

/// Something is always written for a document that is not refused: at least one
/// chunk, and every chunk within the limit.
pub proof fn law_documents_have_chunks(t: Seq<char>)
    requires
        solid_count(t) > 0,
    ensures
        chunks_of(t, CHUNK_CHARS as int).len() > 0,
        forall|k: int|
            0 <= k < chunks_of(t, CHUNK_CHARS as int).len() ==> 0 < (#[trigger] chunks_of(
                t,
                CHUNK_CHARS as int,
            )[k]).len() <= CHUNK_CHARS,
{
    lemma_solid_count(t);
    law_chunks_cover(t.len() as int, CHUNK_CHARS as int, 0);
    let ranges = chunk_ranges(t.len() as int, CHUNK_CHARS as int, 0);
    assert forall|k: int| 0 <= k < ranges.len() implies 0 < (#[trigger] chunks_of(
        t,
        CHUNK_CHARS as int,
    )[k]).len() <= CHUNK_CHARS by {
        assert(ranges[k].0 < ranges[k].1);
    }
}

/// What came of storing a document, once its memories have their ids.
pub fn outcome(p: IngestPlan, manifest_id: String, chunk_ids: Vec<String>) -> (r: IngestOutcome)
    ensures
        r.doc_id@ == p.doc_id@,
        r.namespace@ == p.namespace@,
        r.filename@ == p.filename@,
        r.kind@ == p.kind@,
        r.raw_ref@ == p.raw_ref@,
        r.chars == p.chars,
        r.chunk_count == chunk_ids@.len(),
        r.manifest_id@ == manifest_id@,
        text::texts(r.chunk_ids@) == text::texts(chunk_ids@),
{
    IngestOutcome {
        doc_id: p.doc_id,
        namespace: p.namespace,
        filename: p.filename,
        kind: p.kind,
        raw_ref: p.raw_ref,
        chars: p.chars,
        chunk_count: chunk_ids.len(),
        manifest_id,
        chunk_ids,
    }
}

/// The error of a memory that could not be written: `chunk` is none for the one
/// that stands for the document, else the number of the chunk.
pub fn record_error(chunk: Option<u64>, e: &str) -> (r: String)
    ensures
        r@ == (match chunk {
            None => "manifest remember: "@ + e@,
            Some(k) => "chunk "@ + text::dec(k as nat) + " remember: "@ + e@,
        }),
{
    match chunk {
        None => text::cat("manifest remember: ", e),
        Some(k) => {
            let mut s = text::cat3("chunk ", text::decimal(k).as_str(), " remember: ");
            s.append(e);
            s
        },
    }
}

/// The root of all documents: the configured one, else the directory of the
/// database.
pub fn resolve_doc_root(db_path: &str, configured: Option<&str>) -> (r: String)
    ensures
        r@ == (match configured {
            Some(p) => p@,
            None => match paths::parent_of(db_path@) {
                Some(d) => d,
                None => "."@,
            },
        }),
{
    match configured {
        Some(p) => p.to_string(),
        None => match paths::parent(db_path) {
            Some(d) => d,
            None => ".".to_string(),
        },
    }
}

/// The text of a workbook is put together sheet by sheet and row by row: none of them is
/// left out, moved or repeated.
pub proof fn law_workbooks_are_read_sheet_by_sheet(
    a: Seq<Sheet>,
    b: Seq<Sheet>,
    rows: Seq<Vec<String>>,
    more: Seq<Vec<String>>,
)
    ensures
        sheets_text(a + b) == sheets_text(a) + sheets_text(b),
        rows_text(rows + more) == rows_text(rows) + rows_text(more),
        sheets_text(Seq::empty()) == Seq::<char>::empty(),
        rows_text(Seq::empty()) == Seq::<char>::empty(),
    decreases b.len(), more.len(),
{
    lemma_rows_add(rows, more);
    if b.len() == 0 {
        assert(a + b =~= a);
        assert(sheets_text(a) + sheets_text(b) =~= sheets_text(a));
    } else {
        law_workbooks_are_read_sheet_by_sheet(a, b.drop_last(), rows, more);
        assert((a + b).drop_last() =~= a + b.drop_last());
        assert((a + b).last() == b.last());
        assert(sheets_text(a + b) =~= sheets_text(a) + sheets_text(b));
    }
}

proof fn lemma_rows_add(a: Seq<Vec<String>>, b: Seq<Vec<String>>)
    ensures
        rows_text(a + b) == rows_text(a) + rows_text(b),
    decreases b.len(),
{
    if b.len() == 0 {
        assert(a + b =~= a);
        assert(rows_text(a) + rows_text(b) =~= rows_text(a));
    } else {
        lemma_rows_add(a, b.drop_last());
        assert((a + b).drop_last() =~= a + b.drop_last());
        assert((a + b).last() == b.last());
        assert(rows_text(a + b) =~= rows_text(a) + rows_text(b));
    }
}

/// A row of a sheet as a line: its cells with tabs between them.
pub open spec fn row_line(row: Vec<String>) -> Seq<char> {
    text::joined(text::texts(row@), "\t"@) + "\n"@
}

/// A sheet stands in the text with its name above it, its rows in their order, and an empty
/// line below; one that could not be read does not stand there.
pub proof fn law_sheets_show_their_rows(sheet: Sheet, before: Seq<Vec<String>>, row: Vec<String>, after: Seq<Vec<String>>)
    ensures
        sheet.rows is None ==> sheets_text(seq![sheet]).len() == 0,
        sheet.rows matches Some(rows) ==> {
            &&& rows@.len() == 0 ==> sheets_text(seq![sheet]) == "# Sheet: "@ + sheet.name@ + "\n"@
                + "\n"@
            &&& rows@ == before.push(row) + after ==> sheets_text(seq![sheet]) == "# Sheet: "@
                + sheet.name@ + "\n"@ + rows_text(before) + row_line(row) + rows_text(after) + "\n"@
        },
{
    reveal_strlit("\n");
    assert(seq![sheet].drop_last() =~= Seq::empty());
    assert(sheets_text(seq![sheet].drop_last()) =~= Seq::empty());
    assert(sheets_text(seq![sheet]) =~= sheet_text(sheet));
    if let Some(rows) = sheet.rows {
        assert("\n"@ =~= seq!['\n']);
        if rows@.len() == 0 {
            assert(sheet_text(sheet) =~= "# Sheet: "@ + sheet.name@ + "\n"@ + "\n"@);
        }
        if rows@ == before.push(row) + after {
            lemma_rows_add(before.push(row), after);
            assert(before.push(row).drop_last() =~= before);
            assert(before.push(row).last() == row);
            assert(rows_text(before.push(row)) =~= rows_text(before) + row_line(row));
            assert(sheet_text(sheet) =~= "# Sheet: "@ + sheet.name@ + "\n"@ + rows_text(before)
                + row_line(row) + rows_text(after) + "\n"@);
        }
    }
}

/// Every row of every sheet that could be read stands in the text of its workbook.
pub proof fn law_workbooks_lose_no_row(book: Vec<Sheet>, k: int, r: int)
    requires
        0 <= k < book@.len(),
        book@[k].rows is Some,
        0 <= r < book@[k].rows->0@.len(),
        book_text(BookRead::Sheets(book)) is Ok,
    ensures
        text::occurs(book_text(BookRead::Sheets(book))->Ok_0, row_line(book@[k].rows->0@[r])),
        text::occurs(book_text(BookRead::Sheets(book))->Ok_0, "# Sheet: "@ + book@[k].name@ + "\n"@),
{
    let s = book@;
    let t = book_text(BookRead::Sheets(book))->Ok_0;
    let rows = s[k].rows->0@;
    let a = s.take(k);
    let b = s.skip(k + 1);
    assert(s =~= a + seq![s[k]] + b);
    law_workbooks_are_read_sheet_by_sheet(a + seq![s[k]], b, rows, rows);
    law_workbooks_are_read_sheet_by_sheet(a, seq![s[k]], rows, rows);
    let before = rows.take(r);
    let after = rows.skip(r + 1);
    assert(rows =~= before.push(rows[r]) + after);
    law_sheets_show_their_rows(s[k], before, rows[r], after);
    let head = "# Sheet: "@ + s[k].name@ + "\n"@;
    let p = sheets_text(a) + head + rows_text(before);
    let line = row_line(rows[r]);
    assert(t =~= p + line + rows_text(after) + "\n"@ + sheets_text(b));
    assert(t.subrange(p.len() as int, p.len() as int + line.len()) =~= line);
    assert(text::stands_at(t, line, p.len() as int));
    let q = sheets_text(a);
    assert(t.subrange(q.len() as int, q.len() as int + head.len()) =~= head);
    assert(text::stands_at(t, head, q.len() as int));
}

/// A document of pages is given as it was read, unless too little of it is text.
pub proof fn law_pages_are_given_as_read(t: String, bytes: Seq<u8>, book: BookRead)
    requires
        solid_count(t@) >= 50,
    ensures
        extracted("pdf"@, bytes, Reading { pdf: PdfRead::Text(t), book }) == Ok::<Seq<char>, Seq<char>>(t@),
{
}

/// The characters that are not white space are counted one by one.
pub proof fn law_solid_characters_are_counted(a: Seq<char>, b: Seq<char>, c: char)
    ensures
        solid_count(a + b) == solid_count(a) + solid_count(b),
        solid_count(seq![c]) == if text::is_space(c) {
            0nat
        } else {
            1
        },
    decreases b.len(),
{
    assert(seq![c].drop_last() =~= Seq::empty());
    assert(solid_count(seq![c].drop_last()) == 0);
    if b.len() == 0 {
        assert(a + b =~= a);
    } else {
        law_solid_characters_are_counted(a, b.drop_last(), c);
        assert((a + b).drop_last() =~= a + b.drop_last());
        assert((a + b).last() == b.last());
    }
}

/// The text of a document in the DOCX format is what stands in its text elements, in the
/// order of the document, with a blank behind each and an empty line behind each paragraph.
/// What stands outside of them is not read, and a fault ends it.
pub proof fn law_markup_is_read_in_order(
    prefix: Seq<char>,
    t: Seq<char>,
    rest: Seq<MarkupView>,
    out: Seq<char>,
    e: Seq<char>,
)
    ensures
        ({
            let word = prefix + ":t"@;
            let paragraph = prefix + ":p"@;
            &&& spelled_out(
                seq![MarkupView::Start(word), MarkupView::Text(t), MarkupView::End(word)] + rest,
                false,
                out,
            ) == spelled_out(rest, false, out + t + " "@)
            &&& spelled_out(
                seq![MarkupView::Start(paragraph)] + rest,
                false,
                out,
            ) == spelled_out(rest, false, out)
            &&& spelled_out(seq![MarkupView::End(paragraph)] + rest, false, out) == spelled_out(
                rest,
                false,
                out + "\n\n"@,
            )
            &&& spelled_out(seq![MarkupView::Text(t)] + rest, false, out) == spelled_out(rest, false, out)
            &&& spelled_out(seq![MarkupView::Eof], false, out) == Ok::<Seq<char>, Seq<char>>(out)
            &&& spelled_out(seq![MarkupView::Fault(e)] + rest, false, out) is Err
        }),
{
    reveal_strlit(":t");
    reveal_strlit(":p");
    reveal_strlit(" ");
    reveal_strlit("t");
    reveal_strlit("p");
    let word = prefix + ":t"@;
    let paragraph = prefix + ":p"@;
    assert(word.subrange(word.len() - 2, word.len() as int) =~= ":t"@);
    assert(paragraph.subrange(paragraph.len() - 2, paragraph.len() as int) =~= ":p"@);
    assert(word.last() == 't' && paragraph.last() == 'p');
    assert(text_element(word));
    assert(paragraph_element(paragraph));
    assert(!text_element(paragraph)) by {
        if text::ends(paragraph, ":t"@) {
            assert(paragraph.subrange(paragraph.len() - 2, paragraph.len() as int)[1] == 'p');
            assert(":t"@[1] == 't');
        }
    }
    assert(!paragraph_element(word)) by {
        if text::ends(word, ":p"@) {
            assert(word.subrange(word.len() - 2, word.len() as int)[1] == 't');
            assert(":p"@[1] == 'p');
        }
    }
    let m = seq![MarkupView::Start(word), MarkupView::Text(t), MarkupView::End(word)] + rest;
    assert(m.skip(1) =~= seq![MarkupView::Text(t), MarkupView::End(word)] + rest);
    assert(m.skip(1).skip(1) =~= seq![MarkupView::End(word)] + rest);
    assert(m.skip(1).skip(1).skip(1) =~= rest);
    assert(out + t + seq![' '] + Seq::<char>::empty() =~= out + t + " "@);
    assert(out + Seq::<char>::empty() + "\n\n"@ =~= out + "\n\n"@);
    assert(spelled_out(m, false, out) == spelled_out(m.skip(1), true, out));
    assert(spelled_out(m.skip(1), true, out) == spelled_out(m.skip(1).skip(1), true, out + t));
    let p = seq![MarkupView::Start(paragraph)] + rest;
    assert(p.skip(1) =~= rest);
    let q = seq![MarkupView::End(paragraph)] + rest;
    assert(q.skip(1) =~= rest);
    let u = seq![MarkupView::Text(t)] + rest;
    assert(u.skip(1) =~= rest);
    assert(seq![MarkupView::Fault(e)] + rest != Seq::<MarkupView>::empty());
}

/// The kind of a document is told by the end of its name, and else by its media type.
pub proof fn law_kinds_are_told_by_the_name(stem: Seq<char>, media: Option<Seq<char>>)
    ensures
        kind_by(stem + ".pdf"@, media) == Some("pdf"@),
        kind_by(stem + ".docx"@, None) == Some("docx"@),
        kind_by(stem + ".xlsx"@, None) == Some("xlsx"@),
        kind_by(stem + ".xls"@, None) == Some("xls"@),
        kind_by(stem, None) matches Some(k) ==> text::ends(stem, "."@ + k),
{
    reveal_strlit(".pdf");
    reveal_strlit(".docx");
    reveal_strlit(".xlsx");
    reveal_strlit(".xls");
    reveal_strlit("pdf");
    reveal_strlit("docx");
    reveal_strlit("xlsx");
    reveal_strlit("xls");
    reveal_strlit(".");
    assert("."@ + "pdf"@ =~= ".pdf"@);
    assert("."@ + "docx"@ =~= ".docx"@);
    assert("."@ + "xlsx"@ =~= ".xlsx"@);
    assert("."@ + "xls"@ =~= ".xls"@);
    lemma_ends(stem, ".pdf"@);
    lemma_ends(stem, ".docx"@);
    lemma_ends(stem, ".xlsx"@);
    lemma_ends(stem, ".xls"@);
    lemma_last(stem + ".docx"@, ".pdf"@);
    lemma_last(stem + ".xlsx"@, ".pdf"@);
    lemma_last(stem + ".xls"@, ".pdf"@);
    lemma_last(stem + ".xlsx"@, ".docx"@);
    lemma_last(stem + ".xls"@, ".docx"@);
    lemma_last(stem + ".xls"@, ".xlsx"@);
    assert((stem + ".docx"@).last() == 'x');
    assert((stem + ".xlsx"@).last() == 'x');
    assert((stem + ".xls"@).last() == 's');
    if text::ends(stem + ".xlsx"@, ".docx"@) {
        let n = (stem + ".xlsx"@).len();
        assert((stem + ".xlsx"@).subrange(n - 5, n as int)[1] == 'x');
        assert(".docx"@[1] == 'd');
    }
}

proof fn lemma_ends(stem: Seq<char>, end: Seq<char>)
    ensures
        text::ends(stem + end, end),
{
    let s = stem + end;
    assert(s.subrange(s.len() - end.len(), s.len() as int) =~= end);
}

proof fn lemma_last(s: Seq<char>, end: Seq<char>)
    requires
        end.len() > 0,
    ensures
        text::ends(s, end) ==> s.len() > 0 && s.last() == end.last(),
{
    if text::ends(s, end) {
        assert(s.subrange(s.len() - end.len(), s.len() as int)[end.len() - 1] == s.last());
    }
}

proof fn lemma_chunk_ranges(len: int, size: int, i: int, j: int) -> (k: int)
    requires
        0 <= i <= j < len,
        size > OVERLAP_CHARS,
    ensures
        0 <= k < chunk_ranges(len, size, i).len(),
        chunk_ranges(len, size, i)[k].0 <= j < chunk_ranges(len, size, i)[k].1,
        forall|m: int|
            0 <= m < chunk_ranges(len, size, i).len() - 1 ==> (#[trigger] chunk_ranges(
                len,
                size,
                i,
            )[m]).1 - chunk_ranges(len, size, i)[m].0 == size,
        forall|m: int|
            0 < m < chunk_ranges(len, size, i).len() ==> (#[trigger] chunk_ranges(len, size, i)[m]).0
                == chunk_ranges(len, size, i)[m - 1].1 - OVERLAP_CHARS,
    decreases len - i,
{
    let end = chunk_end(len, size, i);
    let r = chunk_ranges(len, size, i);
    if end >= len {
        0
    } else {
        let n = next_start(i, end);
        let q = chunk_ranges(len, size, n);
        law_chunks_cover(len, size, n);
        let k = if j < end {
            let unused = lemma_chunk_ranges(len, size, n, n);
            0
        } else {
            lemma_chunk_ranges(len, size, n, j) + 1
        };
        assert(r == seq![(i, end)] + q);
        assert forall|m: int| 0 <= m < r.len() - 1 implies (#[trigger] r[m]).1 - r[m].0 == size by {
            if m > 0 {
                assert(r[m] == q[m - 1]);
            }
        }
        assert forall|m: int| 0 < m < r.len() implies (#[trigger] r[m]).0 == r[m - 1].1
            - OVERLAP_CHARS by {
            assert(r[m] == q[m - 1]);
            if m > 1 {
                assert(r[m - 1] == q[m - 2]);
            }
        }
        if k > 0 {
            assert(r[k] == q[k - 1]);
        }
        k
    }
}

/// The chunks of a text hold all of it: each character stands in one of them, each but the
/// last is full, and each but the first begins with the last 200 characters of the one
/// before.
pub proof fn law_chunks_hold_the_text(s: Seq<char>, size: int, j: int)
    requires
        0 <= j < s.len(),
        size > 200,
    ensures
        exists|k: int, a: int|
            0 <= k < chunks_of(s, size).len() && 0 <= a <= j < a + (#[trigger] chunks_of(s, size)[k]).len()
                && a + chunks_of(s, size)[k].len() <= s.len() && chunks_of(s, size)[k]
                == #[trigger] s.subrange(a, a + chunks_of(s, size)[k].len()),
        forall|k: int|
            0 <= k < chunks_of(s, size).len() - 1 ==> (#[trigger] chunks_of(s, size)[k]).len() == size,
        forall|k: int|
            0 < k < chunks_of(s, size).len() ==> (#[trigger] chunks_of(s, size)[k]).len() >= 200
                && chunks_of(s, size)[k].take(200) == chunks_of(s, size)[k - 1].skip(size - 200),
{
    let len = s.len() as int;
    let k = lemma_chunk_ranges(len, size, 0, j);
    law_chunks_cover(len, size, 0);
    let r = chunk_ranges(len, size, 0);
    let c = chunks_of(s, size);
    assert(c[k] == s.subrange(r[k].0, r[k].1));
    assert(c[k].len() == r[k].1 - r[k].0);
    assert(c[k] == s.subrange(r[k].0, r[k].0 + c[k].len()));
    assert forall|m: int| 0 <= m < c.len() - 1 implies (#[trigger] c[m]).len() == size by {
        assert(r[m].1 - r[m].0 == size);
    }
    assert forall|m: int| 0 < m < c.len() implies (#[trigger] c[m]).len() >= 200 && c[m].take(200)
        == c[m - 1].skip(size - 200) by {
        assert(r[m].0 == r[m - 1].1 - OVERLAP_CHARS);
        assert(r[m - 1].1 - r[m - 1].0 == size);
        lemma_ranges_end(len, size, 0, m);
        assert(c[m].take(200) =~= c[m - 1].skip(size - 200));
    }
}

proof fn lemma_ranges_end(len: int, size: int, i: int, m: int)
    requires
        0 <= i < len,
        size > OVERLAP_CHARS,
        0 < m < chunk_ranges(len, size, i).len(),
    ensures
        chunk_ranges(len, size, i)[m].1 > chunk_ranges(len, size, i)[m - 1].1,
    decreases len - i,
{
    let end = chunk_end(len, size, i);
    let n = next_start(i, end);
    let r = chunk_ranges(len, size, i);
    let q = chunk_ranges(len, size, n);
    assert(r == seq![(i, end)] + q);
    law_chunks_cover(len, size, n);
    assert(r[m] == q[m - 1]);
    if m > 1 {
        assert(r[m - 1] == q[m - 2]);
        lemma_ranges_end(len, size, n, m - 1);
    } else {
        assert(q[0].1 == chunk_end(len, size, n));
    }
}

/// What is written for a document holds all of its text: the chunks in their order, each
/// with its number, and each under the document's name. The memory that stands for it
/// tells its name, its kind and how it begins, and counts for more than a chunk.
pub proof fn law_documents_are_written_whole(
    p: IngestPlan,
    namespace: Seq<char>,
    filename: Seq<char>,
    kind: Seq<char>,
    t: Seq<char>,
    size: Seq<char>,
    k: int,
)
    requires
        plan_of(p, namespace, filename, kind, t, size),
        0 <= k < p.chunks@.len(),
    ensures
        p.namespace@ == namespace && p.filename@ == filename && p.kind@ == kind && p.chars == t.len(),
        p.chunks@.len() == chunks_of(t, 3500).len(),
        text::ends(p.chunks@[k].content@, chunks_of(t, 3500)[k]),
        text::begins(
            p.chunks@[k].content@,
            "[文档块 "@ + text::dec((k + 1) as nat) + "/"@ + text::dec(p.chunks@.len()) + "] "@
                + filename,
        ),
        text::begins(p.manifest.content@, "[文档] "@ + filename + "\n类型: "@ + kind),
        text::ends(p.manifest.content@, text::first_chars(t, 400)),
        p.chunks@[k].importance < p.manifest.importance,
        text::occurs(p.manifest.tags@, "\""@ + kind + "\""@),
{
    let chunks = chunks_of(t, CHUNK_CHARS as int);
    let c = p.chunks@[k].content@;
    let h = "[文档块 "@ + text::dec((k + 1) as nat) + "/"@ + text::dec(p.chunks@.len()) + "] "@
        + filename;
    assert(c == h + "\n\n"@ + chunks[k]);
    assert(c.subrange(0, h.len() as int) =~= h);
    assert(c.subrange(c.len() - chunks[k].len(), c.len() as int) =~= chunks[k]);
    let m = p.manifest.content@;
    let mh = "[文档] "@ + filename + "\n类型: "@ + kind;
    assert(m.subrange(0, mh.len() as int) =~= mh);
    let mt = text::first_chars(t, 400);
    assert(m.subrange(m.len() - mt.len(), m.len() as int) =~= mt);
    let tags = p.manifest.tags@;
    let w = "\""@ + kind + "\""@;
    reveal_strlit("[\"document\",\"");
    reveal_strlit("\",\"dept-share\",\"file:");
    reveal_strlit("\"");
    assert(tags.subrange(12, 12int + w.len()) =~= w);
    assert(text::stands_at(tags, w, 12));
}

/// The name under which a file is stored is as long as the last part of its path, and every
/// letter, digit, dot, hyphen and underscore of it stays in its place.
pub proof fn law_stored_names_keep_what_they_can(name: Seq<char>, i: int)
    requires
        !name.contains('/'),
        name.len() > 0,
        name != "."@,
        name != ".."@,
        0 <= i < name.len(),
    ensures
        stored_name(name).len() == name.len(),
        stored_name(name)[i] == if 'a' <= name[i] <= 'z' || 'A' <= name[i] <= 'Z' || '0' <= name[i]
            <= '9' || name[i] == '.' || name[i] == '_' || name[i] == '-' {
            name[i]
        } else {
            '_'
        },
{
    lemma_split_whole(name, '/');
}

proof fn lemma_split_whole(s: Seq<char>, c: char)
    requires
        !s.contains(c),
    ensures
        text::split_on(s, c) == seq![s],
    decreases s.len(),
{
    if s.len() > 0 {
        let p = s.drop_last();
        assert(!p.contains(c)) by {
            if p.contains(c) {
                let k = choose|k: int| 0 <= k < p.len() && p[k] == c;
                assert(s[k] == c);
            }
        }
        lemma_split_whole(p, c);
        assert(s[s.len() - 1] != c);
        assert(p.push(s.last()) =~= s);
        assert(text::split_on(s, c) =~= seq![s]);
    } else {
        assert(s =~= Seq::empty());
    }
}

/// A document is taken where it holds enough text, and refused where it does not: fifty
/// characters of a PDF and ten of anything else, blanks not counted. A PDF is taken as it was
/// read.
pub proof fn law_documents_need_enough_text(
    t: String,
    r: Result<IngestPlan, String>,
    namespace: Seq<char>,
    filename: Seq<char>,
    kind: Option<Seq<char>>,
    refusal: Seq<char>,
)
    requires
        text_plan(r, namespace, filename, kind, t@),
    ensures
        solid_count(t@) >= 50 ==> pdf_text(PdfRead::Text(t)) == Ok::<Seq<char>, Seq<char>>(t@),
        pdf_text(PdfRead::Text(t)) is Ok <==> solid_count(t@) >= 50,
        substantial(Ok(t@), refusal) is Ok <==> solid_count(t@) >= 10,
        substantial(Ok(t@), refusal) matches Ok(s) ==> s == t@,
        r is Ok <==> solid_count(t@) >= 10,
{
}

/// A file of more than twenty mebibytes is refused, whatever it holds, and no smaller one is
/// on account of its size.
pub proof fn law_files_have_a_largest_size(
    r: Result<IngestPlan, String>,
    namespace: Seq<char>,
    filename: Seq<char>,
    kind: Seq<char>,
    bytes: Seq<u8>,
    reading: Reading,
)
    requires
        file_plan(r, namespace, filename, kind, bytes, reading),
    ensures
        bytes.len() > 20 * 1024 * 1024 ==> r is Err,
        bytes.len() <= 20 * 1024 * 1024 ==> (r is Ok <==> extracted(kind, bytes, reading) is Ok),
        r matches Ok(p) ==> p.doc_id@ == hash::sum(bytes).take(16) && p.filename@ == filename
            && p.namespace@ == namespace && p.kind@ == kind,
{
}

/// A file lies under the directory of its namespace and its content, by its stored name; a
/// text that came without a file has no directory.
pub proof fn law_documents_lie_in_their_place(
    p: IngestPlan,
    q: IngestPlan,
    doc_id: Seq<char>,
    namespace: Seq<char>,
    filename: Seq<char>,
    kind: Seq<char>,
    size: nat,
    t: Seq<char>,
)
    requires
        file_record(p, doc_id, namespace, filename, kind, size, t),
        text_record(q, doc_id, Some(kind), namespace, filename, t),
    ensures
        p.directory matches Some(d) && text::ends(d@, "/"@ + doc_id) && p.raw_ref@ == d@ + "/"@
            + p.stored_as@ && text::begins(d@, "documents/"@ + ns_component(namespace)),
        q.directory is None && text::begins(q.raw_ref@, "text-only/"@ + ns_component(namespace))
            && text::ends(q.raw_ref@, "/"@ + q.stored_as@),
        p.doc_id@ == doc_id && q.doc_id@ == doc_id,
        text::occurs(p.manifest.content@, "\n路径: "@ + p.raw_ref@),
{
    let d = file_dir(namespace, doc_id);
    let a = "documents/"@ + ns_component(namespace);
    let b = "/"@ + doc_id;
    assert(d =~= a + b);
    assert(d.subrange(d.len() - b.len(), d.len() as int) =~= b);
    assert(d.subrange(0, a.len() as int) =~= a);
    let x = "text-only/"@ + ns_component(namespace);
    let y = "/"@ + stored_name(filename);
    let r = q.raw_ref@;
    assert(r =~= x + y);
    assert(r.subrange(0, x.len() as int) =~= x);
    assert(r.subrange(r.len() - y.len(), r.len() as int) =~= y);
    let chunks = chunks_of(t, CHUNK_CHARS as int);
    let m = p.manifest.content@;
    let h = "[文档] "@ + filename + "\n类型: "@ + kind + ("\n大小: "@ + text::dec(size) + " bytes"@)
        + "\n字符: "@ + text::dec(t.len()) + "\n分块: "@ + text::dec(chunks.len());
    let w = "\n路径: "@ + p.raw_ref@;
    assert(m =~= h + w + ("\n---\n"@ + text::first_chars(t, 400)));
    assert(m.subrange(h.len() as int, (h.len() + w.len()) as int) =~= w);
    assert(text::stands_at(m, w, h.len() as int));
}

/// A document is read by the reader for its kind, and one of another kind by none.
pub proof fn law_kinds_have_their_readers(kind: Seq<char>, bytes: Seq<u8>, reading: Reading)
    ensures
        extracted("pdf"@, bytes, reading) == pdf_text(reading.pdf),
        extracted("xlsx"@, bytes, reading) == book_text(reading.book),
        extracted("xls"@, bytes, reading) == book_text(reading.book),
        extracted("docx"@, bytes, reading) == docx_text(entry_text(bytes, "word/document.xml"@)),
        !seq!["pdf"@, "docx"@, "xlsx"@, "xls"@].contains(kind) ==> extracted(kind, bytes, reading) is Err,
{
    reveal_strlit("pdf");
    reveal_strlit("docx");
    reveal_strlit("xlsx");
    reveal_strlit("xls");
    assert("pdf"@.len() == 3 && "docx"@.len() == 4 && "xlsx"@.len() == 4 && "xls"@.len() == 3);
    assert("xlsx"@[0] == 'x' && "docx"@[0] == 'd' && "xls"@[0] == 'x' && "pdf"@[0] == 'p');
    let k = seq!["pdf"@, "docx"@, "xlsx"@, "xls"@];
    assert(k[0] == "pdf"@ && k[1] == "docx"@ && k[2] == "xlsx"@ && k[3] == "xls"@);
    assert(k.contains("pdf"@) && k.contains("docx"@) && k.contains("xlsx"@) && k.contains("xls"@));
}

/// What is known of a piece of markup is what it holds.
pub proof fn law_markup_holds_what_it_says(x: Markup)
    ensures
        x matches Markup::Start(n) ==> (x@ matches MarkupView::Start(m) && m == n@),
        x matches Markup::End(n) ==> (x@ matches MarkupView::End(m) && m == n@),
        x matches Markup::Text(t) ==> (x@ matches MarkupView::Text(m) && m == t@),
        x is Eof ==> x@ is Eof,
        x matches Markup::Fault(e) ==> (x@ matches MarkupView::Fault(m) && m == e@),
{
}

/// What has no text of its own is passed over: elements of other kinds, and whatever is neither
/// an element nor a text. Within a text everything that stands there is taken.
pub proof fn law_other_markup_is_passed_over(
    name: Seq<char>,
    t: Seq<char>,
    rest: Seq<MarkupView>,
    inside: bool,
    out: Seq<char>,
)
    requires
        !text::ends(name, ":t"@) && name != "t"@,
        !text::ends(name, ":p"@) && name != "p"@,
    ensures
        spelled_out(seq![MarkupView::Other] + rest, inside, out) == spelled_out(rest, inside, out),
        spelled_out(seq![MarkupView::Start(name)] + rest, inside, out) == spelled_out(rest, inside, out),
        spelled_out(seq![MarkupView::End(name)] + rest, inside, out) == spelled_out(rest, inside, out),
        spelled_out(seq![MarkupView::Text(t)] + rest, true, out) == spelled_out(rest, true, out + t),
        spelled_out(Seq::empty(), inside, out) == Ok::<Seq<char>, Seq<char>>(out),
        is_last(MarkupView::Eof) && !is_last(MarkupView::Text(t)) && !is_last(
            MarkupView::Other,
        ),
{
    let a = seq![MarkupView::Other] + rest;
    let b = seq![MarkupView::Start(name)] + rest;
    let c = seq![MarkupView::End(name)] + rest;
    let d = seq![MarkupView::Text(t)] + rest;
    assert(a.skip(1) =~= rest && b.skip(1) =~= rest && c.skip(1) =~= rest && d.skip(1) =~= rest);
    assert(out + Seq::<char>::empty() + Seq::<char>::empty() =~= out);
}

/// The memory of a record holds what the record says, in the namespace of the document, and
/// for whoever brought it.
pub proof fn law_memories_hold_their_record(
    p: IngestPlan,
    k: int,
    manifest_id: Seq<char>,
    actor: Seq<char>,
    m: DocumentMemory,
    n: DocumentMemory,
)
    requires
        0 <= k < p.chunks@.len(),
        stored_memory(p, 0, manifest_id, actor, m),
        stored_memory(p, k + 1, manifest_id, actor, n),
    ensures
        m.content@ == p.manifest.content@ && m.tags@ == p.manifest.tags@ && m.importance
            == p.manifest.importance,
        n.content@ == p.chunks@[k].content@ && n.tags@ == p.chunks@[k].tags@ && n.importance
            == p.chunks@[k].importance,
        m.namespace@ == p.namespace@ && n.namespace@ == p.namespace@,
        m.actor@ == actor && n.actor@ == actor && m.source@ == actor && n.source@ == actor,
{
}

/// The tags of a chunk name its kind and its file, and tell it from the whole.
pub proof fn law_tags_name_kind_and_file(kind: Seq<char>, stored: Seq<char>)
    ensures
        text::occurs(chunk_tags(kind, stored), "\""@ + kind + "\""@),
        text::ends(chunk_tags(kind, stored), "\"file:"@ + stored + "\"]"@),
        text::occurs(chunk_tags(kind, stored), "\"chunk\""@),
        text::ends(manifest_tags(kind, stored), "\"file:"@ + stored + "\"]"@),
        chunk_tags(kind, stored).len() == manifest_tags(kind, stored).len() + 8,
{
    reveal_strlit("[\"document\",\"");
    reveal_strlit("\",\"dept-share\",\"chunk\",\"file:");
    reveal_strlit("\",\"dept-share\",\"file:");
    reveal_strlit("\"]");
    reveal_strlit("\"");
    reveal_strlit("\"file:");
    reveal_strlit("\"chunk\"");
    let c = chunk_tags(kind, stored);
    let m = manifest_tags(kind, stored);
    let q = "\""@ + kind + "\""@;
    assert(c.subrange(12, 12 + q.len() as int) =~= q);
    assert(text::stands_at(c, q, 12));
    let f = "\"file:"@ + stored + "\"]"@;
    assert(c.subrange(c.len() - f.len(), c.len() as int) =~= f);
    assert(m.subrange(m.len() - f.len(), m.len() as int) =~= f);
    let k = 13 + kind.len() as int + 15;
    assert(c.subrange(k, k + 7) =~= "\"chunk\""@);
    assert(text::stands_at(c, "\"chunk\""@, k));
}

} // verus!
