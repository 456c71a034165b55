use memoria::document::{
    chunk_text, count_solid, detect_kind, docx_of_entry, docx_of_markup, extract_docx, extract_pdf, extract_spreadsheet, extract_text, ingest_bytes, ingest_plain_text, markup_text, memory_at, ns_dir_component, outcome, plan_file, plan_text, record_error, resolve_doc_root, safe_filename, spell_out, BookRead, MAX_DOC_BYTES, Markup, PdfRead, Reading, Sheet, ZipFault,
};
use memoria::hash::{sha256_hex, short_sum, to_hex};
use std::io::Write;

#[test]
fn chunk_overlaps_and_covers() {
    let s: String = (0..8000).map(|_| '字').collect();
    let chunks = chunk_text(&s, 3500);
    assert!(chunks.len() >= 2);
    assert!(chunks[0].chars().count() <= 3500);
}

#[test]
fn detect_kinds() {
    assert_eq!(detect_kind("a.PDF", None), Some("pdf"));
    assert_eq!(detect_kind("b.docx", None), Some("docx"));
    assert_eq!(detect_kind("c.xlsx", None), Some("xlsx"));
    assert_eq!(detect_kind("d.xls", None), Some("xls"));
    assert_eq!(detect_kind("e.txt", None), None);
}

#[test]
fn kinds_are_known_by_the_content_type() {
    assert_eq!(detect_kind("noname", Some("application/pdf")), Some("pdf"));
    assert_eq!(detect_kind("noname", Some("text/plain")), None);
}

fn docx(xml: &str) -> Vec<u8> {
    let mut w = zip::ZipWriter::new(std::io::Cursor::new(Vec::new()));
    w.start_file("word/document.xml", zip::write::SimpleFileOptions::default())
        .unwrap();
    w.write_all(xml.as_bytes()).unwrap();
    w.finish().unwrap().into_inner()
}

#[test]
fn paragraphs_of_a_document_are_lines() {
    let xml = "<w:document><w:body><w:p><w:r><w:t>第一段的文字</w:t></w:r></w:p>\
               <w:p><w:r><w:t>second</w:t></w:r></w:p></w:body></w:document>";
    let t = extract_docx(&docx(xml)).unwrap();
    assert_eq!(t, "第一段的文字 \n\nsecond \n\n");
    let lines: Vec<&str> = t.lines().filter(|l| !l.trim().is_empty()).collect();
    assert_eq!(lines, vec!["第一段的文字 ", "second "]);
}

#[test]
fn only_the_texts_of_runs_are_read() {
    let t = markup_text("<a><w:t>x &amp; y</w:t><other>z</other></a>").unwrap();
    assert!(t.contains("x & y"));
    assert!(!t.contains('z'));
    assert!(markup_text("<a><w:t>x</b></a>").is_err());
}

#[test]
fn what_is_no_archive_is_refused() {
    assert!(extract_docx(b"not a zip").is_err());
    let mut w = zip::ZipWriter::new(std::io::Cursor::new(Vec::new()));
    w.start_file("other.xml", zip::write::SimpleFileOptions::default())
        .unwrap();
    w.write_all(b"<a/>").unwrap();
    let bytes = w.finish().unwrap().into_inner();
    assert!(extract_docx(&bytes).is_err());
}

#[test]
fn faults_of_a_pdf_are_passed_on() {
    let long = "内容".repeat(40);
    assert_eq!(extract_pdf(&PdfRead::Text(long.clone())).unwrap(), long);
    assert!(extract_pdf(&PdfRead::Text("  \n ".to_string())).is_err());
    let e = extract_pdf(&PdfRead::Fault("bad xref".to_string())).unwrap_err();
    assert!(e.contains("bad xref"));
    assert!(extract_pdf(&PdfRead::Broken).is_err());
}

fn cells(v: &[&str]) -> Vec<String> {
    v.iter().map(|s| s.to_string()).collect()
}

#[test]
fn sheets_are_read_row_by_row() {
    let book = BookRead::Sheets(vec![Sheet {
        name: "库存".to_string(),
        rows: Some(vec![cells(&["品名", "数量"]), cells(&["煤", "120"])]),
    }]);
    let t = extract_spreadsheet(&book).unwrap();
    assert!(t.contains("库存"));
    let head = t.find("品名").unwrap();
    let row = t.find("120").unwrap();
    assert!(head < row);
    let e = extract_spreadsheet(&BookRead::Fault("open".to_string())).unwrap_err();
    assert!(e.contains("open"));
}

fn reading() -> Reading {
    Reading {
        pdf: PdfRead::Broken,
        book: BookRead::Sheets(vec![]),
    }
}

#[test]
fn unknown_kinds_are_not_read() {
    assert!(extract_text("txt", b"abc", &reading()).is_err());
    let xml = format!("<w:p><w:t>{}</w:t></w:p>", "文".repeat(60));
    assert!(extract_text("docx", &docx(&xml), &reading()).is_ok());
}

#[test]
fn chunks_share_their_ends() {
    let s: String = (0..5000u32)
        .map(|i| char::from_u32(0x4e00 + i).unwrap())
        .collect();
    let chunks = chunk_text(&s, 3500);
    assert_eq!(chunks.len(), 2);
    let first: Vec<char> = chunks[0].chars().collect();
    let second: Vec<char> = chunks[1].chars().collect();
    assert_eq!(first.len(), 3500);
    assert_eq!(&first[3300..], &second[..200]);
    assert_eq!(second.len(), 1700);
    assert!(chunk_text("", 3500).len() <= 1);
}

#[test]
fn stored_names_stay_in_their_directory() {
    assert!(!safe_filename("../../etc/passwd").contains('/'));
    assert!(!ns_dir_component("a/b\\c").contains('/'));
    assert_eq!(safe_filename("报告 1.pdf"), safe_filename(&safe_filename("报告 1.pdf")));
}

#[test]
fn plain_texts_become_a_manifest_and_chunks() {
    let text = "事实".repeat(2000);
    let plan = ingest_plain_text("agent/x", "notes.txt", &text).unwrap();
    assert_eq!(plan.namespace, "agent/x");
    assert_eq!(plan.chars, 4000);
    assert_eq!(plan.chunks.len(), 2);
    assert!(ingest_plain_text("agent/x", "notes.txt", "   ").is_err());
    let whole = memory_at(&plan, 0, "", "agent/x");
    assert_eq!(whole.parent_id, None);
    assert_eq!((whole.category, whole.memory_type, whole.importance), ("document", "document", 7));
    assert_eq!(whole.content, plan.manifest.content);
    for position in 1..=2 {
        let chunk = memory_at(&plan, position, "m1", "agent/x");
        assert_eq!(chunk.parent_id.as_deref(), Some("m1"));
        assert_eq!(chunk.content, plan.chunks[position - 1].content);
        assert_eq!((chunk.importance, chunk.raw_ref.as_str()), (6, plan.raw_ref.as_str()));
        assert_eq!((chunk.source.as_str(), chunk.actor.as_str()), ("agent/x", "agent/x"));
    }
    let ids = vec!["c1".to_string(), "c2".to_string()];
    let o = outcome(plan, "m1".to_string(), ids);
    assert_eq!((o.manifest_id.as_str(), o.chunk_count), ("m1", 2));
    assert_eq!(o.chars, 4000);
}

#[test]
fn documents_are_read_and_filed() {
    let xml = format!("<w:p><w:t>{}</w:t></w:p>", "文".repeat(100));
    let bytes = docx(&xml);
    let plan = ingest_bytes("agent/x", "a.docx", "docx", &bytes, &reading()).unwrap();
    assert_eq!(plan.kind, "docx");
    assert_eq!(plan.doc_id, short_sum(&bytes));
    assert_eq!(plan.raw_ref, format!("documents/{}/{}/a.docx", ns_dir_component("agent/x"), plan.doc_id));
    assert_eq!(plan.chunks.len(), 1);
    assert!(ingest_bytes("agent/x", "a.docx", "docx", b"", &reading()).is_err());
    let big = vec![0u8; MAX_DOC_BYTES as usize + 1];
    assert!(ingest_bytes("agent/x", "a.docx", "docx", &big, &reading()).is_err());
}

#[test]
fn errors_name_their_chunk() {
    assert!(record_error(Some(3), "full").contains('3'));
    assert!(record_error(None, "full").contains("full"));
}

#[test]
fn the_document_root_lies_beside_the_database() {
    assert_eq!(resolve_doc_root("data/memoria.db", Some("/docs")), "/docs");
    assert_eq!(resolve_doc_root("data/memoria.db", None), "data");
}

#[test]
fn digests_are_those_of_the_standard() {
    assert_eq!(
        sha256_hex(b"abc"),
        "ba7816bf8f01cfea414140de5dae2223b00361a396177a9cb410ff61f20015ad"
    );
    assert_eq!(short_sum(b"abc"), "ba7816bf8f01cfea");
    assert_eq!(to_hex(&[0, 15, 255]), "000fff");
}

#[test]
fn only_solid_characters_count() {
    assert_eq!(count_solid(" a\tb\n字 "), 3);
}

#[test]
fn texts_are_spelled_out_of_markup() {
    let steps = vec![
        Markup::Start("w:p".to_string()),
        Markup::Text("outside".to_string()),
        Markup::Start("w:t".to_string()),
        Markup::Text("enough text here".to_string()),
        Markup::End("w:t".to_string()),
        Markup::End("w:p".to_string()),
        Markup::Eof,
    ];
    assert_eq!(spell_out(&steps).unwrap(), "enough text here \n\n");
    assert_eq!(docx_of_markup(&steps).unwrap(), "enough text here \n\n");
    let broken = vec![Markup::Fault("bad".to_string())];
    assert_eq!(spell_out(&broken).unwrap_err(), "DOCX XML: bad");
    assert!(docx_of_markup(&vec![Markup::Eof]).is_err());
    let missing = docx_of_entry(Err(ZipFault::Missing)).unwrap_err();
    assert_eq!(missing, "DOCX 缺少 word/document.xml");
    let fault = docx_of_entry(Err(ZipFault::Archive("x".to_string()))).unwrap_err();
    assert_eq!(fault, "DOCX zip: x");
}

#[test]
fn plans_follow_from_the_sum() {
    let p = plan_file("0123".to_string(), "agent/x", "a b.pdf", "pdf", 7, "some text of it");
    assert_eq!(p.doc_id, "0123");
    assert_eq!(p.directory.unwrap(), format!("documents/{}/0123", ns_dir_component("agent/x")));
    assert!(p.manifest.content.contains("\n大小: 7 bytes\n"));
    let q = plan_text("0123".to_string(), None, "agent/x", "a", "some text of it");
    assert_eq!(q.kind, "text");
    assert!(q.directory.is_none());
    assert_eq!(q.chunks.len(), 1);
    assert_eq!(q.chunks[0].content, "[文档块 1/1] a\n\nsome text of it");
}
