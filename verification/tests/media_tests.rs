use std::io::Write;

use ragit::rag::media::{html_text, parse_xlsx_bytes, parse_zip_doc, strip_script_style, strip_xml, ZipDoc};

fn zip_of(entries: &[(&str, &str)]) -> Vec<u8> {
    let mut w = zip::ZipWriter::new(std::io::Cursor::new(Vec::new()));
    for (name, content) in entries {
        w.start_file(*name, zip::write::SimpleFileOptions::default()).unwrap();
        w.write_all(content.as_bytes()).unwrap();
    }
    w.finish().unwrap().into_inner()
}

#[test]
fn strip_xml_keeps_unescaped_text() {
    assert_eq!(strip_xml("<a>Hello &amp; <b>World</b></a>"), "Hello &  World ");
    assert_eq!(strip_xml("<p>x</p><p>y</p>"), "x y ");
    assert_eq!(strip_xml(""), "");
}

#[test]
fn strip_xml_stops_at_an_error() {
    assert_eq!(strip_xml("<a>one</b>two"), "one ");
}

#[test]
fn script_and_style_blocks_are_dropped() {
    assert_eq!(strip_script_style("a<script>x</script>b"), "ab");
    assert_eq!(strip_script_style("a<STYLE type='t'>x{}</Style >b"), "ab");
    assert_eq!(strip_script_style("a<script>x"), "a script>x");
    assert_eq!(strip_script_style("caf\u{e9} <b>ok</b>"), "caf\u{e9} <b>ok</b>");
}

#[test]
fn html_text_is_visible_text_on_one_line() {
    let html = "<html><body><p>Hi   there</p>\n<script>var x = 1;</script><p>again</p></body></html>";
    assert_eq!(html_text(html), "Hi there again");
}

#[test]
fn docx_text_comes_from_the_main_document() {
    let bytes = zip_of(&[
        ("[Content_Types].xml", "<Types/>"),
        ("word/document.xml", "<w:document><w:body><w:p>Hello</w:p></w:body></w:document>"),
    ]);
    assert_eq!(parse_zip_doc(&bytes, ZipDoc::Docx), Some("Hello ".to_string()));
}

#[test]
fn pptx_slides_are_separated() {
    let bytes = zip_of(&[
        ("ppt/slides/slide1.xml", "<p:sld><a:t>One</a:t></p:sld>"),
        ("ppt/slides/_rels/slide1.xml.rels", "<r/>"),
        ("ppt/slides/slide2.xml", "<p:sld><a:t>Two</a:t></p:sld>"),
    ]);
    assert_eq!(
        parse_zip_doc(&bytes, ZipDoc::Pptx),
        Some("One \n\n--- slide ---\n\nTwo ".to_string())
    );
}

#[test]
fn epub_chapters_skip_the_container() {
    let bytes = zip_of(&[
        ("META-INF/container.xml", "<container>skip</container>"),
        ("OEBPS/ch1.xhtml", "<html><body><p>Chapter</p><script>x()</script></body></html>"),
        ("OEBPS/container.html", "<p>skip too</p>"),
    ]);
    assert_eq!(parse_zip_doc(&bytes, ZipDoc::Epub), Some("Chapter ".to_string()));
}

#[test]
fn zip_documents_without_text_entries_give_nothing() {
    let bytes = zip_of(&[("other.xml", "<a>text</a>")]);
    assert_eq!(parse_zip_doc(&bytes, ZipDoc::Docx), None);
    assert_eq!(parse_zip_doc(b"not a zip archive", ZipDoc::Docx), None);
}

#[test]
fn xlsx_rows_resolve_shared_strings() {
    let bytes = zip_of(&[
        ("xl/sharedStrings.xml", "<sst><si><t>Name</t></si><si><t>Bob</t></si></sst>"),
        (
            "xl/worksheets/sheet1.xml",
            "<worksheet><sheetData><row><c r=\"A1\" t=\"s\"><v>0</v></c><c r=\"B1\"><v>42</v></c></row>\
             <row><c t=\"s\"><v>1</v></c><c t=\"s\"><v>7</v></c></row><row></row></sheetData></worksheet>",
        ),
    ]);
    assert_eq!(parse_xlsx_bytes(&bytes), Some("Name\t42\nBob".to_string()));
}

#[test]
fn xlsx_without_rows_gives_nothing() {
    let bytes = zip_of(&[("xl/worksheets/sheet1.xml", "<worksheet><sheetData/></worksheet>")]);
    assert_eq!(parse_xlsx_bytes(&bytes), None);
    assert_eq!(parse_xlsx_bytes(b"plain bytes"), None);
}
