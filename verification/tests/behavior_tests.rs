//! Tests of the documented parsing and writing behavior: locale
//! normalization, translate-flag defaults, note disambiguation, source
//! gating, error surfacing and recovery, and entity handling.

use xliff::store::{Store, XliffError};
use xliff::t::T;
use xliff::writers::xliff12::{WriterXliff12, XliffWriter};

fn wrap(body: &str) -> String {
    format!(
        "<?xml version=\"1.0\" encoding=\"UTF-8\"?><xliff version=\"1.2\">{}</xliff>",
        body
    )
}

#[test]
fn test_locale_attribute_is_lower_cased() {
    let doc = wrap("<file original=\"a\" source-language=\"EN\" target-language=\"Pt-BR\"><body></body></file>");
    let mut sut = Store::new();
    sut.load(doc.as_bytes()).unwrap();

    assert_eq!(sut.groups[0].source_locale.as_ref().unwrap().identifier, "en");
    assert_eq!(sut.groups[0].target_locale.as_ref().unwrap().identifier, "pt-br");
}

#[test]
fn test_translate_flag_values() {
    let doc = wrap("<file original=\"a\"><body><trans-unit id=\"u1\"><source>one</source></trans-unit><trans-unit id=\"u2\" translate=\"false\"><source>two</source></trans-unit><trans-unit id=\"u3\" translate=\"no\"><source>three</source></trans-unit></body></file>");
    let mut sut = Store::new();
    sut.load(doc.as_bytes()).unwrap();

    let units = &sut.groups[0].units;
    assert_eq!(units[0].translate, true);
    assert_eq!(units[1].translate, false);
    assert_eq!(units[2].translate, true);
}

#[test]
fn test_note_attaches_to_unit() {
    let doc = wrap("<file original=\"a\"><body><trans-unit id=\"u\"><source>s</source><note>unit note</note></trans-unit></body></file>");
    let mut sut = Store::new();
    sut.load(doc.as_bytes()).unwrap();

    assert_eq!(sut.groups[0].units[0].note.as_ref().unwrap().text, "unit note");
    assert!(sut.groups[0].header.is_none());
}

#[test]
fn test_note_attaches_to_header() {
    let doc = wrap("<file original=\"a\"><header><note>header note</note></header><body></body></file>");
    let mut sut = Store::new();
    sut.load(doc.as_bytes()).unwrap();

    let header = sut.groups[0].header.as_ref().unwrap();
    assert_eq!(header.notes.len(), 1);
    assert_eq!(header.notes[0].text, "header note");
}

#[test]
fn test_orphan_note_is_dropped() {
    // The note's nearest two open contexts are (note, file): neither a unit
    // nor the header, so the text attaches to nothing.
    let doc = wrap("<file original=\"a\"><note>lost</note><body></body></file>");
    let mut sut = Store::new();
    sut.load(doc.as_bytes()).unwrap();

    assert!(sut.groups[0].header.is_none());
    assert_eq!(sut.groups[0].units.len(), 0);
}

#[test]
fn test_orphan_source_text_is_dropped() {
    let doc = wrap("<file original=\"a\"><body><source>orphan</source></body></file>");
    let mut sut = Store::new();
    sut.load(doc.as_bytes()).unwrap();

    assert_eq!(sut.groups.len(), 1);
    assert_eq!(sut.groups[0].units.len(), 0);
}

#[test]
fn test_text_before_any_group_is_dropped() {
    let doc = wrap("<source>orphan</source>");
    let mut sut = Store::new();
    sut.load(doc.as_bytes()).unwrap();

    assert_eq!(sut.groups.len(), 0);
}

#[test]
fn test_tool_without_header_is_dropped() {
    let doc = wrap("<file original=\"a\"><tool tool-id=\"i\" tool-name=\"n\"/><body></body></file>");
    let mut sut = Store::new();
    sut.load(doc.as_bytes()).unwrap();

    assert!(sut.groups[0].header.is_none());
}

#[test]
fn test_unit_without_source_is_omitted() {
    let doc = wrap("<file original=\"a\"><body><trans-unit id=\"no-src\"><target>t</target><note>n</note></trans-unit><trans-unit id=\"with-src\"><source>s</source></trans-unit></body></file>");
    let mut store = Store::new();
    store.load(doc.as_bytes()).unwrap();
    assert_eq!(store.groups[0].units.len(), 2);

    let out = String::from_utf8(WriterXliff12::write(&store).unwrap()).unwrap();
    assert!(!out.contains("no-src"));

    let t = T::load_str(out.as_str()).unwrap();
    assert_eq!(t.store.groups[0].units.len(), 1);
    assert_eq!(t.store.groups[0].units[0].id, "with-src");
}

#[test]
fn test_header_round_trip() {
    let doc = wrap("<file original=\"a\"><header><tool tool-id=\"t1\" tool-name=\"first\" tool-version=\"1.0\" tool-company=\"acme\"/><tool tool-id=\"t2\" tool-name=\"second\"/><note>keep me</note></header><body></body></file>");
    let mut store = Store::new();
    store.load(doc.as_bytes()).unwrap();

    let out = String::from_utf8(WriterXliff12::write(&store).unwrap()).unwrap();
    let t = T::load_str(out.as_str()).unwrap();

    let header = t.store.groups[0].header.as_ref().unwrap();
    assert_eq!(header.tools.len(), 2);
    assert_eq!(header.tools[0].id, "t1");
    assert_eq!(header.tools[0].name, "first");
    assert_eq!(header.tools[0].version.as_ref().unwrap(), "1.0");
    assert_eq!(header.tools[0].company.as_ref().unwrap(), "acme");
    assert_eq!(header.tools[1].id, "t2");
    assert_eq!(header.tools[1].name, "second");
    assert!(header.tools[1].version.is_none());
    assert!(header.tools[1].company.is_none());
    assert_eq!(header.notes.len(), 1);
    assert_eq!(header.notes[0].text, "keep me");
}

#[test]
fn test_malformed_markup_reports_error() {
    let mut sut = Store::new();
    let result = sut.load(b"<xliff><!-- never closed");
    assert_eq!(result, Err(XliffError::Malformed));
}

#[test]
fn test_malformed_entity_reports_error() {
    let doc = wrap("<file original=\"a\"><body><trans-unit id=\"u\"><source>&nosuch;</source></trans-unit></body></file>");
    let mut sut = Store::new();
    let result = sut.load(doc.as_bytes());
    assert_eq!(result, Err(XliffError::Malformed));
}

#[test]
fn test_mismatched_closings_resynchronize() {
    // The trans-unit element is never closed; closing the body pops the
    // stack back to the nearest matching ancestor instead of failing.
    let doc = wrap("<file original=\"a\"><body><trans-unit id=\"u\"><source>s</source></body></file>");
    let mut sut = Store::new();
    sut.load(doc.as_bytes()).unwrap();

    assert_eq!(sut.groups[0].units.len(), 1);
    assert_eq!(sut.groups[0].units[0].source_text().unwrap(), "s");
}

#[test]
fn test_empty_input_gives_empty_store() {
    let mut sut = Store::new();
    sut.load(b"").unwrap();
    assert_eq!(sut.groups.len(), 0);
}

#[test]
fn test_entities_round_trip() {
    let doc = wrap("<file original=\"a\"><body><trans-unit id=\"u\"><source>A &amp; B &lt;tag&gt; &quot;q&quot;</source></trans-unit></body></file>");
    let mut store = Store::new();
    store.load(doc.as_bytes()).unwrap();
    assert_eq!(
        store.groups[0].units[0].source_text().unwrap(),
        "A & B <tag> \"q\""
    );

    let out = String::from_utf8(WriterXliff12::write(&store).unwrap()).unwrap();
    let t = T::load_str(out.as_str()).unwrap();
    assert_eq!(
        t.store.groups[0].units[0].source_text().unwrap(),
        "A & B <tag> \"q\""
    );
}

#[test]
fn test_self_closing_element_stays_closed() {
    // A self-closing element is pushed and immediately popped: the text
    // that follows it is back in the body context and attaches to nothing.
    let doc = wrap("<file original=\"a\"><body><trans-unit id=\"u\"><source>s</source></trans-unit><note/>fly-by text</body></file>");
    let mut sut = Store::new();
    sut.load(doc.as_bytes()).unwrap();

    assert_eq!(sut.groups[0].units.len(), 1);
    assert!(sut.groups[0].units[0].note.is_none());
    assert_eq!(sut.groups[0].units[0].source_text().unwrap(), "s");
}
