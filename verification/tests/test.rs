//! Tests of the parser and the document model over a sample document.

use quick_xml::events::Event::{Decl, Eof, Start};
use quick_xml::Reader;
use xliff::store::Store;

const SAMPLE: &str = r#"<?xml version="1.0" encoding="UTF-8"?>
<xliff xmlns="urn:oasis:names:tc:xliff:document:1.2" xmlns:xsi="http://www.w3.org/2001/XMLSchema-instance" version="1.2" xsi:schemaLocation="urn:oasis:names:tc:xliff:document:1.2 http://docs.oasis-open.org/xliff/v1.2/os/xliff-core-1.2-strict.xsd">
  <file original="SampleApp/Base.lproj/Main.storyboard" source-language="en" target-language="bg" datatype="plaintext">
    <header>
      <tool tool-id="com.apple.dt.xcode" tool-name="Xcode" tool-version="11.0"/>
      <note>This is a header note</note>
      <note>This is another header note</note>
    </header>
    <body>
      <trans-unit id="fIC-hX-uRv.text" xml:space="preserve">
        <source>Pet projects are awesome</source>
        <target>Странични проекти</target>
        <note>Class = "UILabel"; text = "Pet projects are awesome"; ObjectID = "fIC-hX-uRv";</note>
      </trans-unit>
    </body>
  </file>
  <file original="SampleApp/Base.lproj/InfoPlist.strings" source-language="en" target-language="bg" datatype="plaintext">
    <header>
      <tool tool-id="com.apple.dt.xcode" tool-name="Xcode" tool-version="11.0"/>
      <note>Base values for the bundle manifest</note>
      <note>Extracted from the base localization</note>
    </header>
    <body>
      <trans-unit id="CFBundleName" xml:space="preserve">
        <source>SampleApp</source>
        <note>Bundle name</note>
      </trans-unit>
      <trans-unit id="2" translate="false" xml:space="preserve">
        <source>Do not translate this</source>
        <note>A note from the author</note>
      </trans-unit>
    </body>
  </file>
  <file original="SampleApp/en.lproj/InfoPlist.strings" source-language="en" target-language="bg" datatype="plaintext">
    <header>
      <tool tool-id="com.apple.dt.xcode" tool-name="Xcode" tool-version="11.0"/>
      <note>English strings for the bundle manifest</note>
    </header>
    <body>
      <trans-unit id="Some text" xml:space="preserve">
        <source>Some text</source>
        <target>Някакъв текст</target>
        <note>No comment provided by engineer.</note>
      </trans-unit>
      <trans-unit id="More text" xml:space="preserve">
        <source>More text</source>
        <target>Още текст</target>
      </trans-unit>
    </body>
  </file>
  <file original="SampleApp/en.lproj/Localizable.strings" source-language="en" target-language="bg" datatype="plaintext">
    <body>
      <trans-unit id="More text" xml:space="preserve">
        <source>More text</source>
        <target>Още текст</target>
      </trans-unit>
      <trans-unit id="Another text" xml:space="preserve">
        <source>Another text</source>
      </trans-unit>
    </body>
  </file>
</xliff>"#;

#[test]
fn test_sample_as_xml_count_all_tags() {
    let mut r = Reader::from_str(SAMPLE);
    let mut count = 0;
    loop {
        match r.read_event().unwrap() {
            Start(_) => count += 1,
            Decl(e) => println!("{:?}", e.version()),
            Eof => break,
            _ => (),
        }
    }

    assert_eq!(count, 39);
}

#[test]
fn test_sample_reads_file_tags() {
    let mut sut: xliff::store::Store = Store::new();
    sut.load(SAMPLE.as_bytes()).unwrap();

    assert_eq!(sut.groups.len(), 4);
}

#[test]
fn test_sample_reads_file_attributes() {
    let mut sut: xliff::store::Store = Store::new();
    sut.load(SAMPLE.as_bytes()).unwrap();

    assert_eq!(
        sut.groups[0].address,
        "SampleApp/Base.lproj/Main.storyboard"
    );

    assert_eq!(sut.groups[0].source_locale.is_some(), true);
    match &sut.groups[0].source_locale {
        None => {
            assert!(false, "source_locale must be set");
        }
        Some(locale) => {
            assert_eq!(locale.identifier, "en");
        }
    }

    assert_eq!(sut.groups[0].target_locale.is_some(), true);
    match &sut.groups[0].target_locale {
        None => {
            assert!(false, "target_locale must be set");
        }
        Some(locale) => {
            assert_eq!(locale.identifier, "bg");
        }
    }
}

#[test]
fn test_sample_reads_translation_units() {
    let mut sut: xliff::store::Store = Store::new();
    sut.load(SAMPLE.as_bytes()).unwrap();

    assert_eq!(sut.groups[0].units.len(), 1);
    assert_eq!(sut.groups[0].units[0].id, "fIC-hX-uRv.text");
    assert_eq!(sut.groups[0].units[0].translate, true);

    assert_eq!(sut.groups[1].units.len(), 2);
    assert_eq!(sut.groups[1].units[0].id, "CFBundleName");
    assert_eq!(sut.groups[1].units[0].translate, true);
    assert_eq!(sut.groups[1].units[1].id, "2");
    assert_eq!(sut.groups[1].units[1].translate, false);
}

#[test]
fn test_sample_reads_translation_source() {
    let mut sut: xliff::store::Store = Store::new();
    sut.load(SAMPLE.as_bytes()).unwrap();

    assert_eq!(
        sut.groups[0].units[0].source.clone().unwrap().text,
        "Pet projects are awesome"
    );
    assert_eq!(
        sut.groups[1].units[0].source.clone().unwrap().text,
        "SampleApp"
    );
    assert_eq!(
        sut.groups[1].units[1].source.clone().unwrap().text,
        "Do not translate this"
    );
}

#[test]
fn test_sample_reads_translation_target() {
    let mut sut: xliff::store::Store = Store::new();
    sut.load(SAMPLE.as_bytes()).unwrap();

    assert_eq!(
        sut.groups[0].units[0].target.clone().unwrap().text,
        "Странични проекти"
    );
    assert_eq!(sut.groups[1].units[0].target.is_none(), true);
    assert_eq!(sut.groups[1].units[1].target.is_none(), true);
}

#[test]
fn test_sample_reads_translation_note() {
    let mut sut: xliff::store::Store = Store::new();
    sut.load(SAMPLE.as_bytes()).unwrap();

    assert_eq!(
        sut.groups[0].units[0].note.clone().unwrap().text,
        r#"Class = "UILabel"; text = "Pet projects are awesome"; ObjectID = "fIC-hX-uRv";"#
    );
    assert_eq!(
        sut.groups[1].units[0].note.clone().unwrap().text,
        r#"Bundle name"#
    );
    assert_eq!(
        sut.groups[1].units[1].note.clone().unwrap().text,
        r#"A note from the author"#
    );
    assert_eq!(
        sut.groups[2].units[0].note.clone().unwrap().text,
        r#"No comment provided by engineer."#
    );
}

#[test]
fn test_sample_source_target_retrievers() {
    let mut sut: xliff::store::Store = Store::new();
    sut.load(SAMPLE.as_bytes()).unwrap();

    assert_eq!(
        sut.groups[0].units[0].source_text().unwrap(),
        "Pet projects are awesome"
    );
    assert_eq!(
        sut.groups[0].units[0].target_text().unwrap(),
        "Странични проекти"
    );
    assert_eq!(sut.groups[1].units[0].source_text().unwrap(), "SampleApp");
    assert_eq!(
        sut.groups[1].units[1].source_text().unwrap(),
        "Do not translate this"
    );
}

#[test]
fn test_creates_header() {
    let mut sut: xliff::store::Store = Store::new();
    sut.load(SAMPLE.as_bytes()).unwrap();

    assert!(sut.groups[0].header.is_some());
    assert!(sut.groups[1].header.is_some());
    assert!(sut.groups[2].header.is_some());

    assert!(sut.groups[3].header.is_none());
}

#[test]
fn test_creates_header_notes() {
    let mut sut: xliff::store::Store = Store::new();
    sut.load(SAMPLE.as_bytes()).unwrap();

    assert_eq!(sut.groups[0].header.as_ref().unwrap().notes.len(), 2);
    assert_eq!(
        sut.groups[0].header.as_ref().unwrap().notes[0].text,
        "This is a header note"
    );
    assert_eq!(
        sut.groups[0].header.as_ref().unwrap().notes[1].text,
        "This is another header note"
    );
}

#[test]
fn test_creates_tools() {
    let mut sut: xliff::store::Store = Store::new();
    sut.load(SAMPLE.as_bytes()).unwrap();

    assert_eq!(sut.groups[0].header.as_ref().unwrap().tools.len(), 1);
    assert_eq!(
        sut.groups[0].header.as_ref().unwrap().tools[0].id,
        "com.apple.dt.xcode"
    );
    assert_eq!(
        sut.groups[0].header.as_ref().unwrap().tools[0].name,
        "Xcode"
    );

    assert!(sut.groups[0].header.as_ref().unwrap().tools[0]
        .version
        .is_some());
    assert_eq!(
        sut.groups[0].header.as_ref().unwrap().tools[0]
            .version
            .clone()
            .unwrap(),
        "11.0"
    );

    assert!(sut.groups[0].header.as_ref().unwrap().tools[0]
        .company
        .is_none());
}
