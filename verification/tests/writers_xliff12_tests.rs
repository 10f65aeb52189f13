//! Tests of the XLIFF 1.2 writer: exact envelope bytes and round trips
//! through serialization and re-parsing.

use xliff::store::Store;
use xliff::t::T;
use xliff::writers::xliff12::{WriterXliff12, XliffWriter};

const SAMPLE: &str = r#"<?xml version="1.0" encoding="UTF-8"?>
<xliff xmlns="urn:oasis:names:tc:xliff:document:1.2" xmlns:xsi="http://www.w3.org/2001/XMLSchema-instance" version="1.2" xsi:schemaLocation="urn:oasis:names:tc:xliff:document:1.2 http://docs.oasis-open.org/xliff/v1.2/os/xliff-core-1.2-strict.xsd">
  <file original="SampleApp/Base.lproj/Main.storyboard" source-language="en" target-language="bg" datatype="plaintext">
    <header>
      <tool tool-id="com.apple.dt.xcode" tool-name="Xcode" tool-version="11.0"/>
      <note>This is a header note</note>
      <note>This is another header note</note>
    </header>
    <body>
      <trans-unit id="fIC-hX-uRv.text" xml:space="preserve">
        <source>Pet projects are awesome</source>
        <target>Странични проекти</target>
        <note>Class = "UILabel"; text = "Pet projects are awesome"; ObjectID = "fIC-hX-uRv";</note>
      </trans-unit>
    </body>
  </file>
  <file original="SampleApp/Base.lproj/InfoPlist.strings" source-language="en" target-language="bg" datatype="plaintext">
    <header>
      <tool tool-id="com.apple.dt.xcode" tool-name="Xcode" tool-version="11.0"/>
      <note>Base values for the bundle manifest</note>
      <note>Extracted from the base localization</note>
    </header>
    <body>
      <trans-unit id="CFBundleName" xml:space="preserve">
        <source>SampleApp</source>
        <note>Bundle name</note>
      </trans-unit>
      <trans-unit id="2" translate="false" xml:space="preserve">
        <source>Do not translate this</source>
        <note>A note from the author</note>
      </trans-unit>
    </body>
  </file>
  <file original="SampleApp/en.lproj/InfoPlist.strings" source-language="en" target-language="bg" datatype="plaintext">
    <header>
      <tool tool-id="com.apple.dt.xcode" tool-name="Xcode" tool-version="11.0"/>
      <note>English strings for the bundle manifest</note>
    </header>
    <body>
      <trans-unit id="Some text" xml:space="preserve">
        <source>Some text</source>
        <target>Някакъв текст</target>
        <note>No comment provided by engineer.</note>
      </trans-unit>
      <trans-unit id="More text" xml:space="preserve">
        <source>More text</source>
        <target>Още текст</target>
      </trans-unit>
    </body>
  </file>
  <file original="SampleApp/en.lproj/Localizable.strings" source-language="en" target-language="bg" datatype="plaintext">
    <body>
      <trans-unit id="More text" xml:space="preserve">
        <source>More text</source>
        <target>Още текст</target>
      </trans-unit>
      <trans-unit id="Another text" xml:space="preserve">
        <source>Another text</source>
      </trans-unit>
    </body>
  </file>
</xliff>"#;

#[test]
fn test_print_empty_store() {
    let store = Store::new();
    let expected = r#"<?xml version="1.0" encoding="UTF-8"?><xliff xmlns="urn:oasis:names:tc:xliff:document:1.2" xmlns:xsi="http://www.w3.org/2001/XMLSchema-instance" version="1.2" xsi:schemaLocation="urn:oasis:names:tc:xliff:document:1.2 http://docs.oasis-open.org/xliff/v1.2/os/xliff-core-1.2-strict.xsd"></xliff>"#;

    let result = WriterXliff12::write(&store);
    assert!(result.is_ok());
    assert_eq!(
        String::from_utf8(result.unwrap()).unwrap(),
        expected.to_string()
    );
}

#[test]
fn test_writes_file_for_each_group_in_order() {
    // load the sample xliff
    let mut store: xliff::store::Store = Store::new();
    store.load(SAMPLE.as_bytes()).unwrap();

    // export the contents to a string
    let result = WriterXliff12::write(&store);
    let result_string = String::from_utf8(result.unwrap()).unwrap();

    // load the string to a new store, so we can assert
    let t = T::load_str(result_string.as_str()).unwrap();

    assert_eq!(t.store.groups.len(), 4);

    for (ix, group) in store.groups.iter().enumerate() {
        let written = t.store.groups.get(ix);
        assert!(written.is_some());
        assert!(written.unwrap().address == group.address);
        assert!(written.unwrap().source_locale == group.source_locale);
        assert!(written.unwrap().target_locale == group.target_locale);
        assert!(written.unwrap().data_type == group.data_type);
        assert!(written.unwrap().header.is_some() == group.header.is_some());
    }
}

#[test]
fn test_writes_header_tools() {
    // load the sample xliff
    let mut store: xliff::store::Store = Store::new();
    store.load(SAMPLE.as_bytes()).unwrap();

    // export the contents to a string
    let result = WriterXliff12::write(&store);
    let result_string = String::from_utf8(result.unwrap()).unwrap();

    // load the string to a new store, so we can assert
    let t = T::load_str(result_string.as_str()).unwrap();

    assert_eq!(t.store.groups.len(), 4);

    for (ix, group) in store.groups.iter().enumerate() {
        let written = t.store.groups.get(ix);
        assert!(&written.is_some());

        if let Some(header) = &group.header {
            if !header.tools.is_empty() {
                let written_tools = &written.unwrap().header.as_ref().unwrap().tools;
                assert!(
                    !written_tools.is_empty(),
                    "Missing tool in header for file {}",
                    group.address
                );

                // each tool is written back with its own identification
                for (ix, tool) in header.tools.iter().enumerate() {
                    assert_eq!(written_tools.get(ix).unwrap().id, tool.id);
                    assert_eq!(written_tools.get(ix).unwrap().name, tool.name);
                }
            }
        }
    }
}

#[test]
fn test_writes_header_notes() {
    // load the sample xliff
    let mut store: xliff::store::Store = Store::new();
    store.load(SAMPLE.as_bytes()).unwrap();

    // export the contents to a string
    let result = WriterXliff12::write(&store);
    let result_string = String::from_utf8(result.unwrap()).unwrap();

    // load the string to a new store, so we can assert
    let t = T::load_str(result_string.as_str()).unwrap();

    assert_eq!(t.store.groups.len(), 4);
    let mut at_least_one_note = false;

    for (ix, group) in store.groups.iter().enumerate() {
        let written = t.store.groups.get(ix);
        assert!(&written.is_some());

        if let Some(header) = &group.header {
            if !header.notes.is_empty() {
                let written_notes = &written.unwrap().header.as_ref().unwrap().notes;
                assert_eq!(written_notes.len(), header.notes.len());

                for (ix, note) in header.notes.iter().enumerate() {
                    at_least_one_note = true;
                    assert_eq!(written_notes.get(ix).unwrap().text, note.text);
                }
            }
        }
    }

    assert!(
        at_least_one_note,
        "Test data is missing at least one header with a note."
    );
}

#[test]
fn test_round_trip_preserves_unit_fields() {
    let mut store: xliff::store::Store = Store::new();
    store.load(SAMPLE.as_bytes()).unwrap();

    let result = WriterXliff12::write(&store);
    let result_string = String::from_utf8(result.unwrap()).unwrap();
    let t = T::load_str(result_string.as_str()).unwrap();

    // Every unit in the sample carries a source value, so the written
    // document parses back to the same units, field for field.
    assert_eq!(t.store.groups.len(), store.groups.len());
    for (ix, group) in store.groups.iter().enumerate() {
        let written = &t.store.groups[ix];
        assert_eq!(written.units.len(), group.units.len());
        for (jx, unit) in group.units.iter().enumerate() {
            let written_unit = &written.units[jx];
            assert_eq!(written_unit.id, unit.id);
            assert_eq!(written_unit.translate, unit.translate);
            assert_eq!(written_unit.source_text(), unit.source_text());
            assert_eq!(written_unit.target_text(), unit.target_text());
            assert_eq!(
                written_unit.note.as_ref().map(|n| n.text.as_str()),
                unit.note.as_ref().map(|n| n.text.as_str())
            );
        }
    }
}
