//! Tests of the translation lookup helper.

use xliff::t::T;

const SAMPLE: &str = r#"<?xml version="1.0" encoding="UTF-8"?>
<xliff xmlns="urn:oasis:names:tc:xliff:document:1.2" xmlns:xsi="http://www.w3.org/2001/XMLSchema-instance" version="1.2" xsi:schemaLocation="urn:oasis:names:tc:xliff:document:1.2 http://docs.oasis-open.org/xliff/v1.2/os/xliff-core-1.2-strict.xsd">
  <file original="SampleApp/Base.lproj/Main.storyboard" source-language="en" target-language="bg" datatype="plaintext">
    <header>
      <tool tool-id="com.apple.dt.xcode" tool-name="Xcode" tool-version="11.0"/>
      <note>This is a header note</note>
      <note>This is another header note</note>
    </header>
    <body>
      <trans-unit id="fIC-hX-uRv.text" xml:space="preserve">
        <source>Pet projects are awesome</source>
        <target>Странични проекти</target>
        <note>Class = "UILabel"; text = "Pet projects are awesome"; ObjectID = "fIC-hX-uRv";</note>
      </trans-unit>
    </body>
  </file>
  <file original="SampleApp/Base.lproj/InfoPlist.strings" source-language="en" target-language="bg" datatype="plaintext">
    <header>
      <tool tool-id="com.apple.dt.xcode" tool-name="Xcode" tool-version="11.0"/>
      <note>Base values for the bundle manifest</note>
      <note>Extracted from the base localization</note>
    </header>
    <body>
      <trans-unit id="CFBundleName" xml:space="preserve">
        <source>SampleApp</source>
        <note>Bundle name</note>
      </trans-unit>
      <trans-unit id="2" translate="false" xml:space="preserve">
        <source>Do not translate this</source>
        <note>A note from the author</note>
      </trans-unit>
    </body>
  </file>
  <file original="SampleApp/en.lproj/InfoPlist.strings" source-language="en" target-language="bg" datatype="plaintext">
    <header>
      <tool tool-id="com.apple.dt.xcode" tool-name="Xcode" tool-version="11.0"/>
      <note>English strings for the bundle manifest</note>
    </header>
    <body>
      <trans-unit id="Some text" xml:space="preserve">
        <source>Some text</source>
        <target>Някакъв текст</target>
        <note>No comment provided by engineer.</note>
      </trans-unit>
      <trans-unit id="More text" xml:space="preserve">
        <source>More text</source>
        <target>Още текст</target>
      </trans-unit>
    </body>
  </file>
  <file original="SampleApp/en.lproj/Localizable.strings" source-language="en" target-language="bg" datatype="plaintext">
    <body>
      <trans-unit id="More text" xml:space="preserve">
        <source>More text</source>
        <target>Още текст</target>
      </trans-unit>
      <trans-unit id="Another text" xml:space="preserve">
        <source>Another text</source>
      </trans-unit>
    </body>
  </file>
</xliff>"#;

#[test]
fn test_t_get_translation() {
    let sut = T::load_str(SAMPLE).unwrap();

    let result = sut.t(None, "fIC-hX-uRv.text");

    assert!(result.is_some());
    let translation = result.unwrap();

    assert_eq!(translation.id, "fIC-hX-uRv.text");
    assert_eq!(
        translation.source_text().unwrap(),
        "Pet projects are awesome"
    );
    assert_eq!(translation.target_text().unwrap(), "Странични проекти");
    assert_eq!(
        translation.note.as_ref().unwrap().text,
        r#"Class = "UILabel"; text = "Pet projects are awesome"; ObjectID = "fIC-hX-uRv";"#
    );
}

#[test]
fn test_t_get_translation_twice() {
    let sut = T::load_str(SAMPLE).unwrap();

    let result1 = sut.t(None, "fIC-hX-uRv.text");
    assert!(result1.is_some());

    let result2 = sut.t(None, "fIC-hX-uRv.text");
    assert!(result2.is_some());
}

#[test]
fn test_t_get_translation_with_domain() {
    let sut = T::load_str(SAMPLE).unwrap();

    let result1 = sut.t(Some("SampleApp/en.lproj/InfoPlist.strings"), "More text");
    assert!(result1.is_some());

    let result2 = sut.t(Some("SampleApp/en.lproj/Localizable.strings"), "More text");
    assert!(result2.is_some());
}

#[test]
fn test_t_get_translation_with_source() {
    let sut = T::load_str(SAMPLE).unwrap();

    let result1 = sut.t_source(None, "Some text");
    assert!(result1.is_some());
    assert_eq!(result1.unwrap().source_text().unwrap(), "Some text");
}

#[test]
fn test_t_get_translation_with_source_and_domain() {
    let sut = T::load_str(SAMPLE).unwrap();

    let result1 = sut.t_source(Some("SampleApp/en.lproj/InfoPlist.strings"), "More text");
    assert!(result1.is_some());
    assert_eq!(result1.unwrap().source_text().unwrap(), "More text");

    let result2 = sut.t_source(Some("SampleApp/en.lproj/Localizable.strings"), "More text");
    assert!(result2.is_some());
    assert_eq!(result2.unwrap().source_text().unwrap(), "More text");
}

#[test]
fn test_t_load_translation_from_string() {
    let xliff_string = r#"<?xml version="1.0" encoding="UTF-8"?>
<xliff xmlns="urn:oasis:names:tc:xliff:document:1.2" xmlns:xsi="http://www.w3.org/2001/XMLSchema-instance" version="1.2" xsi:schemaLocation="urn:oasis:names:tc:xliff:document:1.2 http://docs.oasis-open.org/xliff/v1.2/os/xliff-core-1.2-strict.xsd">
  <file original="HelloWidgets/en.lproj/InfoPlist.strings" source-language="en" target-language="en" datatype="plaintext">
    <header>
      <tool tool-id="com.apple.dt.xcode" tool-name="Xcode" tool-version="12.0" build-num="12A6159"/>
    </header>
    <body>
      <trans-unit id="CFBundleName" xml:space="preserve">
        <source>HelloWidgets</source>
        <target>HelloWidgets Translated</target>
        <note>Bundle name</note>
      </trans-unit>
    </body>
  </file>
  <file original="HelloWidgets/en.lproj/Localizable.strings" source-language="en" target-language="en" datatype="plaintext">
    <header>
      <tool tool-id="com.apple.dt.xcode" tool-name="Xcode" tool-version="12.0" build-num="12A6159"/>
    </header>
    <body>
      <trans-unit id="Hello, world!" xml:space="preserve">
        <source>Hello, world!</source>
        <target>Hello, world! Translated</target>
        <note>No comment provided by engineer.</note>
      </trans-unit>
    </body>
  </file>
</xliff>"#;

    let sut = T::load_str(xliff_string).unwrap();

    let result = sut.t(None, "CFBundleName");

    assert!(result.is_some());
    let translation = result.unwrap();

    assert_eq!(translation.id, "CFBundleName");
    assert_eq!(translation.source_text().unwrap(), "HelloWidgets");
    assert_eq!(
        translation.target_text().unwrap(),
        "HelloWidgets Translated"
    );
    assert_eq!(translation.note.as_ref().unwrap().text, r#"Bundle name"#);
}
