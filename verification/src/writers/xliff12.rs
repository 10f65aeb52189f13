//! XLIFF 1.2 compatible output writer.
//!
//! The writer walks a finished [`Store`] and emits, in document order, the
//! fixed declaration and root element, one `<file>` element per group with
//! its header and body, and one `<trans-unit>` element per unit that has a
//! source value.  The exact sequence of emitted events is given by
//! [`events_of_store`]; the byte rendering of that sequence is the
//! emitter's.

use vstd::prelude::*;
use crate::store::{
    Attr, AttrView, FileView, HeaderView, ParseEventView, Store, StoreView, ToolView, TranslationFile,
    Unit, UnitView, XliffError, attrs_view,
};
use crate::xml::{
    rendered, start_attrs_view, start_name_view, start_new, start_push, write_close, write_decl,
    write_empty, write_open, write_text, writer_bytes, writer_log, writer_new,
};

pub use super::traits::XliffWriter;

verus! {

/// The document declaration every output starts with.
pub open spec fn decl_event() -> ParseEventView {
    ParseEventView::Decl { version: "1.0"@, encoding: "UTF-8"@ }
}

/// The fixed namespace and schema attributes of the root element.
pub open spec fn root_attrs() -> Seq<AttrView> {
    seq![
        AttrView { key: "xmlns"@, value: "urn:oasis:names:tc:xliff:document:1.2"@ },
        AttrView { key: "xmlns:xsi"@, value: "http://www.w3.org/2001/XMLSchema-instance"@ },
        AttrView { key: "version"@, value: "1.2"@ },
        AttrView {
            key: "xsi:schemaLocation"@,
            value: "urn:oasis:names:tc:xliff:document:1.2 http://docs.oasis-open.org/xliff/v1.2/os/xliff-core-1.2-strict.xsd"@,
        },
    ]
}

/// The attributes emitted on a `<file>` element: the address, then each
/// locale that is present.
pub open spec fn spec_file_attrs(g: FileView) -> Seq<AttrView> {
    seq![AttrView { key: "original"@, value: g.address }] + (match g.source_locale {
        Option::Some(l) => seq![AttrView { key: "source-language"@, value: l }],
        Option::None => Seq::<AttrView>::empty(),
    }) + (match g.target_locale {
        Option::Some(l) => seq![AttrView { key: "target-language"@, value: l }],
        Option::None => Seq::<AttrView>::empty(),
    })
}

/// The attributes emitted on a `<tool>` element: the two required fields,
/// then each optional field that is present.
pub open spec fn spec_tool_attrs(t: ToolView) -> Seq<AttrView> {
    seq![
        AttrView { key: "tool-id"@, value: t.id },
        AttrView { key: "tool-name"@, value: t.name },
    ] + (match t.version {
        Option::Some(v) => seq![AttrView { key: "tool-version"@, value: v }],
        Option::None => Seq::<AttrView>::empty(),
    }) + (match t.company {
        Option::Some(c) => seq![AttrView { key: "tool-company"@, value: c }],
        Option::None => Seq::<AttrView>::empty(),
    })
}

/// The textual form of a translate flag.
pub open spec fn spec_translate_value(translate: bool) -> Seq<char> {
    if translate {
        "true"@
    } else {
        "false"@
    }
}

/// The attributes emitted on a `<trans-unit>` element: the identifier, the
/// textual translate flag, and the fixed whitespace-preservation marker.
pub open spec fn spec_unit_attrs(u: UnitView) -> Seq<AttrView> {
    seq![
        AttrView { key: "id"@, value: u.id },
        AttrView { key: "translate"@, value: spec_translate_value(u.translate) },
        AttrView { key: "xml:space"@, value: "preserve"@ },
    ]
}

/// The events emitted for one unit.  A unit without a source value is
/// omitted entirely, even if it has a target or a note.
pub open spec fn events_of_unit(u: UnitView) -> Seq<ParseEventView> {
    match u.source {
        Option::None => Seq::<ParseEventView>::empty(),
        Option::Some(src) => seq![
            ParseEventView::Open { name: "trans-unit"@, attrs: spec_unit_attrs(u) },
            ParseEventView::Open { name: "source"@, attrs: Seq::<AttrView>::empty() },
            ParseEventView::Chars { text: src },
            ParseEventView::Close { name: "source"@ },
        ] + (match u.target {
            Option::Some(t) => seq![
                ParseEventView::Open { name: "target"@, attrs: Seq::<AttrView>::empty() },
                ParseEventView::Chars { text: t },
                ParseEventView::Close { name: "target"@ },
            ],
            Option::None => Seq::<ParseEventView>::empty(),
        }) + (match u.note {
            Option::Some(n) => seq![
                ParseEventView::Open { name: "note"@, attrs: Seq::<AttrView>::empty() },
                ParseEventView::Chars { text: n },
                ParseEventView::Close { name: "note"@ },
            ],
            Option::None => Seq::<ParseEventView>::empty(),
        }) + seq![ParseEventView::Close { name: "trans-unit"@ }],
    }
}

/// The events emitted for a sequence of units, in order.
pub open spec fn events_of_units(us: Seq<UnitView>) -> Seq<ParseEventView>
    decreases us.len(),
{
    if us.len() == 0 {
        Seq::<ParseEventView>::empty()
    } else {
        events_of_units(us.drop_last()) + events_of_unit(us.last())
    }
}

/// The single self-closing event emitted for one tool.
pub open spec fn events_of_tool(t: ToolView) -> Seq<ParseEventView> {
    seq![ParseEventView::SelfClosed { name: "tool"@, attrs: spec_tool_attrs(t) }]
}

/// The events emitted for a sequence of tools, in order.
pub open spec fn events_of_tools(ts: Seq<ToolView>) -> Seq<ParseEventView>
    decreases ts.len(),
{
    if ts.len() == 0 {
        Seq::<ParseEventView>::empty()
    } else {
        events_of_tools(ts.drop_last()) + events_of_tool(ts.last())
    }
}

/// The events emitted for one header note.
pub open spec fn events_of_note(n: Seq<char>) -> Seq<ParseEventView> {
    seq![
        ParseEventView::Open { name: "note"@, attrs: Seq::<AttrView>::empty() },
        ParseEventView::Chars { text: n },
        ParseEventView::Close { name: "note"@ },
    ]
}

/// The events emitted for a sequence of header notes, in order.
pub open spec fn events_of_notes(ns: Seq<Seq<char>>) -> Seq<ParseEventView>
    decreases ns.len(),
{
    if ns.len() == 0 {
        Seq::<ParseEventView>::empty()
    } else {
        events_of_notes(ns.drop_last()) + events_of_note(ns.last())
    }
}

/// The events emitted for a group's header, if it has one: the tools in
/// order, then the notes in order.
pub open spec fn events_of_header(h: Option<HeaderView>) -> Seq<ParseEventView> {
    match h {
        Option::None => Seq::<ParseEventView>::empty(),
        Option::Some(h) => seq![
            ParseEventView::Open { name: "header"@, attrs: Seq::<AttrView>::empty() },
        ] + events_of_tools(h.tools) + events_of_notes(h.notes) + seq![
            ParseEventView::Close { name: "header"@ },
        ],
    }
}

/// The events emitted for one group: the `<file>` element with its header,
/// then the body holding the source-bearing units.
pub open spec fn events_of_group(g: FileView) -> Seq<ParseEventView> {
    seq![ParseEventView::Open { name: "file"@, attrs: spec_file_attrs(g) }]
        + events_of_header(g.header) + seq![
        ParseEventView::Open { name: "body"@, attrs: Seq::<AttrView>::empty() },
    ] + events_of_units(g.units) + seq![
        ParseEventView::Close { name: "body"@ },
        ParseEventView::Close { name: "file"@ },
    ]
}

/// The events emitted for a sequence of groups, in store order.
pub open spec fn events_of_groups(gs: Seq<FileView>) -> Seq<ParseEventView>
    decreases gs.len(),
{
    if gs.len() == 0 {
        Seq::<ParseEventView>::empty()
    } else {
        events_of_groups(gs.drop_last()) + events_of_group(gs.last())
    }
}

/// All element events emitted for a store: the root element wrapping every
/// group in order.
pub open spec fn events_of_store(s: StoreView) -> Seq<ParseEventView> {
    seq![ParseEventView::Open { name: "xliff"@, attrs: root_attrs() }] + events_of_groups(s.groups)
        + seq![ParseEventView::Close { name: "xliff"@ }]
}

/// XLIFF 1.2 compatible output writer.
pub struct WriterXliff12;

/// A start-tag payload carrying the given name and attributes.
fn element_with_attrs(name: &str, attrs: &Vec<Attr>) -> (e: quick_xml::events::BytesStart<
    'static,
>)
    ensures
        start_name_view(e) == name@,
        start_attrs_view(e) == attrs_view(attrs@),
{
    let ghost av = attrs_view(attrs@);
    let mut e = start_new(name);
    let mut i: usize = 0;
    while i < attrs.len()
        invariant
            i <= attrs.len(),
            av == attrs_view(attrs@),
            start_name_view(e) == name@,
            start_attrs_view(e) == av.take(i as int),
        decreases attrs.len() - i,
    {
        let a = &attrs[i];
        start_push(&mut e, a.key.as_str(), a.value.as_str());
        proof {
            assert(av[i as int] == attrs@[i as int]@);
            assert(av.take(i as int).push(av[i as int]) =~= av.take(i as int + 1));
        }
        i = i + 1;
    }
    proof {
        assert(av.take(attrs@.len() as int) =~= av);
    }
    e
}

impl WriterXliff12 {
    /// The textual translate flag emitted for a unit.
    pub fn unit_translate_value(unit: &Unit) -> (r: &'static str)
        ensures
            r@ == spec_translate_value(unit@.translate),
    {
        if unit.translate {
            "true"
        } else {
            "false"
        }
    }

    /// The attributes emitted on the `<trans-unit>` element for a unit.
    pub fn unit_attributes(unit: &Unit) -> (r: Vec<Attr>)
        ensures
            attrs_view(r@) == spec_unit_attrs(unit@),
    {
        let mut r: Vec<Attr> = Vec::new();
        r.push(Attr { key: "id".to_owned(), value: unit.id.clone() });
        r.push(
            Attr {
                key: "translate".to_owned(),
                value: Self::unit_translate_value(unit).to_owned(),
            },
        );
        r.push(Attr { key: "xml:space".to_owned(), value: "preserve".to_owned() });
        proof {
            assert(attrs_view(r@) =~= spec_unit_attrs(unit@));
        }
        r
    }

    /// The attributes emitted on the `<file>` element for a group.
    fn file_attributes(file: &TranslationFile) -> (r: Vec<Attr>)
        ensures
            attrs_view(r@) == spec_file_attrs(file@),
    {
        let mut r: Vec<Attr> = Vec::new();
        r.push(Attr { key: "original".to_owned(), value: file.address.clone() });
        match file.source_locale.as_ref() {
            Option::None => {}
            Option::Some(l) => {
                r.push(Attr { key: "source-language".to_owned(), value: l.identifier.clone() });
            }
        }
        match file.target_locale.as_ref() {
            Option::None => {}
            Option::Some(l) => {
                r.push(Attr { key: "target-language".to_owned(), value: l.identifier.clone() });
            }
        }
        proof {
            assert(attrs_view(r@) =~= spec_file_attrs(file@));
        }
        r
    }

    /// The attributes emitted on the `<tool>` element for a tool.
    fn tool_attributes(tool: &crate::store::Tool) -> (r: Vec<Attr>)
        ensures
            attrs_view(r@) == spec_tool_attrs(tool@),
    {
        let mut r: Vec<Attr> = Vec::new();
        r.push(Attr { key: "tool-id".to_owned(), value: tool.id.clone() });
        r.push(Attr { key: "tool-name".to_owned(), value: tool.name.clone() });
        match tool.version.as_ref() {
            Option::None => {}
            Option::Some(v) => {
                r.push(Attr { key: "tool-version".to_owned(), value: v.clone() });
            }
        }
        match tool.company.as_ref() {
            Option::None => {}
            Option::Some(c) => {
                r.push(Attr { key: "tool-company".to_owned(), value: c.clone() });
            }
        }
        proof {
            assert(attrs_view(r@) =~= spec_tool_attrs(tool@));
        }
        r
    }

    /// Emits the document declaration and the opening root element.
    fn print_envelope(writer: &mut quick_xml::Writer<Vec<u8>>)
        ensures
            writer_log(*final(writer)) == writer_log(*old(writer)) + seq![
                decl_event(),
                (ParseEventView::Open { name: "xliff"@, attrs: root_attrs() }),
            ],
    {
        write_decl(writer, "1.0", "UTF-8");
        let mut root = start_new("xliff");
        start_push(&mut root, "xmlns", "urn:oasis:names:tc:xliff:document:1.2");
        start_push(&mut root, "xmlns:xsi", "http://www.w3.org/2001/XMLSchema-instance");
        start_push(&mut root, "version", "1.2");
        start_push(
            &mut root,
            "xsi:schemaLocation",
            "urn:oasis:names:tc:xliff:document:1.2 http://docs.oasis-open.org/xliff/v1.2/os/xliff-core-1.2-strict.xsd",
        );
        proof {
            assert(start_attrs_view(root) =~= root_attrs());
        }
        write_open(writer, root);
        proof {
            assert(writer_log(*final(writer)) =~= writer_log(*old(writer)) + seq![
                decl_event(),
                (ParseEventView::Open { name: "xliff"@, attrs: root_attrs() }),
            ]);
        }
    }

    /// Emits the closing root element.
    fn print_envelope_end(writer: &mut quick_xml::Writer<Vec<u8>>)
        ensures
            writer_log(*final(writer)) == writer_log(*old(writer)).push(
                (ParseEventView::Close { name: "xliff"@ }),
            ),
    {
        write_close(writer, "xliff");
    }

    /// Emits the header of a group, if it has one: each tool as a
    /// self-closing element in tool order, then each note in note order.
    fn write_header(writer: &mut quick_xml::Writer<Vec<u8>>, file: &TranslationFile)
        ensures
            writer_log(*final(writer)) == writer_log(*old(writer)) + events_of_header(
                file@.header,
            ),
    {
        let ghost base = writer_log(*old(writer));
        match file.header.as_ref() {
            Option::None => {
                proof {
                    assert(base + events_of_header(file@.header) =~= base);
                }
            }
            Option::Some(header) => {
                let ghost hv = header@;
                write_open(writer, start_new("header"));
                let ghost opened = base + seq![
                    ParseEventView::Open { name: "header"@, attrs: Seq::<AttrView>::empty() },
                ];
                proof {
                    assert(writer_log(*writer) =~= opened);
                    assert(hv.tools.take(0) =~= Seq::<ToolView>::empty());
                }
                let mut i: usize = 0;
                while i < header.tools.len()
                    invariant
                        i <= header.tools.len(),
                        hv == header@,
                        writer_log(*writer) == opened + events_of_tools(hv.tools.take(i as int)),
                    decreases header.tools.len() - i,
                {
                    let tool = &header.tools[i];
                    let tattrs = Self::tool_attributes(tool);
                    write_empty(writer, element_with_attrs("tool", &tattrs));
                    proof {
                        assert(hv.tools[i as int] == tool@);
                        assert(hv.tools.take(i as int + 1).drop_last() =~= hv.tools.take(i as int));
                        assert(hv.tools.take(i as int + 1).last() == hv.tools[i as int]);
                        assert(writer_log(*writer) =~= opened + events_of_tools(
                            hv.tools.take(i as int + 1),
                        ));
                    }
                    i = i + 1;
                }
                let ghost with_tools = opened + events_of_tools(hv.tools);
                proof {
                    assert(hv.tools.take(header.tools@.len() as int) =~= hv.tools);
                    assert(hv.notes.take(0) =~= Seq::<Seq<char>>::empty());
                    assert(writer_log(*writer) + events_of_notes(hv.notes.take(0)) =~= writer_log(
                        *writer,
                    ));
                }
                let mut j: usize = 0;
                while j < header.notes.len()
                    invariant
                        j <= header.notes.len(),
                        hv == header@,
                        writer_log(*writer) == with_tools + events_of_notes(
                            hv.notes.take(j as int),
                        ),
                    decreases header.notes.len() - j,
                {
                    let note = &header.notes[j];
                    write_open(writer, start_new("note"));
                    write_text(writer, note.text.as_str());
                    write_close(writer, "note");
                    proof {
                        assert(hv.notes[j as int] == note@);
                        assert(hv.notes.take(j as int + 1).drop_last() =~= hv.notes.take(j as int));
                        assert(hv.notes.take(j as int + 1).last() == hv.notes[j as int]);
                        assert(writer_log(*writer) =~= with_tools + events_of_notes(
                            hv.notes.take(j as int + 1),
                        ));
                    }
                    j = j + 1;
                }
                write_close(writer, "header");
                proof {
                    assert(hv.notes.take(header.notes@.len() as int) =~= hv.notes);
                    assert(writer_log(*writer) =~= base + events_of_header(file@.header));
                }
            }
        }
    }

    /// Emits the body of a group: one `<trans-unit>` element per unit that
    /// has a source value, in unit order; units without one are skipped
    /// entirely.
    fn write_body(writer: &mut quick_xml::Writer<Vec<u8>>, file: &TranslationFile)
        ensures
            writer_log(*final(writer)) == writer_log(*old(writer)) + seq![
                (ParseEventView::Open { name: "body"@, attrs: Seq::<AttrView>::empty() }),
            ] + events_of_units(file@.units) + seq![
                (ParseEventView::Close { name: "body"@ }),
            ],
    {
        let ghost base = writer_log(*old(writer));
        write_open(writer, start_new("body"));
        let ghost opened = base + seq![
            ParseEventView::Open { name: "body"@, attrs: Seq::<AttrView>::empty() },
        ];
        let ghost uv = file@.units;
        proof {
            assert(writer_log(*writer) =~= opened);
            assert(uv.take(0) =~= Seq::<UnitView>::empty());
        }
        let mut i: usize = 0;
        while i < file.units.len()
            invariant
                i <= file.units.len(),
                uv == file@.units,
                writer_log(*writer) == opened + events_of_units(uv.take(i as int)),
            decreases file.units.len() - i,
        {
            let unit = &file.units[i];
            match unit.source.as_ref() {
                Option::None => {
                    proof {
                        assert(events_of_unit(uv[i as int]) =~= Seq::<ParseEventView>::empty());
                    }
                }
                Option::Some(unit_source) => {
                    let uattrs = Self::unit_attributes(unit);
                    write_open(writer, element_with_attrs("trans-unit", &uattrs));
                    write_open(writer, start_new("source"));
                    write_text(writer, unit_source.text.as_str());
                    write_close(writer, "source");
                    match unit.target.as_ref() {
                        Option::None => {}
                        Option::Some(unit_target) => {
                            write_open(writer, start_new("target"));
                            write_text(writer, unit_target.text.as_str());
                            write_close(writer, "target");
                        }
                    }
                    match unit.note.as_ref() {
                        Option::None => {}
                        Option::Some(unit_note) => {
                            write_open(writer, start_new("note"));
                            write_text(writer, unit_note.text.as_str());
                            write_close(writer, "note");
                        }
                    }
                    write_close(writer, "trans-unit");
                }
            }
            proof {
                assert(uv[i as int] == file@.units[i as int]);
                assert(writer_log(*writer) =~= opened + events_of_units(uv.take(i as int))
                    + events_of_unit(uv[i as int]));
                assert(uv.take(i as int + 1).drop_last() =~= uv.take(i as int));
                assert(uv.take(i as int + 1).last() == uv[i as int]);
                assert(writer_log(*writer) =~= opened + events_of_units(uv.take(i as int + 1)));
            }
            i = i + 1;
        }
        write_close(writer, "body");
        proof {
            assert(uv.take(file.units@.len() as int) =~= uv);
            assert(writer_log(*writer) =~= base + seq![
                ParseEventView::Open { name: "body"@, attrs: Seq::<AttrView>::empty() },
            ] + events_of_units(file@.units) + seq![
                ParseEventView::Close { name: "body"@ },
            ]);
        }
    }
}

impl XliffWriter for WriterXliff12 {
    fn write(store: &Store) -> (r: Result<Vec<u8>, XliffError>) {
        let mut writer = writer_new();
        Self::print_envelope(&mut writer);
        let ghost head = seq![
            decl_event(),
            ParseEventView::Open { name: "xliff"@, attrs: root_attrs() },
        ];
        let ghost gv = store@.groups;
        proof {
            assert(writer_log(writer) =~= Seq::<ParseEventView>::empty() + head);
            assert(writer_log(writer) =~= head);
            assert(gv.take(0) =~= Seq::<FileView>::empty());
            assert(writer_log(writer) + events_of_groups(gv.take(0)) =~= writer_log(writer));
        }
        let mut i: usize = 0;
        while i < store.groups.len()
            invariant
                i <= store.groups.len(),
                gv == store@.groups,
                writer_log(writer) == head + events_of_groups(gv.take(i as int)),
            decreases store.groups.len() - i,
        {
            let file = &store.groups[i];
            let fattrs = Self::file_attributes(file);
            write_open(&mut writer, element_with_attrs("file", &fattrs));
            Self::write_header(&mut writer, file);
            Self::write_body(&mut writer, file);
            write_close(&mut writer, "file");
            proof {
                assert(gv[i as int] == file@);
                assert(writer_log(writer) =~= head + events_of_groups(gv.take(i as int))
                    + events_of_group(gv[i as int]));
                assert(gv.take(i as int + 1).drop_last() =~= gv.take(i as int));
                assert(gv.take(i as int + 1).last() == gv[i as int]);
                assert(writer_log(writer) =~= head + events_of_groups(gv.take(i as int + 1)));
            }
            i = i + 1;
        }
        Self::print_envelope_end(&mut writer);
        proof {
            assert(gv.take(store.groups@.len() as int) =~= gv);
            assert(writer_log(writer) =~= seq![decl_event()] + events_of_store(store@));
        }
        let out = writer_bytes(writer);
        Result::Ok(out)
    }
}

} // verus!
