//! Relations between the parser and the writer, stated and proved over
//! their specifications: chief among them, parsing the writer's event
//! stream reproduces the store it was written from.

use vstd::prelude::*;
use crate::store::{
    AttrView, FileView, HeaderView, ParseEventView, ParseState, StoreView, TagCtx, ToolView,
    UnitView, default_tool_view, default_unit_view, empty_file_view, file_norm, initial_state,
    locale_norm, spec_add_group, spec_add_header_note, spec_add_unit, spec_add_unit_note,
    spec_add_unit_source, spec_add_unit_target, spec_apply_file_attr, spec_apply_tool_attr,
    spec_apply_unit_attr, spec_fold_file_attrs, spec_fold_tool_attrs, spec_fold_unit_attrs,
    spec_run, spec_step, spec_tag_of, unit_norm,
};
use crate::writers::xliff12::{
    decl_event, events_of_group, events_of_groups, events_of_header, events_of_note,
    events_of_notes, events_of_store, events_of_tool, events_of_tools, events_of_unit,
    events_of_units, root_attrs, spec_file_attrs, spec_tool_attrs, spec_translate_value,
    spec_unit_attrs,
};

verus! {

broadcast use vstd::string::group_string_axioms;

/// The tag context of each element name the writer emits.
proof fn lemma_tag_literals()
    ensures
        spec_tag_of("file"@) == Option::Some(TagCtx::File),
        spec_tag_of("header"@) == Option::Some(TagCtx::Header),
        spec_tag_of("tool"@) == Option::Some(TagCtx::Tool),
        spec_tag_of("body"@) == Option::Some(TagCtx::Body),
        spec_tag_of("source"@) == Option::Some(TagCtx::Source),
        spec_tag_of("target"@) == Option::Some(TagCtx::Target),
        spec_tag_of("note"@) == Option::Some(TagCtx::Note),
        spec_tag_of("trans-unit"@) == Option::Some(TagCtx::Unit),
        (spec_tag_of("xliff"@) is None),
{
    reveal_strlit("file");
    reveal_strlit("header");
    reveal_strlit("tool");
    reveal_strlit("body");
    reveal_strlit("source");
    reveal_strlit("target");
    reveal_strlit("note");
    reveal_strlit("trans-unit");
    reveal_strlit("xliff");
    assert(("file"@).len() == 4);
    assert(("file"@)[0] == 'f');
    assert(("header"@).len() == 6);
    assert(("header"@)[0] == 'h');
    assert(("tool"@).len() == 4);
    assert(("tool"@)[0] == 't');
    assert(("body"@).len() == 4);
    assert(("body"@)[0] == 'b');
    assert(("source"@).len() == 6);
    assert(("source"@)[0] == 's');
    assert(("target"@).len() == 6);
    assert(("target"@)[0] == 't');
    assert(("note"@).len() == 4);
    assert(("note"@)[0] == 'n');
    assert(("trans-unit"@).len() == 10);
    assert(("trans-unit"@)[0] == 't');
    assert(("xliff"@).len() == 5);
    assert(("xliff"@)[0] == 'x');
    assert("file"@ != "header"@);
    assert("file"@ != "tool"@);
    assert("header"@ != "tool"@);
    assert("file"@ != "body"@);
    assert("header"@ != "body"@);
    assert("tool"@ != "body"@);
    assert("file"@ != "source"@);
    assert("header"@ != "source"@);
    assert("tool"@ != "source"@);
    assert("body"@ != "source"@);
    assert("file"@ != "target"@);
    assert("header"@ != "target"@);
    assert("tool"@ != "target"@);
    assert("body"@ != "target"@);
    assert("source"@ != "target"@);
    assert("file"@ != "note"@);
    assert("header"@ != "note"@);
    assert("tool"@ != "note"@);
    assert("body"@ != "note"@);
    assert("source"@ != "note"@);
    assert("target"@ != "note"@);
    assert("file"@ != "trans-unit"@);
    assert("header"@ != "trans-unit"@);
    assert("tool"@ != "trans-unit"@);
    assert("body"@ != "trans-unit"@);
    assert("source"@ != "trans-unit"@);
    assert("target"@ != "trans-unit"@);
    assert("note"@ != "trans-unit"@);
    assert("file"@ != "xliff"@);
    assert("header"@ != "xliff"@);
    assert("tool"@ != "xliff"@);
    assert("body"@ != "xliff"@);
    assert("source"@ != "xliff"@);
    assert("target"@ != "xliff"@);
    assert("note"@ != "xliff"@);
    assert("trans-unit"@ != "xliff"@);
}


/// Folding one more attribute applies it after the rest.
proof fn lemma_fold_file_push(f: FileView, s: Seq<AttrView>, a: AttrView)
    ensures
        spec_fold_file_attrs(f, s.push(a)) == spec_apply_file_attr(spec_fold_file_attrs(f, s), a),
{
    assert(s.push(a).drop_last() =~= s);
    assert(s.push(a).last() == a);
}

/// Folding one more attribute applies it after the rest.
proof fn lemma_fold_unit_push(u: UnitView, s: Seq<AttrView>, a: AttrView)
    ensures
        spec_fold_unit_attrs(u, s.push(a)) == spec_apply_unit_attr(spec_fold_unit_attrs(u, s), a),
{
    assert(s.push(a).drop_last() =~= s);
    assert(s.push(a).last() == a);
}

/// Folding one more attribute applies it after the rest.
proof fn lemma_fold_tool_push(t: ToolView, s: Seq<AttrView>, a: AttrView)
    ensures
        spec_fold_tool_attrs(t, s.push(a)) == spec_apply_tool_attr(spec_fold_tool_attrs(t, s), a),
{
    assert(s.push(a).drop_last() =~= s);
    assert(s.push(a).last() == a);
}

/// Folding the attributes the writer emits for a group builds that group's
/// shell: same address and locales, nothing else yet.
proof fn lemma_fold_file_attrs_of(g: FileView)
    requires
        locale_norm(g.source_locale),
        locale_norm(g.target_locale),
    ensures
        spec_fold_file_attrs(empty_file_view(Seq::<char>::empty()), spec_file_attrs(g))
            == (FileView {
            address: g.address,
            source_locale: g.source_locale,
            target_locale: g.target_locale,
            units: Seq::<UnitView>::empty(),
            data_type: Seq::<char>::empty(),
            header: Option::None,
        }),
{
    reveal_strlit("original");
    reveal_strlit("source-language");
    reveal_strlit("target-language");
    assert(("original"@).len() == 8);
    assert(("original"@)[0] == 'o');
    assert(("source-language"@).len() == 15);
    assert(("source-language"@)[0] == 's');
    assert(("target-language"@).len() == 15);
    assert(("target-language"@)[0] == 't');
    assert("original"@ != "source-language"@);
    assert("original"@ != "target-language"@);
    assert("source-language"@ != "target-language"@);
    let f0 = empty_file_view(Seq::<char>::empty());
    let nil = Seq::<AttrView>::empty();
    let a0 = AttrView { key: "original"@, value: g.address };
    let attrs = spec_file_attrs(g);
    assert(spec_fold_file_attrs(f0, nil) == f0);
    lemma_fold_file_push(f0, nil, a0);
    assert(nil.push(a0) =~= seq![a0]);
    match g.source_locale {
        Option::Some(sl) => {
            let a1 = AttrView { key: "source-language"@, value: sl };
            crate::store::lemma_lower_seq_idempotent(sl);
            lemma_fold_file_push(f0, seq![a0], a1);
            assert(seq![a0].push(a1) =~= seq![a0, a1]);
            match g.target_locale {
                Option::Some(tl) => {
                    let a2 = AttrView { key: "target-language"@, value: tl };
                    crate::store::lemma_lower_seq_idempotent(tl);
                    lemma_fold_file_push(f0, seq![a0, a1], a2);
                    assert(seq![a0, a1].push(a2) =~= seq![a0, a1, a2]);
                    assert(attrs =~= seq![a0, a1, a2]);
                }
                Option::None => {
                    assert(attrs =~= seq![a0, a1]);
                }
            }
        }
        Option::None => {
            match g.target_locale {
                Option::Some(tl) => {
                    let a2 = AttrView { key: "target-language"@, value: tl };
                    crate::store::lemma_lower_seq_idempotent(tl);
                    lemma_fold_file_push(f0, seq![a0], a2);
                    assert(seq![a0].push(a2) =~= seq![a0, a2]);
                    assert(attrs =~= seq![a0, a2]);
                }
                Option::None => {
                    assert(attrs =~= seq![a0]);
                }
            }
        }
    }
}

/// Folding the attributes the writer emits for a unit rebuilds the unit's
/// identifier and translate flag.
proof fn lemma_fold_unit_attrs_of(u: UnitView)
    ensures
        spec_fold_unit_attrs(default_unit_view(), spec_unit_attrs(u)) == (UnitView {
            id: u.id,
            translate: u.translate,
            source: Option::None,
            target: Option::None,
            source_locale: Option::None,
            target_locale: Option::None,
            note: Option::None,
        }),
{
    reveal_strlit("id");
    reveal_strlit("translate");
    reveal_strlit("xml:space");
    reveal_strlit("true");
    reveal_strlit("false");
    assert(("id"@).len() == 2);
    assert(("id"@)[0] == 'i');
    assert(("translate"@).len() == 9);
    assert(("translate"@)[0] == 't');
    assert(("xml:space"@).len() == 9);
    assert(("xml:space"@)[0] == 'x');
    assert(("true"@).len() == 4);
    assert(("true"@)[0] == 't');
    assert(("false"@).len() == 5);
    assert(("false"@)[0] == 'f');
    assert("id"@ != "translate"@);
    assert("id"@ != "xml:space"@);
    assert("translate"@ != "xml:space"@);
    assert("id"@ != "true"@);
    assert("translate"@ != "true"@);
    assert("xml:space"@ != "true"@);
    assert("id"@ != "false"@);
    assert("translate"@ != "false"@);
    assert("xml:space"@ != "false"@);
    assert("true"@ != "false"@);
    let u0 = default_unit_view();
    let nil = Seq::<AttrView>::empty();
    let a0 = AttrView { key: "id"@, value: u.id };
    let a1 = AttrView { key: "translate"@, value: spec_translate_value(u.translate) };
    let a2 = AttrView { key: "xml:space"@, value: "preserve"@ };
    let attrs = spec_unit_attrs(u);
    assert(attrs =~= seq![a0, a1, a2]);
    assert(spec_fold_unit_attrs(u0, nil) == u0);
    lemma_fold_unit_push(u0, nil, a0);
    assert(nil.push(a0) =~= seq![a0]);
    lemma_fold_unit_push(u0, seq![a0], a1);
    assert(seq![a0].push(a1) =~= seq![a0, a1]);
    lemma_fold_unit_push(u0, seq![a0, a1], a2);
    assert(seq![a0, a1].push(a2) =~= seq![a0, a1, a2]);
    if u.translate {
        assert("true"@.len() == 4);
        assert("false"@.len() == 5);
        assert(spec_translate_value(true) != "false"@);
    } else {
        assert(spec_translate_value(false) == "false"@);
    }
}

/// Folding the attributes the writer emits for a tool rebuilds that tool.
proof fn lemma_fold_tool_attrs_of(t: ToolView)
    ensures
        spec_fold_tool_attrs(default_tool_view(), spec_tool_attrs(t)) == t,
{
    reveal_strlit("tool-id");
    reveal_strlit("tool-name");
    reveal_strlit("tool-version");
    reveal_strlit("tool-company");
    assert(("tool-id"@).len() == 7);
    assert(("tool-id"@)[0] == 't');
    assert(("tool-name"@).len() == 9);
    assert(("tool-name"@)[0] == 't');
    assert(("tool-version"@).len() == 12);
    assert(("tool-version"@)[5] == 'v');
    assert(("tool-company"@).len() == 12);
    assert(("tool-company"@)[5] == 'c');
    assert("tool-id"@ != "tool-name"@);
    assert("tool-id"@ != "tool-version"@);
    assert("tool-name"@ != "tool-version"@);
    assert("tool-id"@ != "tool-company"@);
    assert("tool-name"@ != "tool-company"@);
    assert("tool-version"@ != "tool-company"@);
    let t0 = default_tool_view();
    let nil = Seq::<AttrView>::empty();
    let a0 = AttrView { key: "tool-id"@, value: t.id };
    let a1 = AttrView { key: "tool-name"@, value: t.name };
    let attrs = spec_tool_attrs(t);
    assert(spec_fold_tool_attrs(t0, nil) == t0);
    lemma_fold_tool_push(t0, nil, a0);
    assert(nil.push(a0) =~= seq![a0]);
    lemma_fold_tool_push(t0, seq![a0], a1);
    assert(seq![a0].push(a1) =~= seq![a0, a1]);
    match t.version {
        Option::Some(v) => {
            let a2 = AttrView { key: "tool-version"@, value: v };
            lemma_fold_tool_push(t0, seq![a0, a1], a2);
            assert(seq![a0, a1].push(a2) =~= seq![a0, a1, a2]);
            match t.company {
                Option::Some(c) => {
                    let a3 = AttrView { key: "tool-company"@, value: c };
                    lemma_fold_tool_push(t0, seq![a0, a1, a2], a3);
                    assert(seq![a0, a1, a2].push(a3) =~= seq![a0, a1, a2, a3]);
                    assert(attrs =~= seq![a0, a1, a2, a3]);
                    assert(spec_fold_tool_attrs(t0, attrs) =~~= t);
                }
                Option::None => {
                    assert(attrs =~= seq![a0, a1, a2]);
                    assert(spec_fold_tool_attrs(t0, attrs) =~~= t);
                }
            }
        }
        Option::None => {
            match t.company {
                Option::Some(c) => {
                    let a3 = AttrView { key: "tool-company"@, value: c };
                    lemma_fold_tool_push(t0, seq![a0, a1], a3);
                    assert(seq![a0, a1].push(a3) =~= seq![a0, a1, a3]);
                    assert(attrs =~= seq![a0, a1, a3]);
                    assert(spec_fold_tool_attrs(t0, attrs) =~~= t);
                }
                Option::None => {
                    assert(attrs =~= seq![a0, a1]);
                    assert(spec_fold_tool_attrs(t0, attrs) =~~= t);
                }
            }
        }
    }
}



/// Running a single event is one step.
proof fn lemma_run1(st: ParseState, e: ParseEventView)
    ensures
        spec_run(st, seq![e]) == spec_step(st, e),
{
    assert(spec_run(st, Seq::<ParseEventView>::empty()) == st);
    assert(seq![e].drop_last() =~= Seq::<ParseEventView>::empty());
    assert(seq![e].last() == e);
}

/// Running three events is three steps.
proof fn lemma_run3(st: ParseState, e1: ParseEventView, e2: ParseEventView, e3: ParseEventView)
    ensures
        spec_run(st, seq![e1, e2, e3]) == spec_step(
            spec_step(spec_step(st, e1), e2),
            e3,
        ),
{
    assert(spec_run(st, Seq::<ParseEventView>::empty()) == st);
    assert(seq![e1].drop_last() =~= Seq::<ParseEventView>::empty());
    assert(seq![e1].last() == e1);
    assert(spec_run(st, seq![e1]) == spec_step(st, e1));
    assert(seq![e1, e2].drop_last() =~= seq![e1]);
    assert(seq![e1, e2].last() == e2);
    assert(spec_run(st, seq![e1, e2]) == spec_step(spec_step(st, e1), e2));
    assert(seq![e1, e2, e3].drop_last() =~= seq![e1, e2]);
    assert(seq![e1, e2, e3].last() == e3);
}

/// Running four events is four steps.
proof fn lemma_run4(
    st: ParseState,
    e1: ParseEventView,
    e2: ParseEventView,
    e3: ParseEventView,
    e4: ParseEventView,
)
    ensures
        spec_run(st, seq![e1, e2, e3, e4]) == spec_step(
            spec_step(spec_step(spec_step(st, e1), e2), e3),
            e4,
        ),
{
    assert(seq![e1, e2, e3, e4].drop_last() =~= seq![e1, e2, e3]);
    assert(seq![e1, e2, e3, e4].last() == e4);
    lemma_run3(st, e1, e2, e3);
    assert(spec_run(st, seq![e1, e2, e3, e4]) == spec_step(spec_run(st, seq![e1, e2, e3]), e4));
}

/// The units of a group that the writer emits: those carrying a source
/// value, in order.
pub open spec fn source_bearing(us: Seq<UnitView>) -> Seq<UnitView>
    decreases us.len(),
{
    if us.len() == 0 {
        Seq::<UnitView>::empty()
    } else if us.last().source is Some {
        source_bearing(us.drop_last()).push(us.last())
    } else {
        source_bearing(us.drop_last())
    }
}

/// A group as the writer's output describes it: metadata and header kept,
/// only the source-bearing units emitted.
pub open spec fn emitted_image(g: FileView) -> FileView {
    FileView { units: source_bearing(g.units), ..g }
}

/// A store as the writer's output describes it, group for group.
pub open spec fn emitted_store(s: StoreView) -> StoreView {
    StoreView { groups: s.groups.map_values(|g: FileView| emitted_image(g)) }
}

/// A group every unit of which the writer can reproduce: normalized, and
/// every unit carries a source value.
pub open spec fn group_round_trip(g: FileView) -> bool {
    file_norm(g) && forall|j: int|
        0 <= j < g.units.len() ==> (#[trigger] g.units[j]).source is Some
}

/// A store the writer's output parses back to: every group satisfies
/// [`group_round_trip`].
pub open spec fn store_round_trip(s: StoreView) -> bool {
    forall|i: int| 0 <= i < s.groups.len() ==> group_round_trip(#[trigger] s.groups[i])
}

/// Assigning source text to the last unit of the last group, right after
/// that unit was appended, appends the amended unit instead.
proof fn lemma_set_source_pushed(s: StoreView, g: FileView, u: UnitView, text: Seq<char>)
    ensures
        spec_add_unit_source(
            spec_add_group(s, (FileView { units: g.units.push(u), ..g })),
            text,
        ) == spec_add_group(
            s,
            (FileView { units: g.units.push((UnitView { source: Option::Some(text), ..u })), ..g }),
        ),
{
    let g1 = FileView { units: g.units.push(u), ..g };
    let s1 = spec_add_group(s, g1);
    assert(s1.groups.last() == g1);
    assert(g1.units.last() == u);
    let u2 = UnitView { source: Option::Some(text), ..u };
    assert(g1.units.update(g1.units.len() - 1, u2) =~= g.units.push(u2));
    assert(spec_add_unit_source(s1, text) =~~= spec_add_group(
        s,
        (FileView { units: g.units.push(u2), ..g }),
    ));
}

/// Assigning target text to the last unit of the last group, right after
/// that unit was appended, appends the amended unit instead.
proof fn lemma_set_target_pushed(s: StoreView, g: FileView, u: UnitView, text: Seq<char>)
    ensures
        spec_add_unit_target(
            spec_add_group(s, (FileView { units: g.units.push(u), ..g })),
            text,
        ) == spec_add_group(
            s,
            (FileView { units: g.units.push((UnitView { target: Option::Some(text), ..u })), ..g }),
        ),
{
    let g1 = FileView { units: g.units.push(u), ..g };
    let s1 = spec_add_group(s, g1);
    assert(s1.groups.last() == g1);
    assert(g1.units.last() == u);
    let u2 = UnitView { target: Option::Some(text), ..u };
    assert(g1.units.update(g1.units.len() - 1, u2) =~= g.units.push(u2));
    assert(spec_add_unit_target(s1, text) =~~= spec_add_group(
        s,
        (FileView { units: g.units.push(u2), ..g }),
    ));
}

/// Assigning note text to the last unit of the last group, right after
/// that unit was appended, appends the amended unit instead.
proof fn lemma_set_note_pushed(s: StoreView, g: FileView, u: UnitView, text: Seq<char>)
    ensures
        spec_add_unit_note(
            spec_add_group(s, (FileView { units: g.units.push(u), ..g })),
            text,
        ) == spec_add_group(
            s,
            (FileView { units: g.units.push((UnitView { note: Option::Some(text), ..u })), ..g }),
        ),
{
    let g1 = FileView { units: g.units.push(u), ..g };
    let s1 = spec_add_group(s, g1);
    assert(s1.groups.last() == g1);
    assert(g1.units.last() == u);
    let u2 = UnitView { note: Option::Some(text), ..u };
    assert(g1.units.update(g1.units.len() - 1, u2) =~= g.units.push(u2));
    assert(spec_add_unit_note(s1, text) =~~= spec_add_group(
        s,
        (FileView { units: g.units.push(u2), ..g }),
    ));
}

/// Parsing the events the writer emits for one unit appends exactly that
/// unit to the freshly written group, and leaves the context stack as it
/// was.
proof fn lemma_run_unit(st: ParseState, s: StoreView, g: FileView, u: UnitView)
    requires
        st.store == spec_add_group(s, g),
        (u.source is Some),
        unit_norm(u),
    ensures
        spec_run(st, events_of_unit(u)) == (ParseState {
            store: spec_add_group(s, (FileView { units: g.units.push(u), ..g })),
            tags: st.tags,
        }),
{
    lemma_tag_literals();
    match u.source {
        Option::None => {}
        Option::Some(src) => {
            let shell = UnitView {
                id: u.id,
                translate: u.translate,
                source: Option::None,
                target: Option::None,
                source_locale: Option::None,
                target_locale: Option::None,
                note: Option::None,
            };
            lemma_fold_unit_attrs_of(u);
            let e_open = ParseEventView::Open { name: "trans-unit"@, attrs: spec_unit_attrs(u) };
            let e_src_open = ParseEventView::Open {
                name: "source"@,
                attrs: Seq::<AttrView>::empty(),
            };
            let e_src_text = ParseEventView::Chars { text: src };
            let e_src_close = ParseEventView::Close { name: "source"@ };
            let e_close = ParseEventView::Close { name: "trans-unit"@ };
            let part_a = seq![e_open, e_src_open, e_src_text, e_src_close];

            // Appending the shell and opening the source element.
            let st1 = spec_step(st, e_open);
            assert(spec_add_unit(st.store, shell) =~~= spec_add_group(
                s,
                (FileView { units: g.units.push(shell), ..g }),
            ));
            assert(st1.tags == st.tags.push(TagCtx::Unit));
            let st2 = spec_step(st1, e_src_open);
            assert(st2.tags == st.tags.push(TagCtx::Unit).push(TagCtx::Source));
            let st3 = spec_step(st2, e_src_text);
            assert(st2.tags.last() == TagCtx::Source);
            lemma_set_source_pushed(s, g, shell, src);
            let u_src = UnitView { source: Option::Some(src), ..shell };
            assert(st3.store == spec_add_group(s, (FileView { units: g.units.push(u_src), ..g })));
            let st4 = spec_step(st3, e_src_close);
            assert(st3.tags.last() == TagCtx::Source);
            assert(st3.tags.drop_last() =~= st.tags.push(TagCtx::Unit));
            assert(st4.tags == st.tags.push(TagCtx::Unit));
            lemma_run4(st, e_open, e_src_open, e_src_text, e_src_close);
            assert(spec_run(st, part_a) == st4);

            // The optional target element.
            let st5 = match u.target {
                Option::Some(t) => {
                    let e_t_open = ParseEventView::Open {
                        name: "target"@,
                        attrs: Seq::<AttrView>::empty(),
                    };
                    let e_t_text = ParseEventView::Chars { text: t };
                    let e_t_close = ParseEventView::Close { name: "target"@ };
                    let sta = spec_step(st4, e_t_open);
                    assert(sta.tags == st4.tags.push(TagCtx::Target));
                    let stb = spec_step(sta, e_t_text);
                    lemma_set_target_pushed(s, g, u_src, t);
                    let stc = spec_step(stb, e_t_close);
                    assert(stb.tags.last() == TagCtx::Target);
                    assert(stb.tags.drop_last() =~= st4.tags);
                    lemma_run3(st4, e_t_open, e_t_text, e_t_close);
                    stc
                }
                Option::None => st4,
            };
            let u_tgt = UnitView { target: u.target, ..u_src };
            assert(st5.store =~~= spec_add_group(s, (FileView { units: g.units.push(u_tgt), ..g })));
            assert(st5.tags == st.tags.push(TagCtx::Unit));

            // The optional note element.
            let st6 = match u.note {
                Option::Some(n) => {
                    let e_n_open = ParseEventView::Open {
                        name: "note"@,
                        attrs: Seq::<AttrView>::empty(),
                    };
                    let e_n_text = ParseEventView::Chars { text: n };
                    let e_n_close = ParseEventView::Close { name: "note"@ };
                    let sta = spec_step(st5, e_n_open);
                    assert(sta.tags == st5.tags.push(TagCtx::Note));
                    let stb = spec_step(sta, e_n_text);
                    assert(sta.tags.len() >= 2);
                    assert(sta.tags[sta.tags.len() - 2] == TagCtx::Unit);
                    lemma_set_note_pushed(s, g, u_tgt, n);
                    let stc = spec_step(stb, e_n_close);
                    assert(stb.tags.last() == TagCtx::Note);
                    assert(stb.tags.drop_last() =~= st5.tags);
                    lemma_run3(st5, e_n_open, e_n_text, e_n_close);
                    stc
                }
                Option::None => st5,
            };
            let u_note = UnitView { note: u.note, ..u_tgt };
            assert(st6.store =~~= spec_add_group(s, (FileView { units: g.units.push(u_note), ..g })));
            assert(st6.tags == st.tags.push(TagCtx::Unit));

            // Closing the unit element restores the stack.
            let st7 = spec_step(st6, e_close);
            assert(st6.tags.last() == TagCtx::Unit);
            assert(st6.tags.drop_last() =~= st.tags);
            assert(st7.tags =~= st.tags);
            assert(u_note =~~= u);

            // Composing the pieces.
            let part_b = match u.target {
                Option::Some(t) => seq![
                    ParseEventView::Open { name: "target"@, attrs: Seq::<AttrView>::empty() },
                    ParseEventView::Chars { text: t },
                    ParseEventView::Close { name: "target"@ },
                ],
                Option::None => Seq::<ParseEventView>::empty(),
            };
            let part_c = match u.note {
                Option::Some(n) => seq![
                    ParseEventView::Open { name: "note"@, attrs: Seq::<AttrView>::empty() },
                    ParseEventView::Chars { text: n },
                    ParseEventView::Close { name: "note"@ },
                ],
                Option::None => Seq::<ParseEventView>::empty(),
            };
            crate::store::lemma_run_app(st, part_a, part_b);
            if u.target is None {
                assert(part_a + part_b =~= part_a);
            }
            assert(spec_run(st, part_a + part_b) == st5);
            crate::store::lemma_run_app(st, part_a + part_b, part_c);
            if u.note is None {
                assert((part_a + part_b) + part_c =~= part_a + part_b);
            }
            assert(spec_run(st, (part_a + part_b) + part_c) == st6);
            crate::store::lemma_run_app(st, (part_a + part_b) + part_c, seq![e_close]);
            lemma_run1(st6, e_close);
            assert(events_of_unit(u) =~= ((part_a + part_b) + part_c) + seq![e_close]);
            assert(spec_run(st, events_of_unit(u)) == st7);
            assert(st7 =~~= (ParseState {
                store: spec_add_group(s, (FileView { units: g.units.push(u), ..g })),
                tags: st.tags,
            }));
        }
    }
}


/// Parsing the events the writer emits for one tool appends exactly that
/// tool to the freshly written group's header.
proof fn lemma_run_tool(st: ParseState, s: StoreView, g: FileView, h: HeaderView, t: ToolView)
    requires
        st.store == spec_add_group(s, g),
        g.header == Option::Some(h),
    ensures
        spec_run(st, events_of_tool(t)) == (ParseState {
            store: spec_add_group(
                s,
                (FileView { header: Option::Some((HeaderView { tools: h.tools.push(t), ..h })), ..g }),
            ),
            tags: st.tags,
        }),
{
    lemma_tag_literals();
    lemma_fold_tool_attrs_of(t);
    let e = ParseEventView::SelfClosed { name: "tool"@, attrs: spec_tool_attrs(t) };
    lemma_run1(st, e);
    assert(st.store.groups.last() == g);
    let st1 = spec_step(st, e);
    assert(st1.store =~~= spec_add_group(
        s,
        (FileView { header: Option::Some((HeaderView { tools: h.tools.push(t), ..h })), ..g }),
    ));
}

/// Parsing the events the writer emits for a sequence of tools appends
/// them all, in order.
proof fn lemma_run_tools(st: ParseState, s: StoreView, g: FileView, h: HeaderView, ts: Seq<ToolView>)
    requires
        st.store == spec_add_group(s, g),
        g.header == Option::Some(h),
    ensures
        spec_run(st, events_of_tools(ts)) == (ParseState {
            store: spec_add_group(
                s,
                (FileView { header: Option::Some((HeaderView { tools: h.tools + ts, ..h })), ..g }),
            ),
            tags: st.tags,
        }),
    decreases ts.len(),
{
    if ts.len() == 0 {
        assert(events_of_tools(ts) =~= Seq::<ParseEventView>::empty());
        assert(spec_run(st, Seq::<ParseEventView>::empty()) == st);
        assert(h.tools + ts =~= h.tools);
        assert((FileView { header: Option::Some((HeaderView { tools: h.tools + ts, ..h })), ..g })
            =~~= g);
    } else {
        let front = ts.drop_last();
        lemma_run_tools(st, s, g, h, front);
        let h1 = HeaderView { tools: h.tools + front, ..h };
        let g1 = FileView { header: Option::Some(h1), ..g };
        let st1 = spec_run(st, events_of_tools(front));
        lemma_run_tool(st1, s, g1, h1, ts.last());
        crate::store::lemma_run_app(st, events_of_tools(front), events_of_tool(ts.last()));
        assert(events_of_tools(ts) == events_of_tools(front) + events_of_tool(ts.last()));
        assert((h.tools + front).push(ts.last()) =~= h.tools + ts);
        assert((HeaderView { tools: (h.tools + front).push(ts.last()), ..h1 }) =~~= (HeaderView {
            tools: h.tools + ts,
            ..h
        }));
        assert((FileView {
            header: Option::Some((HeaderView { tools: (h.tools + front).push(ts.last()), ..h1 })),
            ..g1
        }) =~~= (FileView { header: Option::Some((HeaderView { tools: h.tools + ts, ..h })), ..g }));
    }
}

/// Parsing the events the writer emits for one header note, with the
/// header context still open, appends exactly that note.
proof fn lemma_run_note(st: ParseState, s: StoreView, g: FileView, h: HeaderView, n: Seq<char>)
    requires
        st.store == spec_add_group(s, g),
        g.header == Option::Some(h),
        st.tags.len() >= 1,
        st.tags.last() == TagCtx::Header,
    ensures
        spec_run(st, events_of_note(n)) == (ParseState {
            store: spec_add_group(
                s,
                (FileView { header: Option::Some((HeaderView { notes: h.notes.push(n), ..h })), ..g }),
            ),
            tags: st.tags,
        }),
{
    lemma_tag_literals();
    let e_open = ParseEventView::Open { name: "note"@, attrs: Seq::<AttrView>::empty() };
    let e_text = ParseEventView::Chars { text: n };
    let e_close = ParseEventView::Close { name: "note"@ };
    lemma_run3(st, e_open, e_text, e_close);
    let st1 = spec_step(st, e_open);
    assert(st1.tags == st.tags.push(TagCtx::Note));
    let st2 = spec_step(st1, e_text);
    assert(st1.tags.len() >= 2);
    assert(st1.tags[st1.tags.len() - 2] == TagCtx::Header);
    assert(st.store.groups.last() == g);
    assert(st2.store =~~= spec_add_group(
        s,
        (FileView { header: Option::Some((HeaderView { notes: h.notes.push(n), ..h })), ..g }),
    ));
    let st3 = spec_step(st2, e_close);
    assert(st2.tags.last() == TagCtx::Note);
    assert(st2.tags.drop_last() =~= st.tags);
    assert(events_of_note(n) == seq![e_open, e_text, e_close]);
}

/// Parsing the events the writer emits for a sequence of header notes
/// appends them all, in order.
proof fn lemma_run_notes(st: ParseState, s: StoreView, g: FileView, h: HeaderView, ns: Seq<Seq<char>>)
    requires
        st.store == spec_add_group(s, g),
        g.header == Option::Some(h),
        st.tags.len() >= 1,
        st.tags.last() == TagCtx::Header,
    ensures
        spec_run(st, events_of_notes(ns)) == (ParseState {
            store: spec_add_group(
                s,
                (FileView { header: Option::Some((HeaderView { notes: h.notes + ns, ..h })), ..g }),
            ),
            tags: st.tags,
        }),
    decreases ns.len(),
{
    if ns.len() == 0 {
        assert(events_of_notes(ns) =~= Seq::<ParseEventView>::empty());
        assert(spec_run(st, Seq::<ParseEventView>::empty()) == st);
        assert(h.notes + ns =~= h.notes);
        assert((FileView { header: Option::Some((HeaderView { notes: h.notes + ns, ..h })), ..g })
            =~~= g);
    } else {
        let front = ns.drop_last();
        lemma_run_notes(st, s, g, h, front);
        let h1 = HeaderView { notes: h.notes + front, ..h };
        let g1 = FileView { header: Option::Some(h1), ..g };
        let st1 = spec_run(st, events_of_notes(front));
        lemma_run_note(st1, s, g1, h1, ns.last());
        crate::store::lemma_run_app(st, events_of_notes(front), events_of_note(ns.last()));
        assert(events_of_notes(ns) == events_of_notes(front) + events_of_note(ns.last()));
        assert((h.notes + front).push(ns.last()) =~= h.notes + ns);
        assert((FileView {
            header: Option::Some((HeaderView { notes: (h.notes + front).push(ns.last()), ..h1 })),
            ..g1
        }) =~~= (FileView { header: Option::Some((HeaderView { notes: h.notes + ns, ..h })), ..g }));
    }
}

/// Parsing the events the writer emits for a header reproduces it on the
/// freshly written group.
proof fn lemma_run_header(st: ParseState, s: StoreView, g: FileView, ho: Option<HeaderView>)
    requires
        st.store == spec_add_group(s, g),
        (g.header is None),
    ensures
        spec_run(st, events_of_header(ho)) == (ParseState {
            store: spec_add_group(s, (FileView { header: ho, ..g })),
            tags: st.tags,
        }),
{
    lemma_tag_literals();
    match ho {
        Option::None => {
            assert(events_of_header(ho) =~= Seq::<ParseEventView>::empty());
            assert(spec_run(st, Seq::<ParseEventView>::empty()) == st);
            assert((FileView { header: ho, ..g }) =~~= g);
        }
        Option::Some(h) => {
            let e_open = ParseEventView::Open { name: "header"@, attrs: Seq::<AttrView>::empty() };
            let e_close = ParseEventView::Close { name: "header"@ };
            let h0 = HeaderView { tools: Seq::<ToolView>::empty(), notes: Seq::<Seq<char>>::empty() };
            let g0 = FileView { header: Option::Some(h0), ..g };

            lemma_run1(st, e_open);
            let st1 = spec_step(st, e_open);
            assert(st.store.groups.last() == g);
            assert(st1.store =~~= spec_add_group(s, g0));
            assert(st1.tags == st.tags.push(TagCtx::Header));

            lemma_run_tools(st1, s, g0, h0, h.tools);
            let st2 = spec_run(st1, events_of_tools(h.tools));
            let h1 = HeaderView { tools: h0.tools + h.tools, ..h0 };
            let g1 = FileView { header: Option::Some(h1), ..g0 };
            assert(h0.tools + h.tools =~= h.tools);

            lemma_run_notes(st2, s, g1, h1, h.notes);
            let st3 = spec_run(st2, events_of_notes(h.notes));
            let h2 = HeaderView { notes: h1.notes + h.notes, ..h1 };
            let g2 = FileView { header: Option::Some(h2), ..g1 };
            assert(h1.notes + h.notes =~= h.notes);
            assert(h2 =~~= h);
            assert(st3.tags == st.tags.push(TagCtx::Header));

            lemma_run1(st3, e_close);
            let st4 = spec_step(st3, e_close);
            assert(st3.tags.last() == TagCtx::Header);
            assert(st3.tags.drop_last() =~= st.tags);

            crate::store::lemma_run_app(st, seq![e_open], events_of_tools(h.tools));
            crate::store::lemma_run_app(
                st,
                seq![e_open] + events_of_tools(h.tools),
                events_of_notes(h.notes),
            );
            crate::store::lemma_run_app(
                st,
                (seq![e_open] + events_of_tools(h.tools)) + events_of_notes(h.notes),
                seq![e_close],
            );
            assert(events_of_header(ho) =~= ((seq![e_open] + events_of_tools(h.tools))
                + events_of_notes(h.notes)) + seq![e_close]);
            assert(spec_run(st, events_of_header(ho)) == st4);
            assert(st4.store =~~= spec_add_group(s, (FileView { header: ho, ..g })));
        }
    }
}

/// Parsing the events the writer emits for a sequence of units appends
/// exactly the source-bearing ones to the freshly written group, in
/// order; units without a source value are not emitted, so nothing of
/// them comes back.
proof fn lemma_run_units(st: ParseState, s: StoreView, g: FileView, us: Seq<UnitView>)
    requires
        st.store == spec_add_group(s, g),
        forall|j: int| 0 <= j < us.len() ==> unit_norm(#[trigger] us[j]),
    ensures
        spec_run(st, events_of_units(us)) == (ParseState {
            store: spec_add_group(s, (FileView { units: g.units + source_bearing(us), ..g })),
            tags: st.tags,
        }),
    decreases us.len(),
{
    if us.len() == 0 {
        assert(events_of_units(us) =~= Seq::<ParseEventView>::empty());
        assert(spec_run(st, Seq::<ParseEventView>::empty()) == st);
        assert(g.units + source_bearing(us) =~= g.units);
        assert((FileView { units: g.units + source_bearing(us), ..g }) =~~= g);
    } else {
        let front = us.drop_last();
        lemma_run_units(st, s, g, front);
        let g1 = FileView { units: g.units + source_bearing(front), ..g };
        let st1 = spec_run(st, events_of_units(front));
        crate::store::lemma_run_app(st, events_of_units(front), events_of_unit(us.last()));
        assert(events_of_units(us) == events_of_units(front) + events_of_unit(us.last()));
        if us.last().source is Some {
            lemma_run_unit(st1, s, g1, us.last());
            assert((g.units + source_bearing(front)).push(us.last()) =~= g.units + source_bearing(
                us,
            ));
            assert((FileView {
                units: (g.units + source_bearing(front)).push(us.last()),
                ..g1
            }) =~~= (FileView { units: g.units + source_bearing(us), ..g }));
        } else {
            assert(events_of_unit(us.last()) =~= Seq::<ParseEventView>::empty());
            assert(spec_run(st1, Seq::<ParseEventView>::empty()) == st1);
            assert(source_bearing(us) == source_bearing(front));
        }
    }
}

/// Parsing the events the writer emits for one group appends that group's
/// emitted image to the store - metadata and header intact, only the
/// source-bearing units - and leaves the context stack as it was.
proof fn lemma_run_group(st: ParseState, g: FileView)
    requires
        file_norm(g),
    ensures
        spec_run(st, events_of_group(g)) == (ParseState {
            store: spec_add_group(st.store, emitted_image(g)),
            tags: st.tags,
        }),
{
    lemma_tag_literals();
    lemma_fold_file_attrs_of(g);
    let s = st.store;
    let e_open = ParseEventView::Open { name: "file"@, attrs: spec_file_attrs(g) };
    let e_body_open = ParseEventView::Open { name: "body"@, attrs: Seq::<AttrView>::empty() };
    let e_body_close = ParseEventView::Close { name: "body"@ };
    let e_close = ParseEventView::Close { name: "file"@ };
    let shell = FileView {
        address: g.address,
        source_locale: g.source_locale,
        target_locale: g.target_locale,
        units: Seq::<UnitView>::empty(),
        data_type: Seq::<char>::empty(),
        header: Option::None,
    };

    lemma_run1(st, e_open);
    let st1 = spec_step(st, e_open);
    assert(st1.store == spec_add_group(s, shell));
    assert(st1.tags == st.tags.push(TagCtx::File));

    lemma_run_header(st1, s, shell, g.header);
    let st2 = spec_run(st1, events_of_header(g.header));
    let g1 = FileView { header: g.header, ..shell };
    assert(st2.tags == st.tags.push(TagCtx::File));

    lemma_run1(st2, e_body_open);
    let st3 = spec_step(st2, e_body_open);
    assert(st3.store == st2.store);
    assert(st3.tags == st2.tags.push(TagCtx::Body));

    lemma_run_units(st3, s, g1, g.units);
    let st4 = spec_run(st3, events_of_units(g.units));
    let g2 = FileView { units: g1.units + source_bearing(g.units), ..g1 };
    assert(g1.units + source_bearing(g.units) =~= source_bearing(g.units));
    assert(st4.tags == st3.tags);

    lemma_run1(st4, e_body_close);
    let st5 = spec_step(st4, e_body_close);
    assert(st4.tags.last() == TagCtx::Body);
    assert(st4.tags.drop_last() =~= st.tags.push(TagCtx::File));
    assert(st5.tags == st.tags.push(TagCtx::File));

    lemma_run1(st5, e_close);
    let st6 = spec_step(st5, e_close);
    assert(st5.tags.last() == TagCtx::File);
    assert(st5.tags.drop_last() =~= st.tags);
    assert(st6.tags =~= st.tags);
    assert(g2 =~~= emitted_image(g));

    crate::store::lemma_run_app(st, seq![e_open], events_of_header(g.header));
    crate::store::lemma_run_app(st, seq![e_open] + events_of_header(g.header), seq![e_body_open]);
    crate::store::lemma_run_app(
        st,
        (seq![e_open] + events_of_header(g.header)) + seq![e_body_open],
        events_of_units(g.units),
    );
    crate::store::lemma_run_app(
        st,
        ((seq![e_open] + events_of_header(g.header)) + seq![e_body_open]) + events_of_units(
            g.units,
        ),
        seq![e_body_close, e_close],
    );
    assert(seq![e_body_close, e_close].drop_last() =~= seq![e_body_close]);
    lemma_run1(st4, e_body_close);
    assert(spec_run(st4, seq![e_body_close]) == st5);
    assert(seq![e_body_close, e_close].last() == e_close);
    assert(spec_run(st4, seq![e_body_close, e_close]) == st6);
    assert(events_of_group(g) =~= (((seq![e_open] + events_of_header(g.header)) + seq![
        e_body_open,
    ]) + events_of_units(g.units)) + seq![e_body_close, e_close]);
    assert(spec_run(st, events_of_group(g)) == st6);
}

/// Parsing the events the writer emits for a sequence of groups appends
/// their emitted images, in store order.
proof fn lemma_run_groups(st: ParseState, gs: Seq<FileView>)
    requires
        forall|i: int| 0 <= i < gs.len() ==> file_norm(#[trigger] gs[i]),
    ensures
        spec_run(st, events_of_groups(gs)) == (ParseState {
            store: (StoreView {
                groups: st.store.groups + gs.map_values(|g: FileView| emitted_image(g)),
            }),
            tags: st.tags,
        }),
    decreases gs.len(),
{
    let images = gs.map_values(|g: FileView| emitted_image(g));
    if gs.len() == 0 {
        assert(events_of_groups(gs) =~= Seq::<ParseEventView>::empty());
        assert(spec_run(st, Seq::<ParseEventView>::empty()) == st);
        assert(st.store.groups + images =~= st.store.groups);
        assert((StoreView { groups: st.store.groups + images }) =~~= st.store);
    } else {
        let front = gs.drop_last();
        let front_images = front.map_values(|g: FileView| emitted_image(g));
        assert(forall|i: int| 0 <= i < front.len() ==> file_norm(#[trigger] front[i]));
        lemma_run_groups(st, front);
        let st1 = spec_run(st, events_of_groups(front));
        lemma_run_group(st1, gs.last());
        crate::store::lemma_run_app(st, events_of_groups(front), events_of_group(gs.last()));
        assert(events_of_groups(gs) == events_of_groups(front) + events_of_group(gs.last()));
        assert((st.store.groups + front_images).push(emitted_image(gs.last())) =~= st.store.groups
            + images);
    }
}

/// Round trip up to source gating: for any normalized store, parsing the
/// event stream the writer emits reproduces every group with its address,
/// locales, data type and header intact, holding exactly its
/// source-bearing units in order, with an empty context stack at the end.
/// Units without a source value are deliberately not emitted, so they are
/// all that can be lost.
pub proof fn lemma_round_trip_groups(s: StoreView)
    requires
        crate::store::store_norm(s),
    ensures
        spec_run(initial_state(), seq![decl_event()] + events_of_store(s)) == (ParseState {
            store: emitted_store(s),
            tags: Seq::<TagCtx>::empty(),
        }),
{
    lemma_tag_literals();
    let st0 = initial_state();
    let e_decl = decl_event();
    let e_open = ParseEventView::Open { name: "xliff"@, attrs: root_attrs() };
    let e_close = ParseEventView::Close { name: "xliff"@ };

    lemma_run1(st0, e_decl);
    let st1 = spec_step(st0, e_decl);
    assert(st1 == st0);

    lemma_run1(st1, e_open);
    let st2 = spec_step(st1, e_open);
    assert(st2 == st1);

    lemma_run_groups(st2, s.groups);
    let st3 = spec_run(st2, events_of_groups(s.groups));
    let images = s.groups.map_values(|g: FileView| emitted_image(g));
    assert(st2.store.groups + images =~= images);
    assert(st3.store =~~= emitted_store(s));

    lemma_run1(st3, e_close);
    let st4 = spec_step(st3, e_close);
    assert(st4 == st3);

    crate::store::lemma_run_app(st0, seq![e_decl], seq![e_open]);
    lemma_run1(st1, e_open);
    crate::store::lemma_run_app(st0, seq![e_decl] + seq![e_open], events_of_groups(s.groups));
    crate::store::lemma_run_app(
        st0,
        (seq![e_decl] + seq![e_open]) + events_of_groups(s.groups),
        seq![e_close],
    );
    assert(seq![e_decl] + events_of_store(s) =~= ((seq![e_decl] + seq![e_open])
        + events_of_groups(s.groups)) + seq![e_close]);
    assert(spec_run(st0, seq![e_decl] + events_of_store(s)) == st4);
    assert(st4 =~~= (ParseState { store: emitted_store(s), tags: Seq::<TagCtx>::empty() }));
}

/// When every unit carries a source value, the writer emits them all.
proof fn lemma_source_bearing_complete(us: Seq<UnitView>)
    requires
        forall|j: int| 0 <= j < us.len() ==> ((#[trigger] us[j]).source is Some),
    ensures
        source_bearing(us) == us,
    decreases us.len(),
{
    if us.len() > 0 {
        assert(forall|j: int|
            0 <= j < us.drop_last().len() ==> ((#[trigger] us.drop_last()[j]).source is Some));
        lemma_source_bearing_complete(us.drop_last());
        assert(us.drop_last().push(us.last()) =~= us);
    }
}

/// Round trip: parsing the event stream the writer emits for a store
/// reproduces that store exactly, group for group and unit for unit, with
/// an empty context stack at the end.  The store must be one the writer
/// can reproduce: normalized (as every store the parser builds is), with
/// a source value on every unit, since units without one are deliberately
/// not emitted.
pub proof fn lemma_round_trip(s: StoreView)
    requires
        store_round_trip(s),
    ensures
        spec_run(initial_state(), seq![decl_event()] + events_of_store(s)) == (ParseState {
            store: s,
            tags: Seq::<TagCtx>::empty(),
        }),
{
    assert(crate::store::store_norm(s));
    lemma_round_trip_groups(s);
    assert forall|i: int| 0 <= i < s.groups.len() implies emitted_image(#[trigger] s.groups[i])
        == s.groups[i] by {
        lemma_source_bearing_complete(s.groups[i].units);
        assert(emitted_image(s.groups[i]) =~~= s.groups[i]);
    }
    assert(emitted_store(s) =~~= s);
}

/// A store the parser builds from an empty one is normalized, whatever
/// events arrived.
pub proof fn lemma_parser_output_norm(evs: Seq<ParseEventView>)
    ensures
        crate::store::store_norm(spec_run(initial_state(), evs).store),
{
    crate::store::lemma_run_norm(initial_state(), evs);
}

/// A normalized store round trips as soon as every unit carries a source
/// value: together with [`lemma_parser_output_norm`], any store the parser
/// built whose units all have sources is reproduced by writing and
/// re-parsing it.
pub proof fn lemma_norm_with_sources_round_trips(s: StoreView)
    requires
        crate::store::store_norm(s),
        forall|i: int, j: int|
            0 <= i < s.groups.len() && 0 <= j < s.groups[i].units.len() ==> ((#[trigger] s.groups[
                i
            ].units[j]).source is Some),
    ensures
        store_round_trip(s),
{
}

/// Note disambiguation: text arriving in a note context attaches to the
/// enclosing unit when the second-from-top open context is a unit, to the
/// header when it is the header, and to nothing in every other situation.
pub proof fn lemma_note_disambiguation(st: ParseState, text: Seq<char>)
    requires
        st.tags.len() >= 1,
        st.tags.last() == TagCtx::Note,
    ensures
        st.tags.len() >= 2 && st.tags[st.tags.len() - 2] == TagCtx::Unit ==> spec_step(
            st,
            (ParseEventView::Chars { text }),
        ).store == spec_add_unit_note(st.store, text),
        st.tags.len() >= 2 && st.tags[st.tags.len() - 2] == TagCtx::Header ==> spec_step(
            st,
            (ParseEventView::Chars { text }),
        ).store == spec_add_header_note(st.store, text),
        st.tags.len() >= 2 && st.tags[st.tags.len() - 2] != TagCtx::Unit && st.tags[st.tags.len()
            - 2] != TagCtx::Header ==> spec_step(st, (ParseEventView::Chars { text })).store
            == st.store,
        st.tags.len() == 1 ==> spec_step(st, (ParseEventView::Chars { text })).store == st.store,
{
}

/// Default translate flag: a unit element without a `translate` attribute
/// is to be translated; with one, the flag is off exactly when the last
/// occurrence's value is the literal false representation, so any other
/// textual value leaves the unit translatable.
pub proof fn lemma_translate_flag(attrs: Seq<AttrView>, v: Seq<char>)
    ensures
        (forall|i: int| 0 <= i < attrs.len() ==> (#[trigger] attrs[i]).key != "translate"@)
            ==> spec_fold_unit_attrs(default_unit_view(), attrs).translate,
        spec_fold_unit_attrs(
            default_unit_view(),
            attrs.push((AttrView { key: "translate"@, value: v })),
        ).translate == (v != "false"@),
    decreases attrs.len(),
{
    reveal_strlit("id");
    reveal_strlit("translate");
    assert(("id"@).len() == 2);
    assert(("translate"@).len() == 9);
    assert("translate"@ != "id"@);
    if attrs.len() == 0 {
        assert(spec_fold_unit_attrs(default_unit_view(), attrs) == default_unit_view());
    } else {
        lemma_translate_flag(attrs.drop_last(), v);
        if forall|i: int| 0 <= i < attrs.len() ==> (#[trigger] attrs[i]).key != "translate"@ {
            assert(forall|i: int|
                0 <= i < attrs.drop_last().len() ==> (#[trigger] attrs.drop_last()[i]).key
                    != "translate"@);
            assert(attrs.last().key != "translate"@);
        }
    }
    lemma_fold_unit_push(
        default_unit_view(),
        attrs,
        AttrView { key: "translate"@, value: v },
    );
}

/// Source-gated emission: a unit without a source value is omitted
/// entirely from the writer's output, even if it has a target or a note.
pub proof fn lemma_source_gated_emission(u: UnitView)
    requires
        u.source is None,
    ensures
        events_of_unit(u) == Seq::<ParseEventView>::empty(),
{
}

} // verus!
