//! The document model: a [`Store`] of translation file groups, each holding
//! translation units, and the tag-context state machine that the parser
//! drives while folding a flat stream of markup events into that model.

use vstd::prelude::*;

verus! {

/// The content of a translation unit field or of a note.
#[derive(Clone)]
pub struct UnitValue {
    /// Plain text value of the node.
    pub text: String,
}

impl View for UnitValue {
    type V = Seq<char>;

    open spec fn view(&self) -> Seq<char> {
        self.text@
    }
}

/// Mathematical image of a [`Unit`].
#[verifier::ext_equal]
pub struct UnitView {
    /// Identifier of the unit.
    pub id: Seq<char>,
    /// Whether the unit is to be translated.
    pub translate: bool,
    /// Source text, if any was seen.
    pub source: Option<Seq<char>>,
    /// Target text, if any was seen.
    pub target: Option<Seq<char>>,
    /// Per-unit source locale override.
    pub source_locale: Option<Seq<char>>,
    /// Per-unit target locale override.
    pub target_locale: Option<Seq<char>>,
    /// Free-form note attached to the unit.
    pub note: Option<Seq<char>>,
}

/// A unit of translatable data: one `<trans-unit>` element with its
/// `<source>`, `<target>` and `<note>` children.
pub struct Unit {
    /// Identifier, unique within the owning file group by producer contract.
    pub id: String,
    /// Whether the unit is to be translated; `true` unless the element
    /// carried `translate="false"`.
    pub translate: bool,
    /// Source text.
    pub source: Option<UnitValue>,
    /// Target text: the translation of the sibling source.
    pub target: Option<UnitValue>,
    /// Per-unit source locale override; usually inherited from the group.
    pub source_locale: Option<Locale>,
    /// Per-unit target locale override; usually inherited from the group.
    pub target_locale: Option<Locale>,
    /// Localization-related comment attached to the unit.
    pub note: Option<UnitValue>,
}

impl View for Unit {
    type V = UnitView;

    open spec fn view(&self) -> UnitView {
        UnitView {
            id: self.id@,
            translate: self.translate,
            source: match self.source {
                Option::Some(v) => Option::Some(v@),
                Option::None => Option::None,
            },
            target: match self.target {
                Option::Some(v) => Option::Some(v@),
                Option::None => Option::None,
            },
            source_locale: match self.source_locale {
                Option::Some(l) => Option::Some(l@),
                Option::None => Option::None,
            },
            target_locale: match self.target_locale {
                Option::Some(l) => Option::Some(l@),
                Option::None => Option::None,
            },
            note: match self.note {
                Option::Some(v) => Option::Some(v@),
                Option::None => Option::None,
            },
        }
    }
}

impl Unit {
    /// New translation unit instance with all fields at their defaults.
    pub fn new() -> (u: Unit)
        ensures
            u@ == (UnitView {
                id: Seq::<char>::empty(),
                translate: true,
                source: Option::None,
                target: Option::None,
                source_locale: Option::None,
                target_locale: Option::None,
                note: Option::None,
            }),
    {
        Unit {
            id: String::new(),
            translate: true,
            source: Option::None,
            target: Option::None,
            source_locale: Option::None,
            target_locale: Option::None,
            note: Option::None,
        }
    }

    /// Reference to the source text of this unit, if any.
    pub fn source_text(&self) -> (r: Option<&String>)
        ensures
            match r {
                Option::Some(t) => self@.source == Option::Some(t@),
                Option::None => (self@.source is None),
            },
    {
        match self.source.as_ref() {
            Option::None => Option::None,
            Option::Some(t) => Option::Some(&t.text),
        }
    }

    /// Reference to the target text of this unit, if any.
    pub fn target_text(&self) -> (r: Option<&String>)
        ensures
            match r {
                Option::Some(t) => self@.target == Option::Some(t@),
                Option::None => (self@.target is None),
            },
    {
        match self.target.as_ref() {
            Option::None => Option::None,
            Option::Some(t) => Option::Some(&t.text),
        }
    }
}

/// Language definition: a language tag, stored lower-cased because the
/// format treats language tags case-insensitively.  Language tags are
/// ASCII under the RFC the format refers to, so lower-casing is the ASCII
/// mapping: a character outside ASCII passes through unchanged.
pub struct Locale {
    /// A lower-cased language code.
    pub identifier: String,
}

impl View for Locale {
    type V = Seq<char>;

    open spec fn view(&self) -> Seq<char> {
        self.identifier@
    }
}

impl PartialEq for Locale {
    /// Two locales are equal when their identifiers hold the same text.
    fn eq(&self, other: &Locale) -> (r: bool) {
        self.identifier == other.identifier
    }
}

impl vstd::std_specs::cmp::PartialEqSpecImpl for Locale {
    open spec fn obeys_eq_spec() -> bool {
        true
    }

    open spec fn eq_spec(&self, other: &Locale) -> bool {
        self.identifier@ == other.identifier@
    }
}


/// ASCII lower-casing of one character: `'A'` through `'Z'` map to
/// `'a'` through `'z'`; every other character is unchanged.
pub open spec fn lower_char(c: char) -> char {
    if 65 <= c as u32 && c as u32 <= 90 {
        ((c as u32 + 32) as u32) as char
    } else {
        c
    }
}

/// ASCII lower-casing of a character sequence.
pub open spec fn lower_seq(s: Seq<char>) -> Seq<char> {
    s.map_values(|c: char| lower_char(c))
}

/// Lower-casing leaves an already lower-cased sequence unchanged.
pub proof fn lemma_lower_seq_idempotent(s: Seq<char>)
    ensures
        lower_seq(lower_seq(s)) == lower_seq(s),
{
    assert forall|i: int| 0 <= i < s.len() implies lower_char(lower_char(s[i])) == lower_char(
        s[i],
    ) by {
        let c = s[i];
        if 65 <= c as u32 && c as u32 <= 90 {
            assert((((c as u32 + 32) as u32) as char) as u32 == c as u32 + 32);
        }
    }
    assert(lower_seq(lower_seq(s)) =~= lower_seq(s));
}

/// Relies on str::to_ascii_lowercase: ASCII letters `'A'` through `'Z'` are
/// mapped to their lower-case counterparts and all other characters are
/// returned unchanged.
#[verifier::external_body]
fn ascii_lower(s: &str) -> (r: String)
    ensures
        r@ == lower_seq(s@),
{
    s.to_ascii_lowercase()
}

impl Locale {
    /// New locale with the identifier stored lower-cased, since the format
    /// compares language tags case-insensitively.  Lower-casing is the
    /// ASCII mapping of [`lower_seq`]: language tags are ASCII, and a
    /// character outside ASCII passes through unchanged.
    pub fn new(identifier: String) -> (l: Locale)
        ensures
            l@ == lower_seq(identifier@),
    {
        Locale { identifier: ascii_lower(identifier.as_str()) }
    }
}

/// Mathematical image of a [`Tool`].
#[verifier::ext_equal]
pub struct ToolView {
    /// Tool identifier.
    pub id: Seq<char>,
    /// Tool name.
    pub name: Seq<char>,
    /// Tool version, if given.
    pub version: Option<Seq<char>>,
    /// Tool company, if given.
    pub company: Option<Seq<char>>,
}

/// Tool - describes the tool that has been used to process the document.
pub struct Tool {
    /// Unique identification of the tool.
    pub id: String,
    /// Name of the tool.
    pub name: String,
    /// Version of the tool.
    pub version: Option<String>,
    /// Company the tool originates from.
    pub company: Option<String>,
}

impl View for Tool {
    type V = ToolView;

    open spec fn view(&self) -> ToolView {
        ToolView {
            id: self.id@,
            name: self.name@,
            version: match self.version {
                Option::Some(v) => Option::Some(v@),
                Option::None => Option::None,
            },
            company: match self.company {
                Option::Some(v) => Option::Some(v@),
                Option::None => Option::None,
            },
        }
    }
}

impl Tool {
    /// New tool description from the two required attributes.
    pub fn new(id: String, name: String) -> (t: Tool)
        ensures
            t@ == (ToolView {
                id: id@,
                name: name@,
                version: Option::None,
                company: Option::None,
            }),
    {
        Tool { id, name, version: Option::None, company: Option::None }
    }
}

/// Mathematical image of a [`Header`].
#[verifier::ext_equal]
pub struct HeaderView {
    /// Tools, in document order.
    pub tools: Seq<ToolView>,
    /// Header-level notes, in document order.
    pub notes: Seq<Seq<char>>,
}

/// File header - metadata relating to the owning `<file>` element.
pub struct Header {
    /// Tools used within this document.
    pub tools: Vec<Tool>,
    /// Localization-related comments on the whole file group.
    pub notes: Vec<UnitValue>,
}

impl View for Header {
    type V = HeaderView;

    open spec fn view(&self) -> HeaderView {
        HeaderView {
            tools: self.tools@.map_values(|t: Tool| t@),
            notes: self.notes@.map_values(|n: UnitValue| n@),
        }
    }
}

impl Header {
    /// Returns an empty header instance.
    pub fn new() -> (h: Header)
        ensures
            h@ == (HeaderView { tools: Seq::<ToolView>::empty(), notes: Seq::<Seq<char>>::empty() }),
    {
        let h = Header { tools: Vec::new(), notes: Vec::new() };
        assert(h@.tools =~= Seq::<ToolView>::empty());
        assert(h@.notes =~= Seq::<Seq<char>>::empty());
        h
    }
}

/// Mathematical image of a [`TranslationFile`].
#[verifier::ext_equal]
pub struct FileView {
    /// Name of the original document the group was extracted from.
    pub address: Seq<char>,
    /// Source language of the group.
    pub source_locale: Option<Seq<char>>,
    /// Target language of the group.
    pub target_locale: Option<Seq<char>>,
    /// Units, in document order.
    pub units: Seq<UnitView>,
    /// Kind of text contained in the group.
    pub data_type: Seq<char>,
    /// Header metadata, if a header element was seen.
    pub header: Option<HeaderView>,
}

/// File - one `<file>` group, corresponding to a single extracted original
/// document.
pub struct TranslationFile {
    /// Name of the original file the contents were extracted from.
    pub address: String,
    /// Language of the `<source>` elements in this group.
    pub source_locale: Option<Locale>,
    /// Language of the `<target>` elements in this group.
    pub target_locale: Option<Locale>,
    /// Translation units of this group, in document order.
    pub units: Vec<Unit>,
    /// Kind of text contained in the group.
    pub data_type: String,
    /// File header metadata, if any was seen.
    pub header: Option<Header>,
}

impl View for TranslationFile {
    type V = FileView;

    open spec fn view(&self) -> FileView {
        FileView {
            address: self.address@,
            source_locale: match self.source_locale {
                Option::Some(l) => Option::Some(l@),
                Option::None => Option::None,
            },
            target_locale: match self.target_locale {
                Option::Some(l) => Option::Some(l@),
                Option::None => Option::None,
            },
            units: self.units@.map_values(|u: Unit| u@),
            data_type: self.data_type@,
            header: match self.header {
                Option::Some(h) => Option::Some(h@),
                Option::None => Option::None,
            },
        }
    }
}

/// The [`FileView`] a freshly created group starts from.
pub open spec fn empty_file_view(address: Seq<char>) -> FileView {
    FileView {
        address: address,
        source_locale: Option::None,
        target_locale: Option::None,
        units: Seq::<UnitView>::empty(),
        data_type: Seq::<char>::empty(),
        header: Option::None,
    }
}

impl TranslationFile {
    /// New file group with the given address and no other metadata.
    pub fn new(address: &str) -> (f: TranslationFile)
        ensures
            f@ == empty_file_view(address@),
    {
        let f = TranslationFile {
            address: address.to_owned(),
            source_locale: Option::None,
            target_locale: Option::None,
            units: Vec::new(),
            data_type: String::new(),
            header: Option::None,
        };
        assert(f@.units =~= Seq::<UnitView>::empty());
        assert(f@ =~= empty_file_view(address@));
        f
    }
}

/// Mathematical image of a [`Store`].
#[verifier::ext_equal]
pub struct StoreView {
    /// File groups, in document order.
    pub groups: Seq<FileView>,
}

/// The root of the model: an ordered collection of file groups, populated
/// by parsing and walked by the writer.
pub struct Store {
    /// File groups, in document order.
    pub groups: Vec<TranslationFile>,
}

impl View for Store {
    type V = StoreView;

    open spec fn view(&self) -> StoreView {
        StoreView { groups: self.groups@.map_values(|g: TranslationFile| g@) }
    }
}

impl Store {
    /// Returns an empty translation store instance.
    pub fn new() -> (s: Store)
        ensures
            s@ == (StoreView { groups: Seq::<FileView>::empty() }),
    {
        let s = Store { groups: Vec::new() };
        assert(s@.groups =~= Seq::<FileView>::empty());
        s
    }
}


/// The recognized structural element in which the current operation is
/// taking place.  Unrecognized element names are transparent: they are
/// neither pushed on the context stack nor dispatched.
#[derive(PartialEq, Eq, Structural, Clone, Copy)]
pub enum TagCtx {
    /// A `<file>` group element.
    File,
    /// A `<header>` element.
    Header,
    /// A `<tool>` element.
    Tool,
    /// A `<body>` element.
    Body,
    /// A `<source>` element.
    Source,
    /// A `<target>` element.
    Target,
    /// A `<note>` element.
    Note,
    /// A `<trans-unit>` element.
    Unit,
}

/// The tag context a recognized element name maps to, if any.
pub open spec fn spec_tag_of(name: Seq<char>) -> Option<TagCtx> {
    if name == "file"@ {
        Option::Some(TagCtx::File)
    } else if name == "header"@ {
        Option::Some(TagCtx::Header)
    } else if name == "tool"@ {
        Option::Some(TagCtx::Tool)
    } else if name == "body"@ {
        Option::Some(TagCtx::Body)
    } else if name == "source"@ {
        Option::Some(TagCtx::Source)
    } else if name == "target"@ {
        Option::Some(TagCtx::Target)
    } else if name == "note"@ {
        Option::Some(TagCtx::Note)
    } else if name == "trans-unit"@ {
        Option::Some(TagCtx::Unit)
    } else {
        Option::None
    }
}

impl TagCtx {
    /// The tag context for a recognized element name, `None` otherwise.
    pub fn from(name: &str) -> (r: Option<TagCtx>)
        ensures
            r == spec_tag_of(name@),
    {
        let n = name.to_owned();
        if n == "file".to_owned() {
            Option::Some(TagCtx::File)
        } else if n == "header".to_owned() {
            Option::Some(TagCtx::Header)
        } else if n == "tool".to_owned() {
            Option::Some(TagCtx::Tool)
        } else if n == "body".to_owned() {
            Option::Some(TagCtx::Body)
        } else if n == "source".to_owned() {
            Option::Some(TagCtx::Source)
        } else if n == "target".to_owned() {
            Option::Some(TagCtx::Target)
        } else if n == "note".to_owned() {
            Option::Some(TagCtx::Note)
        } else if n == "trans-unit".to_owned() {
            Option::Some(TagCtx::Unit)
        } else {
            Option::None
        }
    }
}

/// Mathematical image of an [`Attr`].
#[verifier::ext_equal]
pub struct AttrView {
    /// Attribute name.
    pub key: Seq<char>,
    /// Attribute value, with entities already resolved.
    pub value: Seq<char>,
}

/// One attribute of a markup element.
pub struct Attr {
    /// Attribute name.
    pub key: String,
    /// Attribute value, with entities already resolved.
    pub value: String,
}

impl View for Attr {
    type V = AttrView;

    open spec fn view(&self) -> AttrView {
        AttrView { key: self.key@, value: self.value@ }
    }
}

/// The image of a sequence of attributes.
pub open spec fn attrs_view(s: Seq<Attr>) -> Seq<AttrView> {
    s.map_values(|a: Attr| a@)
}

/// One markup event, reduced to plain values, as the parser consumes it.
pub enum ParseEvent {
    /// An opening element with its attributes.
    Open {
        /// Element name.
        name: String,
        /// Attributes, in document order.
        attrs: Vec<Attr>,
    },
    /// A self-closing element with its attributes.
    SelfClosed {
        /// Element name.
        name: String,
        /// Attributes, in document order.
        attrs: Vec<Attr>,
    },
    /// A closing element.
    Close {
        /// Element name.
        name: String,
    },
    /// Text content, with entities already resolved.
    Chars {
        /// The text.
        text: String,
    },
}

/// Mathematical image of a markup event.  The writer additionally records
/// the leading document declaration, which the parser ignores.
#[verifier::ext_equal]
pub enum ParseEventView {
    /// An opening element with its attributes.
    Open {
        /// Element name.
        name: Seq<char>,
        /// Attributes, in document order.
        attrs: Seq<AttrView>,
    },
    /// A self-closing element with its attributes.
    SelfClosed {
        /// Element name.
        name: Seq<char>,
        /// Attributes, in document order.
        attrs: Seq<AttrView>,
    },
    /// A closing element.
    Close {
        /// Element name.
        name: Seq<char>,
    },
    /// Text content.
    Chars {
        /// The text.
        text: Seq<char>,
    },
    /// The document declaration.
    Decl {
        /// Format version.
        version: Seq<char>,
        /// Document encoding.
        encoding: Seq<char>,
    },
}

impl View for ParseEvent {
    type V = ParseEventView;

    open spec fn view(&self) -> ParseEventView {
        match self {
            ParseEvent::Open { name, attrs } => ParseEventView::Open {
                name: name@,
                attrs: attrs_view(attrs@),
            },
            ParseEvent::SelfClosed { name, attrs } => ParseEventView::SelfClosed {
                name: name@,
                attrs: attrs_view(attrs@),
            },
            ParseEvent::Close { name } => ParseEventView::Close { name: name@ },
            ParseEvent::Chars { text } => ParseEventView::Chars { text: text@ },
        }
    }
}

/// The state of a parse in progress: the store built so far and the stack
/// of currently open recognized elements.
#[verifier::ext_equal]
pub struct ParseState {
    /// The store built so far.
    pub store: StoreView,
    /// Open recognized elements, outermost first.
    pub tags: Seq<TagCtx>,
}

/// The state a parse of a fresh document starts from.
pub open spec fn initial_state() -> ParseState {
    ParseState { store: StoreView { groups: Seq::<FileView>::empty() }, tags: Seq::<TagCtx>::empty() }
}

/// The stack after a closing occurrence of `t`: entries are popped until an
/// entry equal to `t` is removed, or the stack is exhausted.  This
/// resynchronizes on malformed input instead of failing.
pub open spec fn spec_pop_matching(tags: Seq<TagCtx>, t: TagCtx) -> Seq<TagCtx>
    decreases tags.len(),
{
    if tags.len() == 0 {
        tags
    } else if tags.last() == t {
        tags.drop_last()
    } else {
        spec_pop_matching(tags.drop_last(), t)
    }
}

/// One `<file>` attribute applied to the group under construction: later
/// occurrences of the same attribute win; locale values are lower-cased;
/// unrecognized attributes are ignored.
pub open spec fn spec_apply_file_attr(f: FileView, a: AttrView) -> FileView {
    if a.key == "original"@ {
        FileView { address: a.value, ..f }
    } else if a.key == "source-language"@ {
        FileView { source_locale: Option::Some(lower_seq(a.value)), ..f }
    } else if a.key == "target-language"@ {
        FileView { target_locale: Option::Some(lower_seq(a.value)), ..f }
    } else {
        f
    }
}

/// The `<file>` attributes folded over the group under construction, in
/// document order.
pub open spec fn spec_fold_file_attrs(f: FileView, attrs: Seq<AttrView>) -> FileView
    decreases attrs.len(),
{
    if attrs.len() == 0 {
        f
    } else {
        spec_apply_file_attr(spec_fold_file_attrs(f, attrs.drop_last()), attrs.last())
    }
}

/// The [`UnitView`] a freshly created unit starts from.
pub open spec fn default_unit_view() -> UnitView {
    UnitView {
        id: Seq::<char>::empty(),
        translate: true,
        source: Option::None,
        target: Option::None,
        source_locale: Option::None,
        target_locale: Option::None,
        note: Option::None,
    }
}

/// One `<trans-unit>` attribute applied to the unit under construction.
/// The unit is to be translated unless the attribute value is exactly the
/// literal false representation.
pub open spec fn spec_apply_unit_attr(u: UnitView, a: AttrView) -> UnitView {
    if a.key == "id"@ {
        UnitView { id: a.value, ..u }
    } else if a.key == "translate"@ {
        UnitView { translate: a.value != "false"@, ..u }
    } else {
        u
    }
}

/// The `<trans-unit>` attributes folded over the unit under construction.
pub open spec fn spec_fold_unit_attrs(u: UnitView, attrs: Seq<AttrView>) -> UnitView
    decreases attrs.len(),
{
    if attrs.len() == 0 {
        u
    } else {
        spec_apply_unit_attr(spec_fold_unit_attrs(u, attrs.drop_last()), attrs.last())
    }
}

/// The [`ToolView`] a freshly created tool starts from.
pub open spec fn default_tool_view() -> ToolView {
    ToolView {
        id: Seq::<char>::empty(),
        name: Seq::<char>::empty(),
        version: Option::None,
        company: Option::None,
    }
}

/// One `<tool>` attribute applied to the tool under construction.
pub open spec fn spec_apply_tool_attr(t: ToolView, a: AttrView) -> ToolView {
    if a.key == "tool-id"@ {
        ToolView { id: a.value, ..t }
    } else if a.key == "tool-name"@ {
        ToolView { name: a.value, ..t }
    } else if a.key == "tool-version"@ {
        ToolView { version: Option::Some(a.value), ..t }
    } else if a.key == "tool-company"@ {
        ToolView { company: Option::Some(a.value), ..t }
    } else {
        t
    }
}

/// The `<tool>` attributes folded over the tool under construction.
pub open spec fn spec_fold_tool_attrs(t: ToolView, attrs: Seq<AttrView>) -> ToolView
    decreases attrs.len(),
{
    if attrs.len() == 0 {
        t
    } else {
        spec_apply_tool_attr(spec_fold_tool_attrs(t, attrs.drop_last()), attrs.last())
    }
}

/// The store after a new group is appended.
pub open spec fn spec_add_group(s: StoreView, g: FileView) -> StoreView {
    StoreView { groups: s.groups.push(g) }
}

/// The store after a fresh, empty header is attached to the current (last)
/// group; no change when there is no current group.
pub open spec fn spec_attach_header(s: StoreView) -> StoreView {
    if s.groups.len() == 0 {
        s
    } else {
        let g = s.groups.last();
        let g2 = FileView {
            header: Option::Some(
                HeaderView { tools: Seq::<ToolView>::empty(), notes: Seq::<Seq<char>>::empty() },
            ),
            ..g
        };
        StoreView { groups: s.groups.update(s.groups.len() - 1, g2) }
    }
}

/// The store after a unit is appended to the current group; the unit is
/// discarded when there is no current group.
pub open spec fn spec_add_unit(s: StoreView, u: UnitView) -> StoreView {
    if s.groups.len() == 0 {
        s
    } else {
        let g = s.groups.last();
        let g2 = FileView { units: g.units.push(u), ..g };
        StoreView { groups: s.groups.update(s.groups.len() - 1, g2) }
    }
}

/// The store after a tool is appended to the current group's header; the
/// tool is discarded when there is no current group or the group has no
/// header.
pub open spec fn spec_add_tool(s: StoreView, t: ToolView) -> StoreView {
    if s.groups.len() == 0 {
        s
    } else {
        let g = s.groups.last();
        match g.header {
            Option::None => s,
            Option::Some(h) => {
                let g2 = FileView {
                    header: Option::Some(HeaderView { tools: h.tools.push(t), ..h }),
                    ..g
                };
                StoreView { groups: s.groups.update(s.groups.len() - 1, g2) }
            }
        }
    }
}

/// The store after a note is appended to the current group's header; the
/// text is discarded when there is no current group or no header.
pub open spec fn spec_add_header_note(s: StoreView, text: Seq<char>) -> StoreView {
    if s.groups.len() == 0 {
        s
    } else {
        let g = s.groups.last();
        match g.header {
            Option::None => s,
            Option::Some(h) => {
                let g2 = FileView {
                    header: Option::Some(HeaderView { notes: h.notes.push(text), ..h }),
                    ..g
                };
                StoreView { groups: s.groups.update(s.groups.len() - 1, g2) }
            }
        }
    }
}

/// The store after source text is assigned to the last unit of the current
/// group; the text is discarded when there is no such unit.
pub open spec fn spec_add_unit_source(s: StoreView, text: Seq<char>) -> StoreView {
    if s.groups.len() == 0 {
        s
    } else {
        let g = s.groups.last();
        if g.units.len() == 0 {
            s
        } else {
            let u2 = UnitView { source: Option::Some(text), ..g.units.last() };
            let g2 = FileView { units: g.units.update(g.units.len() - 1, u2), ..g };
            StoreView { groups: s.groups.update(s.groups.len() - 1, g2) }
        }
    }
}

/// The store after target text is assigned to the last unit of the current
/// group; the text is discarded when there is no such unit.
pub open spec fn spec_add_unit_target(s: StoreView, text: Seq<char>) -> StoreView {
    if s.groups.len() == 0 {
        s
    } else {
        let g = s.groups.last();
        if g.units.len() == 0 {
            s
        } else {
            let u2 = UnitView { target: Option::Some(text), ..g.units.last() };
            let g2 = FileView { units: g.units.update(g.units.len() - 1, u2), ..g };
            StoreView { groups: s.groups.update(s.groups.len() - 1, g2) }
        }
    }
}

/// The store after note text is assigned to the last unit of the current
/// group; the text is discarded when there is no such unit.
pub open spec fn spec_add_unit_note(s: StoreView, text: Seq<char>) -> StoreView {
    if s.groups.len() == 0 {
        s
    } else {
        let g = s.groups.last();
        if g.units.len() == 0 {
            s
        } else {
            let u2 = UnitView { note: Option::Some(text), ..g.units.last() };
            let g2 = FileView { units: g.units.update(g.units.len() - 1, u2), ..g };
            StoreView { groups: s.groups.update(s.groups.len() - 1, g2) }
        }
    }
}

/// Where text content lands: with a `<source>`, `<target>` or `<note>`
/// context on top of the stack it is routed to the last unit, except that a
/// note whose second-from-top context is the header goes to the header's
/// notes; in every other situation the text is discarded.
pub open spec fn spec_dispatch_text(s: StoreView, tags: Seq<TagCtx>, text: Seq<char>) -> StoreView {
    if tags.len() == 0 {
        s
    } else {
        match tags.last() {
            TagCtx::Source => spec_add_unit_source(s, text),
            TagCtx::Target => spec_add_unit_target(s, text),
            TagCtx::Note => if tags.len() >= 2 {
                match tags[tags.len() - 2] {
                    TagCtx::Header => spec_add_header_note(s, text),
                    TagCtx::Unit => spec_add_unit_note(s, text),
                    _ => s,
                }
            } else {
                s
            },
            _ => s,
        }
    }
}

/// One markup event applied to the parse state.
pub open spec fn spec_step(st: ParseState, ev: ParseEventView) -> ParseState {
    match ev {
        ParseEventView::Open { name, attrs } => match spec_tag_of(name) {
            Option::None => st,
            Option::Some(t) => {
                let store2 = match t {
                    TagCtx::File => spec_add_group(
                        st.store,
                        spec_fold_file_attrs(empty_file_view(Seq::<char>::empty()), attrs),
                    ),
                    TagCtx::Unit => spec_add_unit(
                        st.store,
                        spec_fold_unit_attrs(default_unit_view(), attrs),
                    ),
                    TagCtx::Header => spec_attach_header(st.store),
                    _ => st.store,
                };
                ParseState { store: store2, tags: st.tags.push(t) }
            }
        },
        ParseEventView::SelfClosed { name, attrs } => match spec_tag_of(name) {
            Option::None => st,
            Option::Some(t) => {
                let store2 = match t {
                    TagCtx::Tool => spec_add_tool(
                        st.store,
                        spec_fold_tool_attrs(default_tool_view(), attrs),
                    ),
                    _ => st.store,
                };
                ParseState { store: store2, tags: st.tags }
            }
        },
        ParseEventView::Close { name } => match spec_tag_of(name) {
            Option::None => st,
            Option::Some(t) => ParseState { store: st.store, tags: spec_pop_matching(st.tags, t) },
        },
        ParseEventView::Chars { text } => ParseState {
            store: spec_dispatch_text(st.store, st.tags, text),
            tags: st.tags,
        },
        ParseEventView::Decl { .. } => st,
    }
}

/// A sequence of markup events folded over the parse state, in order.
pub open spec fn spec_run(st: ParseState, evs: Seq<ParseEventView>) -> ParseState
    decreases evs.len(),
{
    if evs.len() == 0 {
        st
    } else {
        spec_step(spec_run(st, evs.drop_last()), evs.last())
    }
}

/// Running a concatenation of event sequences runs them one after the other.
pub proof fn lemma_run_app(st: ParseState, a: Seq<ParseEventView>, b: Seq<ParseEventView>)
    ensures
        spec_run(st, a + b) == spec_run(spec_run(st, a), b),
    decreases b.len(),
{
    if b.len() == 0 {
        assert(a + b =~= a);
    } else {
        lemma_run_app(st, a, b.drop_last());
        assert((a + b).drop_last() =~= a + b.drop_last());
        assert((a + b).last() == b.last());
    }
}


impl Store {
    /// Assigns source text to the last unit of the last group; the text is
    /// silently dropped when no group or no unit exists yet.
    fn add_unit_source(&mut self, text: String)
        ensures
            final(self)@ == spec_add_unit_source(old(self)@, text@),
    {
        match self.groups.pop() {
            Option::None => {
                assert(final(self)@ =~~= spec_add_unit_source(old(self)@, text@));
            }
            Option::Some(mut file) => {
                match file.units.pop() {
                    Option::None => {}
                    Option::Some(mut unit) => {
                        unit.source = Option::Some(UnitValue { text });
                        file.units.push(unit);
                    }
                }
                self.groups.push(file);
                assert(final(self)@ =~~= spec_add_unit_source(old(self)@, text@));
            }
        }
    }

    /// Assigns target text to the last unit of the last group; the text is
    /// silently dropped when no group or no unit exists yet.
    fn add_unit_target(&mut self, text: String)
        ensures
            final(self)@ == spec_add_unit_target(old(self)@, text@),
    {
        match self.groups.pop() {
            Option::None => {
                assert(final(self)@ =~~= spec_add_unit_target(old(self)@, text@));
            }
            Option::Some(mut file) => {
                match file.units.pop() {
                    Option::None => {}
                    Option::Some(mut unit) => {
                        unit.target = Option::Some(UnitValue { text });
                        file.units.push(unit);
                    }
                }
                self.groups.push(file);
                assert(final(self)@ =~~= spec_add_unit_target(old(self)@, text@));
            }
        }
    }

    /// Assigns note text to the last unit of the last group; the text is
    /// silently dropped when no group or no unit exists yet.
    fn add_unit_note(&mut self, text: String)
        ensures
            final(self)@ == spec_add_unit_note(old(self)@, text@),
    {
        match self.groups.pop() {
            Option::None => {
                assert(final(self)@ =~~= spec_add_unit_note(old(self)@, text@));
            }
            Option::Some(mut file) => {
                match file.units.pop() {
                    Option::None => {}
                    Option::Some(mut unit) => {
                        unit.note = Option::Some(UnitValue { text });
                        file.units.push(unit);
                    }
                }
                self.groups.push(file);
                assert(final(self)@ =~~= spec_add_unit_note(old(self)@, text@));
            }
        }
    }

    /// Appends note text to the header of the last group; the text is
    /// silently dropped when no group or no header exists.
    fn add_header_note(&mut self, text: String)
        ensures
            final(self)@ == spec_add_header_note(old(self)@, text@),
    {
        match self.groups.pop() {
            Option::None => {
                assert(final(self)@ =~~= spec_add_header_note(old(self)@, text@));
            }
            Option::Some(mut file) => {
                match file.header.take() {
                    Option::None => {}
                    Option::Some(mut header) => {
                        header.notes.push(UnitValue { text });
                        file.header = Option::Some(header);
                    }
                }
                self.groups.push(file);
                assert(final(self)@ =~~= spec_add_header_note(old(self)@, text@));
            }
        }
    }

    /// Creates a unit from the attributes of an opening `<trans-unit>`
    /// element and appends it to the last group; the unit is silently
    /// dropped when no group exists yet.
    fn handle_trans_unit(&mut self, attrs: &Vec<Attr>)
        ensures
            final(self)@ == spec_add_unit(
                old(self)@,
                spec_fold_unit_attrs(default_unit_view(), attrs_view(attrs@)),
            ),
    {
        let ghost av = attrs_view(attrs@);
        let mut unit = Unit::new();
        let mut i: usize = 0;
        while i < attrs.len()
            invariant
                i <= attrs.len(),
                av == attrs_view(attrs@),
                unit@ == spec_fold_unit_attrs(default_unit_view(), av.take(i as int)),
            decreases attrs.len() - i,
        {
            let ghost prev = unit@;
            let a = &attrs[i];
            if a.key == "id".to_owned() {
                unit.id = a.value.clone();
            } else if a.key == "translate".to_owned() {
                unit.translate = !(a.value == "false".to_owned());
            }
            proof {
                assert(av[i as int] == attrs@[i as int]@);
                assert(unit@ =~= spec_apply_unit_attr(prev, av[i as int]));
                assert(av.take(i as int + 1).drop_last() =~= av.take(i as int));
                assert(av.take(i as int + 1).last() == av[i as int]);
            }
            i = i + 1;
        }
        proof {
            assert(av.take(attrs@.len() as int) =~= av);
        }
        match self.groups.pop() {
            Option::None => {
                assert(final(self)@ =~~= spec_add_unit(
                    old(self)@,
                    spec_fold_unit_attrs(default_unit_view(), av),
                ));
            }
            Option::Some(mut file) => {
                file.units.push(unit);
                self.groups.push(file);
                assert(final(self)@ =~~= spec_add_unit(
                    old(self)@,
                    spec_fold_unit_attrs(default_unit_view(), av),
                ));
            }
        }
    }

    /// Creates a group from the attributes of an opening `<file>` element
    /// and appends it to the store.
    fn handle_file(&mut self, attrs: &Vec<Attr>)
        ensures
            final(self)@ == spec_add_group(
                old(self)@,
                spec_fold_file_attrs(empty_file_view(Seq::<char>::empty()), attrs_view(attrs@)),
            ),
    {
        let ghost av = attrs_view(attrs@);
        let mut file = TranslationFile::new("");
        proof {
            reveal_strlit("");
            assert(""@ =~= Seq::<char>::empty());
        }
        let mut i: usize = 0;
        while i < attrs.len()
            invariant
                i <= attrs.len(),
                av == attrs_view(attrs@),
                file@ == spec_fold_file_attrs(empty_file_view(Seq::<char>::empty()), av.take(i as int)),
            decreases attrs.len() - i,
        {
            let ghost prev = file@;
            let a = &attrs[i];
            if a.key == "original".to_owned() {
                file.address = a.value.clone();
            } else if a.key == "source-language".to_owned() {
                file.source_locale = Option::Some(Locale::new(a.value.clone()));
            } else if a.key == "target-language".to_owned() {
                file.target_locale = Option::Some(Locale::new(a.value.clone()));
            }
            proof {
                assert(av[i as int] == attrs@[i as int]@);
                assert(file@ =~= spec_apply_file_attr(prev, av[i as int]));
                assert(av.take(i as int + 1).drop_last() =~= av.take(i as int));
                assert(av.take(i as int + 1).last() == av[i as int]);
            }
            i = i + 1;
        }
        proof {
            assert(av.take(attrs@.len() as int) =~= av);
        }
        self.groups.push(file);
        assert(final(self)@ =~~= spec_add_group(
            old(self)@,
            spec_fold_file_attrs(empty_file_view(Seq::<char>::empty()), av),
        ));
    }

    /// Creates a tool from the attributes of a self-closing `<tool>` element
    /// and appends it to the current header; the tool is silently dropped
    /// when no group or no header exists.
    fn handle_header_tool(&mut self, attrs: &Vec<Attr>)
        ensures
            final(self)@ == spec_add_tool(
                old(self)@,
                spec_fold_tool_attrs(default_tool_view(), attrs_view(attrs@)),
            ),
    {
        let ghost av = attrs_view(attrs@);
        let mut tool = Tool::new(String::new(), String::new());
        let mut i: usize = 0;
        while i < attrs.len()
            invariant
                i <= attrs.len(),
                av == attrs_view(attrs@),
                tool@ == spec_fold_tool_attrs(default_tool_view(), av.take(i as int)),
            decreases attrs.len() - i,
        {
            let ghost prev = tool@;
            let a = &attrs[i];
            if a.key == "tool-id".to_owned() {
                tool.id = a.value.clone();
            } else if a.key == "tool-name".to_owned() {
                tool.name = a.value.clone();
            } else if a.key == "tool-version".to_owned() {
                tool.version = Option::Some(a.value.clone());
            } else if a.key == "tool-company".to_owned() {
                tool.company = Option::Some(a.value.clone());
            }
            proof {
                assert(av[i as int] == attrs@[i as int]@);
                assert(tool@ =~= spec_apply_tool_attr(prev, av[i as int]));
                assert(av.take(i as int + 1).drop_last() =~= av.take(i as int));
                assert(av.take(i as int + 1).last() == av[i as int]);
            }
            i = i + 1;
        }
        proof {
            assert(av.take(attrs@.len() as int) =~= av);
        }
        match self.groups.pop() {
            Option::None => {
                assert(final(self)@ =~~= spec_add_tool(
                    old(self)@,
                    spec_fold_tool_attrs(default_tool_view(), av),
                ));
            }
            Option::Some(mut file) => {
                match file.header.take() {
                    Option::None => {}
                    Option::Some(mut header) => {
                        header.tools.push(tool);
                        file.header = Option::Some(header);
                    }
                }
                self.groups.push(file);
                assert(final(self)@ =~~= spec_add_tool(
                    old(self)@,
                    spec_fold_tool_attrs(default_tool_view(), av),
                ));
            }
        }
    }

    /// Attaches a fresh, empty header to the current (last) group; a no-op
    /// when there is no current group.
    fn handle_file_header(&mut self)
        ensures
            final(self)@ == spec_attach_header(old(self)@),
    {
        match self.groups.pop() {
            Option::None => {
                assert(final(self)@ =~~= spec_attach_header(old(self)@));
            }
            Option::Some(mut file) => {
                file.header = Option::Some(Header::new());
                self.groups.push(file);
                assert(final(self)@ =~~= spec_attach_header(old(self)@));
            }
        }
    }

    /// Unconditionally appends a recognized opening tag to the context
    /// stack.
    fn open_tag(tags: &mut Vec<TagCtx>, open_tag: TagCtx)
        ensures
            final(tags)@ == old(tags)@.push(open_tag),
    {
        tags.push(open_tag)
    }

    /// Pops the context stack until an entry equal to `close_tag` is
    /// removed, or the stack is exhausted; malformed closings thereby
    /// resynchronize to the nearest matching ancestor instead of failing.
    fn close_tag(tags: &mut Vec<TagCtx>, close_tag: TagCtx)
        ensures
            final(tags)@ == spec_pop_matching(old(tags)@, close_tag),
    {
        let mut tag_closed = false;
        while !tag_closed
            invariant
                spec_pop_matching(old(tags)@, close_tag) == (if tag_closed {
                    tags@
                } else {
                    spec_pop_matching(tags@, close_tag)
                }),
            decreases tags.len() + (if tag_closed { 0int } else { 1int }),
        {
            match tags.pop() {
                Option::None => {
                    tag_closed = true;
                }
                Option::Some(tag) => {
                    if tag == close_tag {
                        tag_closed = true;
                    }
                }
            }
        }
    }

    /// Applies one markup event to the store and the context stack.
    fn process_event(&mut self, tags: &mut Vec<TagCtx>, ev: ParseEvent)
        ensures
            (ParseState { store: final(self)@, tags: final(tags)@ }) == spec_step(
                ParseState { store: old(self)@, tags: old(tags)@ },
                ev@,
            ),
    {
        match ev {
            ParseEvent::Open { name, attrs } => {
                match TagCtx::from(name.as_str()) {
                    Option::None => {}
                    Option::Some(tag) => {
                        Store::open_tag(tags, tag);
                        match tag {
                            TagCtx::File => self.handle_file(&attrs),
                            TagCtx::Unit => self.handle_trans_unit(&attrs),
                            TagCtx::Header => self.handle_file_header(),
                            _ => {}
                        }
                    }
                }
            }
            ParseEvent::SelfClosed { name, attrs } => {
                match TagCtx::from(name.as_str()) {
                    Option::None => {}
                    Option::Some(tag) => {
                        Store::open_tag(tags, tag);
                        match tag {
                            TagCtx::Tool => self.handle_header_tool(&attrs),
                            _ => {}
                        }
                        Store::close_tag(tags, tag);
                    }
                }
            }
            ParseEvent::Close { name } => {
                match TagCtx::from(name.as_str()) {
                    Option::None => {}
                    Option::Some(tag) => {
                        Store::close_tag(tags, tag);
                    }
                }
            }
            ParseEvent::Chars { text } => {
                if tags.len() >= 1 {
                    let top = tags[tags.len() - 1];
                    match top {
                        TagCtx::Source => self.add_unit_source(text),
                        TagCtx::Target => self.add_unit_target(text),
                        TagCtx::Note => {
                            if tags.len() >= 2 {
                                let ctx = tags[tags.len() - 2];
                                match ctx {
                                    TagCtx::Header => self.add_header_note(text),
                                    TagCtx::Unit => self.add_unit_note(text),
                                    _ => {}
                                }
                            }
                        }
                        _ => {}
                    }
                }
            }
        }
    }
}


/// Failure of a parse call: the input is not well-formed at the tokenizer
/// level, or text content holds a malformed entity.
#[derive(PartialEq, Eq, Structural, Clone, Copy, Debug)]
pub enum XliffError {
    /// The underlying event source reported malformed markup.
    Malformed,
}

/// A unit as the parser builds it: it never carries per-unit locale
/// overrides.
pub open spec fn unit_norm(u: UnitView) -> bool {
    u.source_locale is None && u.target_locale is None
}

/// A locale field as the parser builds it: lower-casing it again changes
/// nothing.
pub open spec fn locale_norm(l: Option<Seq<char>>) -> bool {
    match l {
        Option::Some(s) => lower_seq(s) == s,
        Option::None => true,
    }
}

/// A group as the parser builds it: no data type, lower-cased locales, and
/// normalized units.
pub open spec fn file_norm(g: FileView) -> bool {
    &&& g.data_type == Seq::<char>::empty()
    &&& locale_norm(g.source_locale)
    &&& locale_norm(g.target_locale)
    &&& forall|i: int| 0 <= i < g.units.len() ==> unit_norm(#[trigger] g.units[i])
}

/// A store as the parser builds it: every group is normalized.
pub open spec fn store_norm(s: StoreView) -> bool {
    forall|i: int| 0 <= i < s.groups.len() ==> file_norm(#[trigger] s.groups[i])
}

/// Folding `<file>` attributes preserves group normalization: the only
/// locale values written are lower-cased, and lower-casing is idempotent.
proof fn lemma_fold_file_attrs_norm(f: FileView, attrs: Seq<AttrView>)
    requires
        file_norm(f),
    ensures
        file_norm(spec_fold_file_attrs(f, attrs)),
    decreases attrs.len(),
{
    if attrs.len() > 0 {
        lemma_fold_file_attrs_norm(f, attrs.drop_last());
        let a = attrs.last();
        if a.key == "source-language"@ || a.key == "target-language"@ {
            lemma_lower_seq_idempotent(a.value);
        }
    }
}

/// Folding `<trans-unit>` attributes never writes a locale override.
proof fn lemma_fold_unit_attrs_norm(u: UnitView, attrs: Seq<AttrView>)
    requires
        unit_norm(u),
    ensures
        unit_norm(spec_fold_unit_attrs(u, attrs)),
    decreases attrs.len(),
{
    if attrs.len() > 0 {
        lemma_fold_unit_attrs_norm(u, attrs.drop_last());
    }
}

/// One parse step preserves store normalization.
pub proof fn lemma_step_norm(st: ParseState, ev: ParseEventView)
    requires
        store_norm(st.store),
    ensures
        store_norm(spec_step(st, ev).store),
{
    match ev {
        ParseEventView::Open { name, attrs } => {
            match spec_tag_of(name) {
                Option::None => {}
                Option::Some(t) => {
                    if t == TagCtx::File {
                        assert(file_norm(empty_file_view(Seq::<char>::empty())));
                        lemma_fold_file_attrs_norm(empty_file_view(Seq::<char>::empty()), attrs);
                    } else if t == TagCtx::Unit {
                        assert(unit_norm(default_unit_view()));
                        lemma_fold_unit_attrs_norm(default_unit_view(), attrs);
                    }
                }
            }
        }
        _ => {}
    }
}

/// Every parse run from a normalized store ends in a normalized store.
pub proof fn lemma_run_norm(st: ParseState, evs: Seq<ParseEventView>)
    requires
        store_norm(st.store),
    ensures
        store_norm(spec_run(st, evs).store),
    decreases evs.len(),
{
    if evs.len() > 0 {
        lemma_run_norm(st, evs.drop_last());
        lemma_step_norm(spec_run(st, evs.drop_last()), evs.last());
    }
}

impl Store {
    /// Configures the store with the provided translation contents.
    ///
    /// On success the store is exactly the fold of the document's
    /// recognized event sequence over the state machine; tolerated
    /// anomalies (malformed nesting, orphan content, missing attributes)
    /// never fail the call.  Input that is not well-formed at the
    /// tokenizer level, or whose text holds a malformed entity, yields an
    /// error, and the store then holds the fold of the events up to the
    /// offending point.
    pub fn load(&mut self, source: &[u8]) -> (r: Result<(), XliffError>)
        ensures
            (r is Ok ==> final(self)@ == spec_run(
                (ParseState { store: old(self)@, tags: Seq::<TagCtx>::empty() }),
                crate::xml::doc_events(source@),
            ).store && crate::xml::doc_wf(source@)),
            (r is Err ==> exists|k: int|
                0 <= k <= crate::xml::doc_events(source@).len() && final(self)@ == spec_run(
                    (ParseState { store: old(self)@, tags: Seq::<TagCtx>::empty() }),
                    crate::xml::doc_events(source@).take(k),
                ).store),
            store_norm(old(self)@) ==> store_norm(final(self)@),
    {
        let ghost init = ParseState { store: old(self)@, tags: Seq::<TagCtx>::empty() };
        let ghost all = crate::xml::doc_events(source@);
        let ghost wf = crate::xml::doc_wf(source@);
        let mut reader = crate::xml::reader_from_bytes(source);
        let mut tags: Vec<TagCtx> = Vec::new();
        let ghost mut evs: Seq<ParseEventView> = Seq::<ParseEventView>::empty();
        let mut remaining: usize = source.len();
        proof {
            assert(evs + crate::xml::reader_rest(&reader) =~= all);
        }
        loop
            invariant
                init == (ParseState { store: old(self)@, tags: Seq::<TagCtx>::empty() }),
                all == crate::xml::doc_events(source@),
                wf == crate::xml::doc_wf(source@),
                evs + crate::xml::reader_rest(&reader) == all,
                crate::xml::reader_wf(&reader) == wf,
                (ParseState { store: self@, tags: tags@ }) == spec_run(init, evs),
                store_norm(init.store) ==> store_norm(self@),
            decreases remaining,
        {
            let ghost rest = crate::xml::reader_rest(&reader);
            let step = crate::xml::next_token(&mut reader);
            match step {
                Result::Err(_) => {
                    // The recognized events are exhausted and the stream
                    // ends in a tokenizer error: the store holds the fold
                    // of all of them.
                    proof {
                        assert(evs =~= all.take(evs.len() as int));
                        assert(self@ == spec_run(init, all.take(evs.len() as int)).store);
                    }
                    return Result::Err(XliffError::Malformed);
                }
                Result::Ok(tok) => {
                    match tok {
                        crate::xml::Token::Stop => {
                            proof {
                                assert(evs =~= all);
                            }
                            return Result::Ok(());
                        }
                        crate::xml::Token::Skip => {}
                        crate::xml::Token::Open(e) => {
                            let name = crate::xml::open_name(&e);
                            let attrs = crate::xml::open_attrs(&e);
                            let ev = ParseEvent::Open { name, attrs };
                            let ghost pre = ParseState { store: self@, tags: tags@ };
                            proof {
                                assert(ev@ == rest[0]);
                            }
                            self.process_event(&mut tags, ev);
                            proof {
                                assert(evs.push(rest[0]).drop_last() =~= evs);
                                evs = evs.push(rest[0]);
                                assert(evs + rest.drop_first() =~= all);
                                assert(spec_run(init, evs).store == self@);
                                if store_norm(init.store) {
                                    lemma_step_norm(pre, rest[0]);
                                }
                            }
                        }
                        crate::xml::Token::SelfClosed(e) => {
                            let name = crate::xml::open_name(&e);
                            let attrs = crate::xml::open_attrs(&e);
                            let ev = ParseEvent::SelfClosed { name, attrs };
                            let ghost pre = ParseState { store: self@, tags: tags@ };
                            proof {
                                assert(ev@ == rest[0]);
                            }
                            self.process_event(&mut tags, ev);
                            proof {
                                assert(evs.push(rest[0]).drop_last() =~= evs);
                                evs = evs.push(rest[0]);
                                assert(evs + rest.drop_first() =~= all);
                                assert(spec_run(init, evs).store == self@);
                                if store_norm(init.store) {
                                    lemma_step_norm(pre, rest[0]);
                                }
                            }
                        }
                        crate::xml::Token::Close(e) => {
                            let name = crate::xml::close_name(&e);
                            let ev = ParseEvent::Close { name };
                            let ghost pre = ParseState { store: self@, tags: tags@ };
                            proof {
                                assert(ev@ == rest[0]);
                            }
                            self.process_event(&mut tags, ev);
                            proof {
                                assert(evs.push(rest[0]).drop_last() =~= evs);
                                evs = evs.push(rest[0]);
                                assert(evs + rest.drop_first() =~= all);
                                assert(spec_run(init, evs).store == self@);
                                if store_norm(init.store) {
                                    lemma_step_norm(pre, rest[0]);
                                }
                            }
                        }
                        crate::xml::Token::Chars(t) => {
                            match crate::xml::text_content(&t) {
                                Result::Err(_) => {
                                    // A malformed entity: the store holds
                                    // the fold of the events before this
                                    // text node.
                                    proof {
                                        assert(evs =~= all.take(evs.len() as int));
                                        assert(self@ == spec_run(
                                            init,
                                            all.take(evs.len() as int),
                                        ).store);
                                    }
                                    return Result::Err(XliffError::Malformed);
                                }
                                Result::Ok(text) => {
                                    let ev = ParseEvent::Chars { text };
                                    let ghost pre = ParseState { store: self@, tags: tags@ };
                                    proof {
                                        assert(ev@ == rest[0]);
                                    }
                                    self.process_event(&mut tags, ev);
                                    proof {
                                        assert(evs.push(rest[0]).drop_last() =~= evs);
                                        evs = evs.push(rest[0]);
                                        assert(evs + rest.drop_first() =~= all);
                                        assert(spec_run(init, evs).store == self@);
                                        if store_norm(init.store) {
                                            lemma_step_norm(pre, rest[0]);
                                        }
                                    }
                                }
                            }
                        }
                    }
                }
            }
            if remaining == 0 {
                proof {
                    assert(evs =~= all.take(evs.len() as int));
                    assert(self@ == spec_run(init, all.take(evs.len() as int)).store);
                }
                return Result::Err(XliffError::Malformed);
            }
            remaining = remaining - 1;
        }
    }
}

} // verus!
