//! The trusted boundary around the `quick_xml` tokenizer and emitter.
//!
//! Reading: the tokenizer turns input bytes into markup events, and its
//! output is a deterministic function of those bytes; [`doc_events`] names
//! the recognized event sequence of a document and [`doc_wf`] whether the
//! whole input tokenizes cleanly, so that the parser's contract can say
//! exactly which store a given input yields.
//!
//! Writing: the emitter accumulates events into a byte buffer.  The
//! contracts track the sequence of written events exactly; what bytes the
//! emitter produces for that sequence is named by [`rendered`] and not
//! otherwise specified.

use vstd::prelude::*;
use crate::store::{Attr, AttrView, ParseEventView};

verus! {

#[verifier::external_type_specification]
#[verifier::external_body]
#[verifier::reject_recursive_types(R)]
/// `quick_xml`'s streaming tokenizer.
pub struct ExReader<R>(quick_xml::Reader<R>);

#[verifier::external_type_specification]
#[verifier::external_body]
/// `quick_xml`'s error type.
pub struct ExError(quick_xml::Error);

#[verifier::external_type_specification]
#[verifier::external_body]
/// The payload of an opening or self-closing element event.
pub struct ExBytesStart<'a>(quick_xml::events::BytesStart<'a>);

#[verifier::external_type_specification]
#[verifier::external_body]
/// The payload of a closing element event.
pub struct ExBytesEnd<'a>(quick_xml::events::BytesEnd<'a>);

#[verifier::external_type_specification]
#[verifier::external_body]
/// The payload of a text event.
pub struct ExBytesText<'a>(quick_xml::events::BytesText<'a>);

#[verifier::external_type_specification]
#[verifier::external_body]
#[verifier::reject_recursive_types(W)]
/// `quick_xml`'s event-based emitter.
pub struct ExWriter<W>(quick_xml::Writer<W>);

/// One tokenizer event, with its payload still opaque.  Event kinds the
/// parser ignores (declarations, comments, CDATA, processing instructions,
/// document type definitions) are collapsed into [`Token::Skip`].
pub enum Token {
    /// An opening element.
    Open(quick_xml::events::BytesStart<'static>),
    /// A self-closing element.
    SelfClosed(quick_xml::events::BytesStart<'static>),
    /// A closing element.
    Close(quick_xml::events::BytesEnd<'static>),
    /// Text content.
    Chars(quick_xml::events::BytesText<'static>),
    /// End of the document.
    Stop,
    /// An event kind the parser ignores.
    Skip,
}

/// The recognized markup events a document's bytes tokenize to, in order:
/// opening, self-closing and closing elements and text content, up to the
/// end of the input or the first tokenizer error, as read by a reader
/// configured as [`reader_from_bytes`] configures it.  Text content is
/// recorded by [`text_view`]; declarations, comments and the other event
/// kinds the parser ignores are not recorded.
pub uninterp spec fn doc_events(bytes: Seq<u8>) -> Seq<ParseEventView>;

/// Whether a document's bytes tokenize cleanly to the very end, so that
/// the stream ends at end-of-input rather than at a tokenizer error.
pub uninterp spec fn doc_wf(bytes: Seq<u8>) -> bool;

/// The recognized events a reader has yet to deliver.
pub uninterp spec fn reader_rest(r: &quick_xml::Reader<&[u8]>) -> Seq<ParseEventView>;

/// Whether the events a reader has yet to deliver end at end-of-input
/// rather than at a tokenizer error.
pub uninterp spec fn reader_wf(r: &quick_xml::Reader<&[u8]>) -> bool;

/// The element name held by a closing-tag payload, read as text.
pub uninterp spec fn end_name_view(e: quick_xml::events::BytesEnd<'static>) -> Seq<char>;

/// The content held by a text payload, with entities resolved; only
/// meaningful where [`text_wf`] holds.
pub uninterp spec fn text_view(t: quick_xml::events::BytesText<'static>) -> Seq<char>;

/// Whether the entities in a text payload resolve.
pub uninterp spec fn text_wf(t: quick_xml::events::BytesText<'static>) -> bool;

/// Relies on `quick_xml::Reader::from_reader`.  End-tag name checking is
/// turned off so that mismatched closings reach the tag-context stack,
/// which resynchronizes instead of failing the whole parse.  A fresh
/// reader has the document's whole event sequence ahead of it.
#[verifier::external_body]
pub(crate) fn reader_from_bytes<'a>(source: &'a [u8]) -> (r: quick_xml::Reader<&'a [u8]>)
    ensures
        reader_rest(&r) == doc_events(source@),
        reader_wf(&r) == doc_wf(source@),
{
    let mut r = quick_xml::Reader::from_reader(source);
    r.config_mut().check_end_names = false;
    r
}

/// Relies on `quick_xml::Reader::read_event` for byte-slice readers: each
/// call delivers the next recognized event of the remaining stream, skips
/// an event kind the parser ignores, reports the end of the document once
/// the stream is exhausted, or fails exactly where the remaining input is
/// not well-formed at the tokenizer level.
#[verifier::external_body]
pub(crate) fn next_token(r: &mut quick_xml::Reader<&[u8]>) -> (t: Result<
    Token,
    quick_xml::Error,
>)
    ensures
        (match t {
            Result::Ok(tok) => match tok {
                Token::Stop => reader_rest(&*old(r)).len() == 0 && reader_wf(&*old(r)),
                Token::Skip => reader_rest(&*final(r)) == reader_rest(&*old(r)) && reader_wf(
                    &*final(r),
                ) == reader_wf(&*old(r)),
                Token::Open(e) => reader_rest(&*old(r)).len() > 0 && reader_rest(&*old(r))[0]
                    == (ParseEventView::Open {
                    name: start_name_view(e),
                    attrs: start_attrs_view(e),
                }) && reader_rest(&*final(r)) == reader_rest(&*old(r)).drop_first() && reader_wf(
                    &*final(r),
                ) == reader_wf(&*old(r)),
                Token::SelfClosed(e) => reader_rest(&*old(r)).len() > 0 && reader_rest(&*old(r))[0]
                    == (ParseEventView::SelfClosed {
                    name: start_name_view(e),
                    attrs: start_attrs_view(e),
                }) && reader_rest(&*final(r)) == reader_rest(&*old(r)).drop_first() && reader_wf(
                    &*final(r),
                ) == reader_wf(&*old(r)),
                Token::Close(e) => reader_rest(&*old(r)).len() > 0 && reader_rest(&*old(r))[0]
                    == (ParseEventView::Close { name: end_name_view(e) }) && reader_rest(
                    &*final(r),
                ) == reader_rest(&*old(r)).drop_first() && reader_wf(&*final(r)) == reader_wf(
                    &*old(r),
                ),
                Token::Chars(c) => reader_rest(&*old(r)).len() > 0 && reader_rest(&*old(r))[0]
                    == (ParseEventView::Chars { text: text_view(c) }) && reader_rest(&*final(r))
                    == reader_rest(&*old(r)).drop_first() && reader_wf(&*final(r)) == reader_wf(
                    &*old(r),
                ),
            },
            Result::Err(_) => reader_rest(&*old(r)).len() == 0 && !reader_wf(&*old(r)),
        }),
{
    match r.read_event() {
        Ok(quick_xml::events::Event::Start(e)) => Ok(Token::Open(e.into_owned())),
        Ok(quick_xml::events::Event::Empty(e)) => Ok(Token::SelfClosed(e.into_owned())),
        Ok(quick_xml::events::Event::End(e)) => Ok(Token::Close(e.into_owned())),
        Ok(quick_xml::events::Event::Text(e)) => Ok(Token::Chars(e.into_owned())),
        Ok(quick_xml::events::Event::Eof) => Ok(Token::Stop),
        Ok(_) => Ok(Token::Skip),
        Err(e) => Err(e),
    }
}

/// Relies on `BytesStart::name`: the element name bytes, read as text.
#[verifier::external_body]
pub(crate) fn open_name(e: &quick_xml::events::BytesStart<'static>) -> (r: String)
    ensures
        r@ == start_name_view(*e),
{
    String::from_utf8_lossy(e.name().as_ref()).into_owned()
}

/// Relies on `BytesEnd::name`: the element name bytes, read as text.
#[verifier::external_body]
pub(crate) fn close_name(e: &quick_xml::events::BytesEnd<'static>) -> (r: String)
    ensures
        r@ == end_name_view(*e),
{
    String::from_utf8_lossy(e.name().as_ref()).into_owned()
}

/// Relies on `BytesStart::attributes` and `Attribute::unescape_value`:
/// the attributes of the element, in document order, with entities in the
/// values resolved.  Attributes the tokenizer rejects, or whose value does
/// not resolve, are dropped rather than failing the parse.
#[verifier::external_body]
pub(crate) fn open_attrs(e: &quick_xml::events::BytesStart<'static>) -> (r: Vec<Attr>)
    ensures
        crate::store::attrs_view(r@) == start_attrs_view(*e),
{
    e.attributes()
        .filter_map(|a| a.ok())
        .filter_map(|a| {
            let value = a.unescape_value().ok()?.into_owned();
            let key = String::from_utf8_lossy(a.key.as_ref()).into_owned();
            Some(Attr { key, value })
        })
        .collect()
}

/// Relies on `BytesText::unescape`: the text content with entities
/// resolved, or an error exactly when an entity is malformed.
#[verifier::external_body]
pub(crate) fn text_content(t: &quick_xml::events::BytesText<'static>) -> (r: Result<
    String,
    quick_xml::Error,
>)
    ensures
        (r matches Ok(s) ==> s@ == text_view(*t)),
        (r is Ok) == text_wf(*t),
{
    t.unescape().map(|c| c.into_owned())
}

/// The element name held by a start-tag payload, read as text.
pub uninterp spec fn start_name_view(e: quick_xml::events::BytesStart<'static>) -> Seq<char>;

/// The attributes held by a start-tag payload, in order, by their logical
/// content: keys as text, values with entities resolved; attributes whose
/// bytes the tokenizer rejects, or whose value does not resolve, are not
/// recorded.  The writing side escapes a value as it pushes it, so the
/// pair it hands over is recorded unchanged.
pub uninterp spec fn start_attrs_view(e: quick_xml::events::BytesStart<'static>) -> Seq<AttrView>;

/// The sequence of events written to an emitter so far.
pub uninterp spec fn writer_log(w: quick_xml::Writer<Vec<u8>>) -> Seq<ParseEventView>;

/// The bytes `quick_xml` produces for a sequence of events: names and text
/// as given, attribute values and text escaped, each event rendered in its
/// markup form with no whitespace in between.
pub uninterp spec fn rendered(log: Seq<ParseEventView>) -> Seq<u8>;

/// Relies on `BytesStart::new`: a fresh start tag with the given name and
/// no attributes.
#[verifier::external_body]
pub(crate) fn start_new(name: &str) -> (e: quick_xml::events::BytesStart<'static>)
    ensures
        start_name_view(e) == name@,
        start_attrs_view(e) == Seq::<AttrView>::empty(),
{
    quick_xml::events::BytesStart::new(String::from(name))
}

/// Relies on `BytesStart::push_attribute`: appends the pair; the text
/// conversion to `Attribute` escapes the value as it is pushed, and
/// parsing resolves it back, so the logical pair is exactly the one
/// handed over.
#[verifier::external_body]
pub(crate) fn start_push(e: &mut quick_xml::events::BytesStart<'static>, key: &str, value: &str)
    ensures
        start_name_view(*final(e)) == start_name_view(*old(e)),
        start_attrs_view(*final(e)) == start_attrs_view(*old(e)).push(
            (AttrView { key: key@, value: value@ }),
        ),
{
    e.push_attribute((key, value));
}

/// Relies on `quick_xml::Writer::new` over a byte-vector sink.
#[verifier::external_body]
pub(crate) fn writer_new() -> (w: quick_xml::Writer<Vec<u8>>)
    ensures
        writer_log(w) == Seq::<ParseEventView>::empty(),
{
    quick_xml::Writer::new(Vec::new())
}

/// Relies on `Writer::write_event` with a declaration built by
/// `BytesDecl::new`; writing into a byte vector cannot fail.
#[verifier::external_body]
pub(crate) fn write_decl(w: &mut quick_xml::Writer<Vec<u8>>, version: &str, encoding: &str)
    ensures
        writer_log(*final(w)) == writer_log(*old(w)).push(
            (ParseEventView::Decl { version: version@, encoding: encoding@ }),
        ),
{
    let decl = quick_xml::events::BytesDecl::new(version, Some(encoding), None);
    w.write_event(quick_xml::events::Event::Decl(decl)).unwrap();
}

/// Relies on `Writer::write_event` with a `Start` event; writing into a
/// byte vector cannot fail.
#[verifier::external_body]
pub(crate) fn write_open(w: &mut quick_xml::Writer<Vec<u8>>, e: quick_xml::events::BytesStart<'static>)
    ensures
        writer_log(*final(w)) == writer_log(*old(w)).push(
            (ParseEventView::Open { name: start_name_view(e), attrs: start_attrs_view(e) }),
        ),
{
    w.write_event(quick_xml::events::Event::Start(e)).unwrap();
}

/// Relies on `Writer::write_event` with an `Empty` event; writing into a
/// byte vector cannot fail.
#[verifier::external_body]
pub(crate) fn write_empty(w: &mut quick_xml::Writer<Vec<u8>>, e: quick_xml::events::BytesStart<'static>)
    ensures
        writer_log(*final(w)) == writer_log(*old(w)).push(
            (ParseEventView::SelfClosed { name: start_name_view(e), attrs: start_attrs_view(e) }),
        ),
{
    w.write_event(quick_xml::events::Event::Empty(e)).unwrap();
}

/// Relies on `Writer::write_event` with a `Text` event built by
/// `BytesText::new`, which escapes the content; writing into a byte vector
/// cannot fail.
#[verifier::external_body]
pub(crate) fn write_text(w: &mut quick_xml::Writer<Vec<u8>>, text: &str)
    ensures
        writer_log(*final(w)) == writer_log(*old(w)).push(
            (ParseEventView::Chars { text: text@ }),
        ),
{
    let t = quick_xml::events::BytesText::new(text);
    w.write_event(quick_xml::events::Event::Text(t)).unwrap();
}

/// Relies on `Writer::write_event` with an `End` event built by
/// `BytesEnd::new`; writing into a byte vector cannot fail.
#[verifier::external_body]
pub(crate) fn write_close(w: &mut quick_xml::Writer<Vec<u8>>, name: &str)
    ensures
        writer_log(*final(w)) == writer_log(*old(w)).push(
            (ParseEventView::Close { name: name@ }),
        ),
{
    let e = quick_xml::events::BytesEnd::new(String::from(name));
    w.write_event(quick_xml::events::Event::End(e)).unwrap();
}

/// Relies on `Writer::into_inner`: the accumulated output bytes.
#[verifier::external_body]
pub(crate) fn writer_bytes(w: quick_xml::Writer<Vec<u8>>) -> (r: Vec<u8>)
    ensures
        r@ == rendered(writer_log(w)),
{
    w.into_inner()
}

} // verus!
