//! Reading an XML document into a [`Value`]: the events of `quick-xml`'s
//! namespace-aware reader are folded into element values.

use vstd::prelude::*;

use std::collections::VecDeque;
use vstd::utf8::{decode_utf8, valid_utf8};
use vstd::string::StringSliceAdditionalSpecFns;

use quick_xml::escape::{resolve_predefined_entity, unescape};
use quick_xml::events::{BytesRef, Event};
use quick_xml::name::ResolveResult;
use quick_xml::NsReader;

use super::value::{
    spec_get, spec_insert_raw, value_model, ElementName, NameKey, Value, ValueMap, ValueModel,
};
use super::{result_model, FromValue, XmlError};
use crate::text::{char_is_whitespace, chars_of, is_whitespace, push_all, string_of};

verus! {

#[verifier::external_type_specification]
#[verifier::external_body]
#[verifier::reject_recursive_types(R)]
pub struct ExNsReader<R>(NsReader<R>);

#[verifier::external_type_specification]
#[verifier::external_body]
pub struct ExEvent<'i>(Event<'i>);

/// How the namespace of an element name was resolved.
#[derive(Debug)]
pub enum Resolution {
    /// The prefix (or the default namespace) is bound to this URI.
    Bound(String),
    /// The name has no prefix and no default namespace is declared.
    Unbound,
    /// The prefix is not declared.
    Unknown(String),
}

/// One event of the reader, with its text as it stands in the document.
#[derive(Debug)]
pub enum XmlEvent {
    /// An opening tag, with its qualified name.
    Start(String),
    /// A self-closing tag, with its qualified name.
    Empty(String),
    /// A closing tag, with its qualified name.
    End(String),
    /// Character data, still escaped.
    Text(String),
    /// The content of a CDATA section.
    CData(String),
    /// An entity or character reference, without `&` and `;`.
    GeneralRef(String),
    /// A comment.
    Comment,
    /// The XML declaration.
    Decl,
    /// A processing instruction.
    PI,
    /// A document type declaration.
    DocType,
    /// The end of the document.
    Eof,
}

/// One step of the reader: the resolved namespace and the event, or the
/// tokenizer's failure.
pub type XmlStep = Result<(Resolution, XmlEvent), XmlError>;

/// The steps `NsReader::from_str` hands out for the document `xml`, one per
/// call of `read_resolved_event`, up to and including the first failure or
/// the end of the document.
pub uninterp spec fn document_events(xml: Seq<char>) -> Seq<XmlStep>;

/// The steps a reader has still to hand out, up to and including the first
/// failure or the end of the document.
pub uninterp spec fn pending_events(reader: NsReader<&[u8]>) -> Seq<XmlStep>;

/// Whether a step ends the stream: a failure, or the end of the document.
pub open spec fn ends_stream(step: XmlStep) -> bool {
    match step {
        Err(_) => true,
        Ok((_, XmlEvent::Eof)) => true,
        _ => false,
    }
}

/// A stream of steps: finite, ending with its first failure or end of the
/// document.
pub open spec fn is_event_stream(s: Seq<XmlStep>) -> bool {
    &&& s.len() > 0
    &&& ends_stream(s.last())
    &&& forall|i: int| 0 <= i < s.len() - 1 ==> !ends_stream(#[trigger] s[i])
}

/// `NsReader::from_str`: a reader over `xml` with the default
/// configuration. Claimed: it hands out the steps of `xml`, and they form a
/// stream, since every event but the end of the document consumes input.
#[verifier::external_body]
fn open_reader<'x>(xml: &'x str) -> (reader: NsReader<&'x [u8]>)
    ensures
        pending_events(reader) == document_events(xml@),
        is_event_stream(pending_events(reader)),
{
    NsReader::from_str(xml)
}

/// The event as a plain value: the qualified name of a tag, the text of
/// character data, a CDATA section or a reference; only the kind of the
/// rest.
#[verifier::external_body]
fn event_of<'x>(event: Event<'x>) -> XmlEvent {
    match event {
        Event::Start(t) => XmlEvent::Start(t.name().0.to_string()),
        Event::Empty(t) => XmlEvent::Empty(t.name().0.to_string()),
        Event::End(t) => XmlEvent::End(t.name().0.to_string()),
        Event::Text(t) => XmlEvent::Text(t.to_string()),
        Event::CData(t) => XmlEvent::CData(t.to_string()),
        Event::GeneralRef(t) => XmlEvent::GeneralRef(t.to_string()),
        Event::Comment(_) => XmlEvent::Comment,
        Event::Decl(_) => XmlEvent::Decl,
        Event::PI(_) => XmlEvent::PI,
        Event::DocType(_) => XmlEvent::DocType,
        Event::Eof => XmlEvent::Eof,
    }
}

/// `NsReader::read_resolved_event`: the next step of the reader, which
/// moves past it. Claimed: it is the first of the pending steps.
#[verifier::external_body]
fn next_event<'x>(reader: &mut NsReader<&'x [u8]>) -> (step: XmlStep)
    ensures
        pending_events(*old(reader)).len() > 0 ==> step == pending_events(*old(reader))[0],
        pending_events(*old(reader)).len() > 0 ==> pending_events(*final(reader))
            == pending_events(*old(reader)).drop_first(),
{
    match reader.read_resolved_event() {
        Ok((ResolveResult::Bound(ns), event)) => {
            Ok((Resolution::Bound(ns.0.to_string()), event_of(event)))
        },
        Ok((ResolveResult::Unbound, event)) => Ok((Resolution::Unbound, event_of(event))),
        Ok((ResolveResult::Unknown(prefix), event)) => {
            Ok((Resolution::Unknown(prefix), event_of(event)))
        },
        Err(_) => Err(XmlError::Xml),
    }
}

/// The text `quick_xml::escape::unescape` makes of `raw`: references
/// replaced by what they stand for, or `None` when it fails.
pub uninterp spec fn unescaped(raw: Seq<char>) -> Option<Seq<char>>;

/// `quick_xml::escape::unescape`: text without `&` holds no reference and
/// comes back unchanged.
#[verifier::external_body]
fn unescape_text(raw: &str) -> (r: Result<String, XmlError>)
    ensures
        match r {
            Ok(s) => unescaped(raw@) == Some(s@) && (!raw@.contains('&') ==> s@ == raw@),
            Err(e) => unescaped(raw@) is None && e == XmlError::Xml && raw@.contains('&'),
        },
{
    match unescape(raw) {
        Ok(text) => Ok(text.into_owned()),
        Err(_) => Err(XmlError::Xml),
    }
}

/// What `BytesRef::resolve_char_ref` gives for the reference `content`:
/// `Some(Some(c))` for a character reference to `c`, `Some(None)` for a
/// reference that is not a character reference, `None` when the number is
/// invalid.
pub uninterp spec fn char_reference(content: Seq<char>) -> Option<Option<char>>;

/// `BytesRef::resolve_char_ref` on the reference `content`: a reference
/// that does not start with `#` is no character reference.
#[verifier::external_body]
fn resolve_char_ref(content: &str) -> (r: Result<Option<char>, XmlError>)
    ensures
        match r {
            Ok(c) => char_reference(content@) == Some(c),
            Err(e) => char_reference(content@) is None && e == XmlError::Xml,
        },
        !(content@.len() > 0 && content@[0] == '#') ==> r matches Ok(None),
{
    match BytesRef::new(content).resolve_char_ref() {
        Ok(c) => Ok(c),
        Err(_) => Err(XmlError::Xml),
    }
}

/// The five entities XML predefines, and what they stand for.
pub open spec fn predefined_entity(name: Seq<char>) -> Option<Seq<char>> {
    if name == seq!['l', 't'] {
        Some(seq!['<'])
    } else if name == seq!['g', 't'] {
        Some(seq!['>'])
    } else if name == seq!['a', 'm', 'p'] {
        Some(seq!['&'])
    } else if name == seq!['a', 'p', 'o', 's'] {
        Some(seq!['\''])
    } else if name == seq!['q', 'u', 'o', 't'] {
        Some(seq!['"'])
    } else {
        None
    }
}

/// `quick_xml::escape::resolve_predefined_entity` (built without HTML
/// entities): the replacement text of a predefined entity.
#[verifier::external_body]
fn predefined_entity_text(name: &str) -> (r: Option<&'static str>)
    ensures
        match r {
            Some(t) => predefined_entity(name@) == Some(t@),
            None => predefined_entity(name@) is None,
        },
{
    resolve_predefined_entity(name)
}

/// `std::str::from_utf8`: the text `bytes` encode, when they are valid
/// UTF-8.
#[verifier::external_body]
fn utf8_text(bytes: &[u8]) -> (r: Result<&str, XmlError>)
    ensures
        r is Ok <==> valid_utf8(bytes@),
        match r {
            Ok(s) => s.spec_bytes() == bytes@,
            Err(e) => e == XmlError::Utf8,
        },
{
    match std::str::from_utf8(bytes) {
        Ok(s) => Ok(s),
        Err(_) => Err(XmlError::Utf8),
    }
}

/// Whether every character of `s` is white space.
pub open spec fn all_whitespace(s: Seq<char>) -> bool {
    forall|i: int| 0 <= i < s.len() ==> is_whitespace(#[trigger] s[i])
}

/// The index of the first `:` of `s`.
pub open spec fn colon_index(s: Seq<char>) -> Option<nat>
    decreases s.len(),
{
    if s.len() == 0 {
        None
    } else if s[0] == ':' {
        Some(0)
    } else {
        match colon_index(s.drop_first()) {
            Some(i) => Some(i + 1),
            None => None,
        }
    }
}

/// The local part of a qualified name: what follows its first `:`, or the
/// whole name.
pub open spec fn local_part(name: Seq<char>) -> Seq<char> {
    match colon_index(name) {
        Some(i) => name.skip(i + 1int),
        None => name,
    }
}

/// The key an element is stored under: its namespace and local name when
/// the namespace is bound, its qualified name otherwise; a prefix bound to
/// an empty URI is an error.
pub open spec fn element_key(ns: Resolution, name: Seq<char>) -> Result<NameKey, XmlError> {
    match ns {
        Resolution::Bound(uri) => if uri@.len() == 0 {
            Err(XmlError::InvalidNamespace)
        } else {
            Ok((Some(uri@), local_part(name)))
        },
        _ => Ok((None, name)),
    }
}

/// The text that character data `raw` stands for: itself when it holds no
/// `&`, else what `quick_xml::escape::unescape` makes of it (`None` when
/// that fails).
pub open spec fn unescape_model(raw: Seq<char>) -> Option<Seq<char>> {
    if raw.contains('&') {
        unescaped(raw)
    } else {
        Some(raw)
    }
}

/// Whether the steps `s` go on with a CDATA section or a reference: white
/// space just before one of them belongs to a text node.
pub open spec fn continues_text(s: Seq<XmlStep>) -> bool {
    &&& s.len() > 0
    &&& (s[0] matches Ok((_, XmlEvent::CData(_))) || s[0] matches Ok((_, XmlEvent::GeneralRef(_))))
}

/// The event of a step that is not a failure.
pub open spec fn step_event(step: XmlStep) -> Option<XmlEvent> {
    match step {
        Ok((_, ev)) => Some(ev),
        Err(_) => None,
    }
}

/// Whether `step` is the closing tag named `name`.
pub open spec fn closes(step: XmlStep, name: Seq<char>) -> bool {
    match step {
        Ok((_, XmlEvent::End(e))) => e@ == name,
        _ => false,
    }
}

/// What a reference inside character data stands for: the character of a
/// character reference, or the text of a predefined entity.
pub open spec fn reference_text(content: Seq<char>) -> Result<Seq<char>, XmlError> {
    match char_reference(content) {
        None => Err(XmlError::Xml),
        Some(Some(c)) => Ok(seq![c]),
        Some(None) => match predefined_entity(content) {
            Some(t) => Ok(t),
            None => Err(XmlError::UnknownEntity),
        },
    }
}

/// What an event adds to a text node being read: `None` when the text
/// ends with it, the characters it contributes, or the error it is.
pub open spec fn text_chunk(ev: XmlEvent) -> Option<Result<Seq<char>, XmlError>> {
    match ev {
        XmlEvent::Text(t) => Some(
            match unescape_model(t@) {
                Some(u) => Ok(u),
                None => Err(XmlError::Xml),
            },
        ),
        XmlEvent::CData(t) => Some(Ok(t@)),
        XmlEvent::GeneralRef(r) => Some(reference_text(r@)),
        XmlEvent::Comment => Some(Ok(Seq::empty())),
        XmlEvent::PI => Some(Ok(Seq::empty())),
        XmlEvent::End(_) => None,
        XmlEvent::Eof => None,
        _ => Some(Err(XmlError::UnexpectedTag)),
    }
}

/// Reading the rest of a text node from the steps `s`: the characters it
/// still holds, or the first error; and the number of steps consumed.
pub open spec fn text_tail(s: Seq<XmlStep>) -> (Result<Seq<char>, XmlError>, nat)
    decreases s.len(),
{
    if s.len() == 0 {
        (Ok(Seq::empty()), 0)
    } else {
        match s[0] {
            Err(e) => (Err(e), 1),
            Ok((_, ev)) => match text_chunk(ev) {
                None => (Ok(Seq::empty()), 1),
                Some(Err(e)) => (Err(e), 1),
                Some(Ok(c)) => {
                    let rest = text_tail(s.drop_first());
                    (
                        match rest.0 {
                            Ok(t) => Ok(c + t),
                            Err(e) => Err(e),
                        },
                        rest.1 + 1,
                    )
                },
            },
        }
    }
}

/// A text node that starts with `head` and goes on with the steps `rest`:
/// its text, or the first error; and the number of steps consumed, the
/// step that gave `head` included.
pub open spec fn text_value(head: Seq<char>, rest: Seq<XmlStep>) -> (Result<ValueModel, XmlError>, nat) {
    let r = text_tail(rest);
    (
        match r.0 {
            Ok(tail) => Ok(ValueModel::Text(head + tail)),
            Err(e) => Err(e),
        },
        r.1 + 1,
    )
}

/// Reading the content of an element from the steps `s`, with the child
/// elements `acc` read so far: the element's value, or the first error;
/// and the number of steps consumed. White-space text between elements is
/// skipped, unless a CDATA section or a reference follows it; other
/// character data, a CDATA section or a reference makes
/// the element a text node that holds all of its pieces; and every child
/// element must be closed by a tag of its own name.
pub open spec fn read_entries(s: Seq<XmlStep>, acc: Seq<(NameKey, ValueModel)>) -> (
    Result<ValueModel, XmlError>,
    nat,
)
    decreases s.len(), 0nat,
{
    if s.len() == 0 {
        (Ok(ValueModel::Elements(acc)), 0)
    } else {
        match s[0] {
            Err(e) => (Err(e), 1),
            Ok((ns, ev)) => match ev {
                XmlEvent::Text(t) => if all_whitespace(t@) && !continues_text(s.drop_first()) {
                    let r = read_entries(s.drop_first(), acc);
                    (r.0, r.1 + 1)
                } else {
                    match unescape_model(t@) {
                        None => (Err(XmlError::Xml), 1),
                        Some(head) => text_value(head, s.drop_first()),
                    }
                },
                XmlEvent::Start(name) => match element_key(ns, name@) {
                    Err(e) => (Err(e), 1),
                    Ok(key) => {
                        let child = read_value(s.drop_first());
                        match child.0 {
                            Err(e) => (Err(e), child.1 + 1),
                            Ok(v) => if 1 <= child.1 < s.len() && closes(s[child.1 as int], name@) {
                                let r = read_entries(
                                    s.skip(child.1 + 1int),
                                    spec_insert_raw(acc, key, v),
                                );
                                (r.0, r.1 + child.1 + 1)
                            } else {
                                (Err(XmlError::UnexpectedTag), child.1 + 1)
                            },
                        }
                    },
                },
                XmlEvent::Empty(name) => match element_key(ns, name@) {
                    Err(e) => (Err(e), 1),
                    Ok(key) => {
                        let r = read_entries(
                            s.drop_first(),
                            spec_insert_raw(acc, key, ValueModel::Empty),
                        );
                        (r.0, r.1 + 1)
                    },
                },
                XmlEvent::End(_) => (Ok(ValueModel::Elements(acc)), 1),
                XmlEvent::Eof => (Ok(ValueModel::Elements(acc)), 1),
                XmlEvent::CData(t) => text_value(t@, s.drop_first()),
                XmlEvent::GeneralRef(r) => match reference_text(r@) {
                    Err(e) => (Err(e), 1),
                    Ok(head) => text_value(head, s.drop_first()),
                },
                _ => {
                    let r = read_entries(s.drop_first(), acc);
                    (r.0, r.1 + 1)
                },
            },
        }
    }
}

/// Reading the content of an element from the steps `s`.
pub open spec fn read_value(s: Seq<XmlStep>) -> (Result<ValueModel, XmlError>, nat)
    decreases s.len(), 1nat,
{
    read_entries(s, Seq::empty())
}

/// The model of a read value, or the error.
pub open spec fn value_result(r: Result<Value, XmlError>) -> Result<ValueModel, XmlError> {
    match r {
        Ok(v) => Ok(value_model(v)),
        Err(e) => Err(e),
    }
}

/// What reading the document `xml` gives: a UTF-8 error, or the value of
/// its content.
pub open spec fn spec_read_xml(xml: Seq<u8>) -> Result<ValueModel, XmlError> {
    if valid_utf8(xml) {
        read_value(document_events(decode_utf8(xml))).0
    } else {
        Err(XmlError::Utf8)
    }
}

/// What a step contributes to a text node without any lookup: a CDATA
/// section its content, a comment or processing instruction nothing.
pub open spec fn literal_chunk(step: XmlStep) -> Option<Seq<char>> {
    match step {
        Ok((_, XmlEvent::CData(t))) => Some(t@),
        Ok((_, XmlEvent::Comment)) => Some(Seq::empty()),
        Ok((_, XmlEvent::PI)) => Some(Seq::empty()),
        _ => None,
    }
}

/// The concatenation of the literal chunks of `s`.
pub open spec fn literal_text(s: Seq<XmlStep>) -> Seq<char>
    decreases s.len(),
{
    if s.len() == 0 {
        Seq::empty()
    } else {
        match literal_chunk(s[0]) {
            Some(c) => c + literal_text(s.drop_first()),
            None => Seq::empty(),
        }
    }
}

/// However character data is split into CDATA sections, with comments and
/// processing instructions between them, the text read up to the closing
/// tag is their concatenation, and the closing tag is the last step read.
pub proof fn lemma_split_text_is_joined(s: Seq<XmlStep>, end: XmlStep)
    requires
        forall|i: int| 0 <= i < s.len() ==> (#[trigger] literal_chunk(s[i])) is Some,
        end matches Ok((_, XmlEvent::End(_))),
    ensures
        text_tail(s.push(end)) == (Ok::<Seq<char>, XmlError>(literal_text(s)), s.len() + 1),
    decreases s.len(),
{
    let t = s.push(end);
    if s.len() == 0 {
        assert(t[0] == end);
    } else {
        assert(t[0] == s[0]);
        assert(t.drop_first() =~= s.drop_first().push(end));
        assert forall|i: int| 0 <= i < s.drop_first().len() implies (#[trigger] literal_chunk(
            s.drop_first()[i],
        )) is Some by {
            assert(s.drop_first()[i] == s[i + 1]);
        }
        lemma_split_text_is_joined(s.drop_first(), end);
        assert(literal_chunk(s[0]) is Some);
    }
}

/// `f` renames the prefixes of qualified names: it keeps the local part
/// of every name, and no two names get the same new name.
pub open spec fn renames_prefixes(f: spec_fn(Seq<char>) -> Seq<char>) -> bool {
    &&& forall|a: Seq<char>, b: Seq<char>| #[trigger] f(a) == #[trigger] f(b) ==> a == b
    &&& forall|a: Seq<char>| local_part(#[trigger] f(a)) == local_part(a)
}

/// Two resolutions of the same kind, bound to the same URI when bound.
pub open spec fn same_resolution(x: Resolution, y: Resolution) -> bool {
    match x {
        Resolution::Bound(u) => y matches Resolution::Bound(v) && v@ == u@,
        Resolution::Unbound => y is Unbound,
        Resolution::Unknown(_) => y is Unknown,
    }
}

/// An element name resolved as `ns` keeps its whole name under `f` unless
/// it is bound to a namespace: only prefixes bound to a URI are renamed.
pub open spec fn name_kept(ns: Resolution, name: Seq<char>, f: spec_fn(Seq<char>) -> Seq<char>) -> bool {
    match ns {
        Resolution::Bound(_) => true,
        _ => f(name) == name,
    }
}

/// The event `y` is `x` with its element name renamed by `f`, and every
/// other event is the same.
pub open spec fn renamed_event(
    ns: Resolution,
    x: XmlEvent,
    y: XmlEvent,
    f: spec_fn(Seq<char>) -> Seq<char>,
) -> bool {
    match x {
        XmlEvent::Start(a) => y matches XmlEvent::Start(b) && b@ == f(a@) && name_kept(ns, a@, f),
        XmlEvent::Empty(a) => y matches XmlEvent::Empty(b) && b@ == f(a@) && name_kept(ns, a@, f),
        XmlEvent::End(a) => y matches XmlEvent::End(b) && b@ == f(a@),
        XmlEvent::Text(a) => y matches XmlEvent::Text(b) && b@ == a@,
        XmlEvent::CData(a) => y matches XmlEvent::CData(b) && b@ == a@,
        XmlEvent::GeneralRef(a) => y matches XmlEvent::GeneralRef(b) && b@ == a@,
        XmlEvent::Comment => y is Comment,
        XmlEvent::Decl => y is Decl,
        XmlEvent::PI => y is PI,
        XmlEvent::DocType => y is DocType,
        XmlEvent::Eof => y is Eof,
    }
}

/// The step `y` is `x` with the prefixes of its names renamed by `f`.
pub open spec fn renamed_step(x: XmlStep, y: XmlStep, f: spec_fn(Seq<char>) -> Seq<char>) -> bool {
    match x {
        Err(e) => y == Err::<(Resolution, XmlEvent), XmlError>(e),
        Ok((ns, ev)) => match y {
            Ok((ns2, ev2)) => same_resolution(ns, ns2) && renamed_event(ns, ev, ev2, f),
            Err(_) => false,
        },
    }
}

/// The steps `t` are the steps `s` with the prefixes of their names
/// renamed by `f`, step for step.
pub open spec fn renamed_steps(s: Seq<XmlStep>, t: Seq<XmlStep>, f: spec_fn(Seq<char>) -> Seq<char>) -> bool {
    &&& s.len() == t.len()
    &&& forall|i: int| 0 <= i < s.len() ==> renamed_step(#[trigger] s[i], t[i], f)
}

proof fn lemma_renamed_skip(s: Seq<XmlStep>, t: Seq<XmlStep>, f: spec_fn(Seq<char>) -> Seq<char>, k: int)
    requires
        renamed_steps(s, t, f),
        0 <= k <= s.len(),
    ensures
        renamed_steps(s.skip(k), t.skip(k), f),
{
    assert forall|i: int| 0 <= i < s.skip(k).len() implies renamed_step(
        #[trigger] s.skip(k)[i],
        t.skip(k)[i],
        f,
    ) by {
        assert(s.skip(k)[i] == s[i + k]);
        assert(t.skip(k)[i] == t[i + k]);
    }
}

proof fn lemma_renamed_text_tail(s: Seq<XmlStep>, t: Seq<XmlStep>, f: spec_fn(Seq<char>) -> Seq<char>)
    requires
        renamed_steps(s, t, f),
    ensures
        text_tail(s) == text_tail(t),
    decreases s.len(),
{
    if s.len() > 0 {
        assert(renamed_step(s[0], t[0], f));
        lemma_renamed_skip(s, t, f, 1);
        assert(s.skip(1) =~= s.drop_first());
        assert(t.skip(1) =~= t.drop_first());
        lemma_renamed_text_tail(s.drop_first(), t.drop_first(), f);
    }
}

proof fn lemma_renamed_read_entries(
    s: Seq<XmlStep>,
    t: Seq<XmlStep>,
    f: spec_fn(Seq<char>) -> Seq<char>,
    acc: Seq<(NameKey, ValueModel)>,
)
    requires
        renames_prefixes(f),
        renamed_steps(s, t, f),
    ensures
        read_entries(s, acc) == read_entries(t, acc),
    decreases s.len(),
{
    if s.len() > 0 {
        assert(renamed_step(s[0], t[0], f));
        lemma_renamed_skip(s, t, f, 1);
        assert(s.skip(1) =~= s.drop_first());
        assert(t.skip(1) =~= t.drop_first());
        match s[0] {
            Err(_) => {},
            Ok((ns, ev)) => {
                let (ns2, ev2) = t[0]->Ok_0;
                match ev {
                    XmlEvent::Text(_) => {
                        lemma_renamed_read_entries(s.drop_first(), t.drop_first(), f, acc);
                        lemma_renamed_text_tail(s.drop_first(), t.drop_first(), f);
                    },
                    XmlEvent::CData(_) => {
                        lemma_renamed_text_tail(s.drop_first(), t.drop_first(), f);
                    },
                    XmlEvent::GeneralRef(_) => {
                        lemma_renamed_text_tail(s.drop_first(), t.drop_first(), f);
                    },
                    XmlEvent::Start(a) => {
                        let b = ev2->Start_0;
                        assert(local_part(f(a@)) == local_part(a@));
                        assert(element_key(ns, a@) == element_key(ns2, b@));
                        lemma_renamed_read_entries(s.drop_first(), t.drop_first(), f, Seq::empty());
                        assert(read_value(s.drop_first()) == read_value(t.drop_first()));
                        let child = read_value(s.drop_first());
                        if child.0 is Ok && 1 <= child.1 < s.len() {
                            let c = child.1 as int;
                            assert(renamed_step(s[c], t[c], f));
                            assert(closes(s[c], a@) == closes(t[c], b@)) by {
                                match s[c] {
                                    Ok((_, XmlEvent::End(e))) => {
                                        let e2 = t[c]->Ok_0.1->End_0;
                                        assert(e2@ == f(e@));
                                        if f(e@) == f(a@) {
                                            assert(e@ == a@);
                                        }
                                    },
                                    _ => {},
                                }
                            }
                            lemma_renamed_skip(s, t, f, c + 1);
                            if let Ok(key) = element_key(ns, a@) {
                                lemma_renamed_read_entries(
                                    s.skip(c + 1),
                                    t.skip(c + 1),
                                    f,
                                    spec_insert_raw(acc, key, child.0->Ok_0),
                                );
                            }
                        }
                    },
                    XmlEvent::Empty(a) => {
                        let b = ev2->Empty_0;
                        assert(local_part(f(a@)) == local_part(a@));
                        assert(element_key(ns, a@) == element_key(ns2, b@));
                        if let Ok(key) = element_key(ns, a@) {
                            lemma_renamed_read_entries(
                                s.drop_first(),
                                t.drop_first(),
                                f,
                                spec_insert_raw(acc, key, ValueModel::Empty),
                            );
                        }
                    },
                    XmlEvent::End(_) => {},
                    XmlEvent::Eof => {},
                    _ => {
                        lemma_renamed_read_entries(s.drop_first(), t.drop_first(), f, acc);
                    },
                }
            },
        }
    }
}

/// Renaming the prefixes that are bound to namespaces changes nothing that
/// is read: two event streams that differ only in those prefixes, their
/// declarations included, read to the same value, or fail alike, since an
/// element is keyed by its namespace and local name, never its prefix.
pub proof fn lemma_prefix_renaming_reads_alike(
    s: Seq<XmlStep>,
    t: Seq<XmlStep>,
    f: spec_fn(Seq<char>) -> Seq<char>,
)
    requires
        renames_prefixes(f),
        renamed_steps(s, t, f),
    ensures
        read_value(s) == read_value(t),
{
    lemma_renamed_read_entries(s, t, f, Seq::empty());
}

/// Two documents whose events differ only in the prefixes bound to
/// namespaces read to the same value.
pub proof fn lemma_prefix_renamed_documents_read_alike(
    x: Seq<u8>,
    y: Seq<u8>,
    f: spec_fn(Seq<char>) -> Seq<char>,
)
    requires
        valid_utf8(x),
        valid_utf8(y),
        renames_prefixes(f),
        renamed_steps(document_events(decode_utf8(x)), document_events(decode_utf8(y)), f),
    ensures
        spec_read_xml(x) == spec_read_xml(y),
{
    lemma_renamed_read_entries(
        document_events(decode_utf8(x)),
        document_events(decode_utf8(y)),
        f,
        Seq::empty(),
    );
}

/// Whether every character of `t` is white space.
fn is_whitespace_text(t: &str) -> (r: bool)
    ensures
        r == all_whitespace(t@),
{
    let cs = chars_of(t);
    let n = cs.len();
    for i in 0..n
        invariant
            n == cs@.len(),
            cs@ == t@,
            forall|j: int| 0 <= j < i ==> is_whitespace(#[trigger] cs@[j]),
    {
        if !char_is_whitespace(cs[i]) {
            return false;
        }
    }
    true
}

/// The local part of a qualified name, as `QName::local_name` takes it.
fn local_name_of(name: &str) -> (r: String)
    ensures
        r@ == local_part(name@),
{
    let cs = chars_of(name);
    let n = cs.len();
    let mut i: usize = 0;
    assert(name@.skip(0) =~= name@);
    while i < n
        invariant
            n == cs@.len(),
            cs@ == name@,
            i <= n,
            forall|j: int| 0 <= j < i ==> cs@[j] != ':',
            colon_index(name@) == match colon_index(name@.skip(i as int)) {
                Some(k) => Some((k + i) as nat),
                None => None,
            },
        decreases n - i,
    {
        if cs[i] == ':' {
            assert(colon_index(name@.skip(i as int)) == Some(0nat));
            let mut rest: Vec<char> = Vec::new();
            push_all(&mut rest, cs.as_slice().split_at(i + 1).1);
            proof {
                assert(rest@ =~= name@.skip(i + 1));
            }
            return string_of(rest.as_slice());
        }
        assert(name@.skip(i as int).drop_first() =~= name@.skip(i + 1));
        i = i + 1;
    }
    assert(name@.skip(n as int).len() == 0);
    string_of(cs.as_slice())
}

/// The text a reference inside character data stands for.
fn resolve_reference(content: &str) -> (r: Result<String, XmlError>)
    ensures
        match r {
            Ok(t) => reference_text(content@) == Ok::<Seq<char>, XmlError>(t@),
            Err(e) => reference_text(content@) == Err::<Seq<char>, XmlError>(e),
        },
{
    match resolve_char_ref(content) {
        Err(e) => Err(e),
        Ok(Some(c)) => {
            let mut one: Vec<char> = Vec::new();
            one.push(c);
            Ok(string_of(one.as_slice()))
        },
        Ok(None) => match predefined_entity_text(content) {
            Some(t) => Ok(t.to_string()),
            None => Err(XmlError::UnknownEntity),
        },
    }
}

/// Copies an event.
fn copy_event(e: &XmlEvent) -> (r: XmlEvent)
    ensures
        r == *e,
{
    match e {
        XmlEvent::Start(n) => XmlEvent::Start(n.clone()),
        XmlEvent::Empty(n) => XmlEvent::Empty(n.clone()),
        XmlEvent::End(n) => XmlEvent::End(n.clone()),
        XmlEvent::Text(t) => XmlEvent::Text(t.clone()),
        XmlEvent::CData(t) => XmlEvent::CData(t.clone()),
        XmlEvent::GeneralRef(t) => XmlEvent::GeneralRef(t.clone()),
        XmlEvent::Comment => XmlEvent::Comment,
        XmlEvent::Decl => XmlEvent::Decl,
        XmlEvent::PI => XmlEvent::PI,
        XmlEvent::DocType => XmlEvent::DocType,
        XmlEvent::Eof => XmlEvent::Eof,
    }
}

/// The key of an element with a resolved namespace and a qualified name.
fn key(ns: &Resolution, name: &String) -> (r: Result<ElementName, XmlError>)
    ensures
        match r {
            Ok(k) => element_key(*ns, name@) == Ok::<NameKey, XmlError>(super::value::name_key(k)),
            Err(e) => element_key(*ns, name@) == Err::<NameKey, XmlError>(e),
        },
{
    match ns {
        Resolution::Bound(uri) => {
            if uri.as_str().is_empty() {
                return Err(XmlError::InvalidNamespace);
            }
            Ok(ElementName { namespace: Some(uri.clone()), local_name: local_name_of(name.as_str()) })
        },
        _ => Ok(ElementName { namespace: None, local_name: name.clone() }),
    }
}

/// The event the reader last read, after `n` more steps of `s` were read
/// from a reader whose last event was `last` (a failed step reads no
/// event).
pub open spec fn last_after(last: Option<XmlEvent>, s: Seq<XmlStep>, n: int) -> Option<XmlEvent> {
    if n == 0 {
        last
    } else {
        step_event(s[n - 1])
    }
}

/// A reader of element values over the steps of a document; it keeps the
/// last event it read.
struct XmlReader {
    steps: VecDeque<XmlStep>,
    last: Option<XmlEvent>,
}

impl XmlReader {
    /// The steps still to be read.
    spec fn pending(&self) -> Seq<XmlStep> {
        self.steps@
    }

    fn new(steps: VecDeque<XmlStep>) -> (r: Self)
        ensures
            r.pending() == steps@,
            r.last is None,
    {
        XmlReader { steps, last: None }
    }

    /// Whether the next step is a CDATA section or a reference.
    fn text_follows(&self) -> (r: bool)
        ensures
            r == continues_text(self.pending()),
    {
        if self.steps.len() == 0 {
            return false;
        }
        match &self.steps[0] {
            Ok((_, XmlEvent::CData(_))) => true,
            Ok((_, XmlEvent::GeneralRef(_))) => true,
            _ => false,
        }
    }

    fn last(&self) -> (r: Option<&XmlEvent>)
        ensures
            match r {
                Some(e) => self.last == Some(*e),
                None => self.last is None,
            },
    {
        match &self.last {
            Some(e) => Some(e),
            None => None,
        }
    }

    /// Takes the next step and remembers its event; `None` when no step is
    /// left.
    fn read_resolved_event(&mut self) -> (step: Option<XmlStep>)
        ensures
            old(self).pending().len() == 0 ==> step is None && final(self).pending() == old(
                self,
            ).pending() && final(self).last == old(self).last,
            old(self).pending().len() > 0 ==> step == Some(old(self).pending()[0])
                && final(self).pending() == old(self).pending().drop_first(),
            old(self).pending().len() > 0 && old(self).pending()[0] is Ok ==> final(self).last
                == step_event(old(self).pending()[0]),
    {
        match self.steps.pop_front() {
            None => None,
            Some(step) => {
                assert(self.steps@ =~= old(self).steps@.drop_first());
                match &step {
                    Ok((_, ev)) => {
                        self.last = Some(copy_event(ev));
                    },
                    Err(_) => {},
                }
                Some(step)
            },
        }
    }

    /// Reads the rest of a text node that starts with `head`: character
    /// data, CDATA sections and references up to the closing tag, with
    /// comments and processing instructions left out.
    fn read_trailing_text(&mut self, head: String) -> (r: Result<String, XmlError>)
        ensures
            ({
                let t = text_tail(old(self).pending());
                &&& t.1 <= old(self).pending().len()
                &&& final(self).pending() == old(self).pending().skip(t.1 as int)
                &&& match r {
                    Ok(s) => t.0 matches Ok(tail) && s@ == head@ + tail,
                    Err(e) => t.0 == Err::<Seq<char>, XmlError>(e),
                }
                &&& r is Ok ==> final(self).last == last_after(
                    old(self).last,
                    old(self).pending(),
                    t.1 as int,
                )
            }),
    {
        let ghost s0 = self.pending();
        let ghost mut k: int = 0;
        let ghost mut n: int = 0;
        let ghost mut got: Seq<char> = Seq::empty();
        let mut text: Vec<char> = chars_of(head.as_str());
        assert(s0.skip(0) =~= s0);
        proof {
            match text_tail(s0).0 {
                Ok(x) => {
                    assert(got + x =~= x);
                },
                Err(_) => {},
            }
        }
        loop
            invariant_except_break
                self.pending() == s0.skip(k),
                ({
                    let t = text_tail(s0.skip(k));
                    text_tail(s0) == (
                        match t.0 {
                            Ok(x) => Ok(got + x),
                            Err(e) => Err(e),
                        },
                        (t.1 + k) as nat,
                    )
                }),
                self.last == last_after(old(self).last, s0, k),
            invariant
                old(self).pending() == s0,
                0 <= k <= s0.len(),
                text@ == head@ + got,
            ensures
                0 <= n <= s0.len(),
                self.pending() == s0.skip(n),
                text@ == head@ + got,
                text_tail(s0) == (Ok::<Seq<char>, XmlError>(got), n as nat),
                self.last == last_after(old(self).last, s0, n),
            decreases s0.len() - k,
        {
            let ghost rest = s0.skip(k);
            let step = match self.read_resolved_event() {
                None => {
                    proof {
                        assert(got + Seq::<char>::empty() =~= got);
                        n = k;
                    }
                    break ;
                },
                Some(step) => step,
            };
            assert(rest.drop_first() =~= s0.skip(k + 1));
            assert(rest[0] == s0[k]);
            let ev = match step {
                Err(e) => {
                    return Err(e);
                },
                Ok((_, ev)) => ev,
            };
            let chunk: Option<Vec<char>> = match &ev {
                XmlEvent::Text(t) => match unescape_text(t.as_str()) {
                    Ok(u) => Some(chars_of(u.as_str())),
                    Err(e) => {
                        return Err(e);
                    },
                },
                XmlEvent::CData(t) => Some(chars_of(t.as_str())),
                XmlEvent::GeneralRef(reference) => match resolve_reference(reference.as_str()) {
                    Ok(t) => Some(chars_of(t.as_str())),
                    Err(e) => {
                        return Err(e);
                    },
                },
                XmlEvent::Comment => Some(Vec::new()),
                XmlEvent::PI => Some(Vec::new()),
                XmlEvent::End(_) => None,
                XmlEvent::Eof => None,
                _ => {
                    return Err(XmlError::UnexpectedTag);
                },
            };
            match chunk {
                None => {
                    proof {
                        assert(got + Seq::<char>::empty() =~= got);
                        n = k + 1;
                    }
                    break ;
                },
                Some(c) => {
                    proof {
                        assert(text_chunk(ev) == Some(Ok::<Seq<char>, XmlError>(c@)));
                        let t = text_tail(s0.skip(k + 1));
                        match t.0 {
                            Ok(x) => {
                                assert(got + (c@ + x) =~= (got + c@) + x);
                            },
                            Err(_) => {},
                        }
                    }
                    push_all(&mut text, c.as_slice());
                    proof {
                        got = got + c@;
                        k = k + 1;
                    }
                },
            }
        }
        Ok(string_of(text.as_slice()))
    }

    /// Reads the content of the element whose opening tag was just read,
    /// up to and including its closing tag (or the end of the document at
    /// the top level).
    fn read_into_value(&mut self) -> (r: Result<Value, XmlError>)
        ensures
            ({
                let v = read_value(old(self).pending());
                &&& v.1 <= old(self).pending().len()
                &&& final(self).pending() == old(self).pending().skip(v.1 as int)
                &&& value_result(r) == v.0
                &&& r is Ok ==> final(self).last == last_after(
                    old(self).last,
                    old(self).pending(),
                    v.1 as int,
                )
            }),
            r matches Ok(v) ==> !(v is List),
        decreases old(self).pending().len(),
    {
        let ghost s0 = self.pending();
        let ghost mut k: int = 0;
        let ghost mut n: int = 0;
        let mut map = ValueMap::new();
        assert(s0.skip(0) =~= s0);
        assert(map.model() =~= Seq::<(NameKey, ValueModel)>::empty());
        loop
            invariant_except_break
                self.pending() == s0.skip(k),
                ({
                    let t = read_entries(s0.skip(k), map.model());
                    read_value(s0) == (t.0, (t.1 + k) as nat)
                }),
                self.last == last_after(old(self).last, s0, k),
            invariant
                old(self).pending() == s0,
                0 <= k <= s0.len(),
            ensures
                0 <= n <= s0.len(),
                self.pending() == s0.skip(n),
                read_value(s0) == (
                    Ok::<ValueModel, XmlError>(ValueModel::Elements(map.model())),
                    n as nat,
                ),
                self.last == last_after(old(self).last, s0, n),
            decreases s0.len() - k,
        {
            let ghost rest = s0.skip(k);
            let ghost acc = map.model();
            let step = match self.read_resolved_event() {
                None => {
                    proof {
                        n = k;
                    }
                    break ;
                },
                Some(step) => step,
            };
            assert(rest.drop_first() =~= s0.skip(k + 1));
            assert(rest[0] == s0[k]);
            let (ns, ev) = match step {
                Err(e) => {
                    return Err(e);
                },
                Ok(pair) => pair,
            };
            let head: Option<String> = match &ev {
                XmlEvent::Text(t) => {
                    if is_whitespace_text(t.as_str()) && !self.text_follows() {
                        None
                    } else {
                        match unescape_text(t.as_str()) {
                            Ok(h) => Some(h),
                            Err(e) => {
                                return Err(e);
                            },
                        }
                    }
                },
                XmlEvent::CData(t) => Some(t.clone()),
                XmlEvent::GeneralRef(reference) => match resolve_reference(reference.as_str()) {
                    Ok(h) => Some(h),
                    Err(e) => {
                        return Err(e);
                    },
                },
                _ => None,
            };
            if let Some(head) = head {
                let text = match self.read_trailing_text(head) {
                    Ok(x) => x,
                    Err(e) => {
                        return Err(e);
                    },
                };
                proof {
                    let m = text_tail(s0.skip(k + 1)).1;
                    assert(s0.skip(k + 1).skip(m as int) =~= s0.skip(k + 1 + m));
                    if m > 0 {
                        assert(s0.skip(k + 1)[m - 1] == s0[k + m]);
                    }
                }
                return Ok(Value::Text(text));
            }
            match ev {
                XmlEvent::Text(_) => {
                    proof {
                        k = k + 1;
                    }
                },
                XmlEvent::Start(name) => {
                    let element = match key(&ns, &name) {
                        Ok(element) => element,
                        Err(e) => {
                            return Err(e);
                        },
                    };
                    let child = match self.read_into_value() {
                        Ok(v) => v,
                        Err(e) => {
                            return Err(e);
                        },
                    };
                    let ghost c = read_value(s0.skip(k + 1)).1;
                    proof {
                        assert(s0.skip(k + 1).skip(c as int) =~= s0.skip(k + 1 + c));
                        assert(rest.skip(c + 1int) =~= s0.skip(k + 1 + c));
                        if c > 0 {
                            assert(s0.skip(k + 1)[c - 1] == s0[k + c]);
                            assert(rest[c as int] == s0[k + c]);
                        }
                    }
                    map.insert_raw(element, child);
                    let closed = match self.last() {
                        Some(XmlEvent::End(end)) => *end == name,
                        _ => false,
                    };
                    if !closed {
                        return Err(XmlError::UnexpectedTag);
                    }
                    proof {
                        k = k + 1 + c;
                    }
                },
                XmlEvent::Empty(name) => {
                    let element = match key(&ns, &name) {
                        Ok(element) => element,
                        Err(e) => {
                            return Err(e);
                        },
                    };
                    map.insert_raw(element, Value::Empty);
                    proof {
                        k = k + 1;
                    }
                },
                XmlEvent::End(_) => {
                    proof {
                        n = k + 1;
                    }
                    break ;
                },
                XmlEvent::Eof => {
                    proof {
                        n = k + 1;
                    }
                    break ;
                },
                _ => {
                    proof {
                        k = k + 1;
                    }
                },
            }
        }
        Ok(Value::Elements(map))
    }
}

/// Reads the steps of the document `xml`, up to and including its first
/// failure or its end.
fn document_steps(xml: &str) -> (steps: VecDeque<XmlStep>)
    ensures
        steps@ == document_events(xml@),
{
    let ghost doc = document_events(xml@);
    let mut reader = open_reader(xml);
    let mut steps: VecDeque<XmlStep> = VecDeque::new();
    assert(doc.skip(0) =~= doc);
    assert(doc.take(0) =~= steps@);
    loop
        invariant_except_break
            pending_events(reader) == doc.skip(steps@.len() as int),
            steps@ == doc.take(steps@.len() as int),
            steps@.len() < doc.len(),
        invariant
            doc == document_events(xml@),
            is_event_stream(doc),
        ensures
            steps@ == doc,
        decreases doc.len() - steps@.len(),
    {
        let ghost i = steps@.len() as int;
        assert(doc.skip(i)[0] == doc[i]);
        let step = next_event(&mut reader);
        let done = match &step {
            Err(_) => true,
            Ok((_, XmlEvent::Eof)) => true,
            _ => false,
        };
        assert(done == ends_stream(doc[i]));
        steps.push_back(step);
        assert(steps@ =~= doc.take(i + 1));
        assert(doc.skip(i).drop_first() =~= doc.skip(i + 1));
        if done {
            assert(i == doc.len() - 1);
            assert(doc.take(i + 1) =~= doc);
            break ;
        }
    }
    steps
}

/// Folds the steps of a document into the value of its content, as
/// `read_value` states: white-space text between elements is skipped
/// (white space just before a CDATA section or a reference is kept), other
/// text makes a text node (references resolved, CDATA sections and
/// split character data joined), child elements are grouped by name in
/// document order, and a child element must be closed by a tag of its own
/// name. Running out of steps ends the document.
pub fn read_events(steps: VecDeque<XmlStep>) -> (r: Result<Value, XmlError>)
    ensures
        value_result(r) == read_value(steps@).0,
{
    let mut reader = XmlReader::new(steps);
    reader.read_into_value()
}

/// Reads the document `xml` into the value of its content: the document
/// must be UTF-8, and its steps are read as the content of an element that
/// the end of the document closes.
pub fn read_xml(xml: &[u8]) -> (r: Result<Value, XmlError>)
    ensures
        value_result(r) == spec_read_xml(xml@),
{
    let text = match utf8_text(xml) {
        Ok(t) => t,
        Err(e) => {
            return Err(e);
        },
    };
    proof {
        vstd::utf8::encode_utf8_decode_utf8(text@);
    }
    read_events(document_steps(text))
}

/// What reading the element `E` from the document `xml` gives: the
/// document's root element must be `E` in the `DAV:` namespace.
pub open spec fn spec_from_xml<E: FromValue>(xml: Seq<u8>) -> Result<E::Model, XmlError> {
    match spec_read_xml(xml) {
        Err(e) => Err(e),
        Ok(ValueModel::Elements(m)) => match spec_get::<E>(m) {
            Some(x) => x,
            None => Err(XmlError::MissingElement),
        },
        Ok(_) => Err(XmlError::InvalidValueType),
    }
}

/// Reads the element `E` from the document `xml`.
pub fn from_xml<E: FromValue>(xml: &[u8]) -> (r: Result<E, XmlError>)
    ensures
        result_model(r) == spec_from_xml::<E>(xml@),
{
    match read_xml(xml) {
        Err(e) => Err(e),
        Ok(Value::Elements(map)) => map.get_required::<E>(),
        Ok(_) => Err(XmlError::InvalidValueType),
    }
}

} // verus!
