//! XML tokens of the workbook parts, as plain values. quick-xml reads the text;
//! each event it hands out becomes an `XmlStep`, and the rules that read the
//! workbook parts work on those steps.
use vstd::prelude::*;

use quick_xml::events::Event;

use crate::excel::visibility::key_names;
use crate::text::{chars_of, opt_view, seq_eq};

verus! {

#[verifier::external_type_specification]
#[verifier::external_body]
#[verifier::reject_recursive_types(R)]
pub struct ExXmlReader<R>(quick_xml::Reader<R>);

/// An attribute of an element: its key as written (with any prefix) and its
/// value as written.
#[derive(Debug)]
pub struct XmlAttr {
    pub key: String,
    pub value: String,
}

/// One event of the XML reader.
#[derive(Debug)]
pub enum XmlStep {
    /// A start tag or an empty-element tag: its local name and its attributes.
    Open { local: String, attrs: Vec<XmlAttr> },
    /// An end tag: its local name.
    Close { local: String },
    /// Text, a comment, a declaration or another event that names no element.
    Other,
    /// The end of the text.
    Eof,
    /// The reader failed, with its message.
    Fail { message: String },
}

/// An event as plain values: its kind (0 a start or empty-element tag, 1 an
/// end tag, 2 another event, 3 the end of the text, 4 a failure), the tag's
/// local name or the failure's message (else empty), and the tag's attributes
/// as (key, value) pairs (else none).
pub type PlainStep = (int, Seq<char>, Seq<(Seq<char>, Seq<char>)>);

pub open spec fn attr_plain(a: XmlAttr) -> (Seq<char>, Seq<char>) {
    (a.key@, a.value@)
}

pub open spec fn attrs_plain(attrs: Seq<XmlAttr>) -> Seq<(Seq<char>, Seq<char>)> {
    attrs.map_values(|a: XmlAttr| attr_plain(a))
}

pub open spec fn step_plain(step: XmlStep) -> PlainStep {
    match step {
        XmlStep::Open { local, attrs } => (0, local@, attrs_plain(attrs@)),
        XmlStep::Close { local } => (1, local@, Seq::empty()),
        XmlStep::Other => (2, Seq::empty(), Seq::empty()),
        XmlStep::Eof => (3, Seq::empty(), Seq::empty()),
        XmlStep::Fail { message } => (4, message@, Seq::empty()),
    }
}

pub open spec fn plain_steps(steps: Seq<XmlStep>) -> Seq<PlainStep> {
    steps.map_values(|s: XmlStep| step_plain(s))
}

/// A step the reader goes on after: neither the end nor a failure.
pub open spec fn goes_on(step: PlainStep) -> bool {
    step.0 != 3 && step.0 != 4
}

/// The event that quick-xml's `Reader::from_str` over `text`, with text
/// trimming switched on, hands out at its `k`-th `read_event` call (counting
/// from 0), as plain values (see `PlainStep`).
pub uninterp spec fn xml_event(text: Seq<char>, k: int) -> (int, Seq<char>, Seq<(Seq<char>, Seq<char>)>);

/// A quick-xml reader over `text` and the number of events it has handed out.
pub struct XmlCursor<'a> {
    text: &'a str,
    reader: quick_xml::Reader<&'a [u8]>,
    read: Ghost<int>,
}

/// quick-xml's `Reader::from_str` over `text`, with text trimming switched on
/// (`Config::trim_text`). Trusted: nothing is stated of the reader, which
/// Verus does not see into; `xml_cursor` pairs it with its text.
#[verifier::external_body]
fn xml_reader(text: &str) -> quick_xml::Reader<&[u8]> {
    let mut reader = quick_xml::Reader::from_str(text);
    reader.config_mut().trim_text(true);
    reader
}

/// A fresh reader over `text`, which has handed out no event yet.
fn xml_cursor<'a>(text: &'a str) -> (c: XmlCursor<'a>)
    ensures
        c.text@ == text@,
        c.read@ == 0,
{
    XmlCursor { text, reader: xml_reader(text), read: Ghost(0) }
}

/// quick-xml's `Reader::read_event`: the next event, as a step. Start and
/// empty-element tags give their local name and the attributes that parse (as
/// `Attributes` hands them out, skipping malformed ones); end tags their local
/// name; an error its message. Trusted: the step is `xml_event` of the
/// cursor's text at the count of events handed out before, and the count goes
/// up by one. That holds because a cursor is made only by `xml_cursor`, from a
/// fresh reader over its text, and advanced only here.
#[verifier::external_body]
fn next_step(cursor: &mut XmlCursor) -> (r: XmlStep)
    ensures
        final(cursor).text == old(cursor).text,
        final(cursor).read@ == old(cursor).read@ + 1,
        step_plain(r) == xml_event(old(cursor).text@, old(cursor).read@),
{
    match cursor.reader.read_event() {
        Ok(Event::Start(e)) | Ok(Event::Empty(e)) => XmlStep::Open {
            local: e.local_name().as_ref().to_string(),
            attrs: e.attributes().flatten().map(
                |a| XmlAttr { key: a.key.as_ref().to_string(), value: a.value.into_owned() },
            ).collect(),
        },
        Ok(Event::End(e)) => XmlStep::Close { local: e.local_name().as_ref().to_string() },
        Ok(Event::Eof) => XmlStep::Eof,
        Ok(_) => XmlStep::Other,
        Err(e) => XmlStep::Fail { message: e.to_string() },
    }
}

/// The events of `text` from the `k`-th read on, up to and including the end
/// of the text or the first failure, and no further than the `limit`-th read.
pub open spec fn events_from(text: Seq<char>, k: int, limit: int) -> Seq<PlainStep>
    decreases limit - k,
{
    if k >= limit {
        Seq::empty()
    } else {
        let e = xml_event(text, k);
        if goes_on(e) {
            seq![e] + events_from(text, k + 1, limit)
        } else {
            seq![e]
        }
    }
}

/// How many reads `xml_steps` makes at most for a text of `n` characters.
pub open spec fn read_limit(n: nat) -> int {
    if n < usize::MAX {
        (n + 1) as int
    } else {
        usize::MAX as int
    }
}

/// The events of `text` as `xml_steps` reads them.
pub open spec fn xml_read(text: Seq<char>) -> Seq<PlainStep> {
    events_from(text, 0, read_limit(text.len()))
}

/// The events of `text`, in order, up to and including the end of the text or
/// the first failure. Every event but the end takes up at least one character
/// of the text, so one read more than the text has characters reaches the
/// end; no more are made.
pub fn xml_steps(text: &str) -> (r: Vec<XmlStep>)
    ensures
        plain_steps(r@) == xml_read(text@),
{
    let len = text.unicode_len();
    let limit: usize = if len < usize::MAX {
        len + 1
    } else {
        usize::MAX
    };
    let mut cursor = xml_cursor(text);
    let mut steps: Vec<XmlStep> = Vec::new();
    let mut n: usize = 0;
    while n < limit
        invariant
            n <= limit,
            limit == read_limit(text@.len()),
            cursor.text@ == text@,
            cursor.read@ == n,
            plain_steps(steps@) + events_from(text@, n as int, limit as int) == xml_read(text@),
        decreases limit - n,
    {
        let ghost before = steps@;
        let step = next_step(&mut cursor);
        let last = match &step {
            XmlStep::Eof => true,
            XmlStep::Fail { .. } => true,
            _ => false,
        };
        let ghost e = step_plain(step);
        assert(last == !goes_on(e));
        steps.push(step);
        assert(plain_steps(steps@) =~= plain_steps(before).push(e));
        n = n + 1;
        if last {
            assert(events_from(text@, n - 1, limit as int) == seq![e]);
            assert(plain_steps(steps@) =~= plain_steps(before) + events_from(
                text@,
                n - 1,
                limit as int,
            ));
            return steps;
        }
        assert(events_from(text@, n - 1, limit as int) == seq![e] + events_from(
            text@,
            n as int,
            limit as int,
        ));
        assert(plain_steps(steps@) + events_from(text@, n as int, limit as int) =~= plain_steps(
            before,
        ) + events_from(text@, n - 1, limit as int));
    }
    assert(plain_steps(steps@) =~= plain_steps(steps@) + events_from(
        text@,
        n as int,
        limit as int,
    ));
    steps
}

/// `a` and `b` hold the same text.
pub fn same_text(a: &str, b: &str) -> (r: bool)
    ensures
        r == (a@ == b@),
{
    let x = chars_of(a);
    let y = chars_of(b);
    seq_eq(x.as_slice(), y.as_slice())
}

/// The value of the first attribute whose key is `key`.
pub open spec fn attr_named(attrs: Seq<(Seq<char>, Seq<char>)>, key: Seq<char>) -> Option<
    Seq<char>,
>
    decreases attrs.len(),
{
    if attrs.len() == 0 {
        None
    } else if attrs[0].0 == key {
        Some(attrs[0].1)
    } else {
        attr_named(attrs.drop_first(), key)
    }
}

/// The value of the first attribute whose key names `local`, with or without
/// a namespace prefix (see `key_names`).
pub open spec fn attr_local(attrs: Seq<(Seq<char>, Seq<char>)>, local: Seq<char>) -> Option<
    Seq<char>,
>
    decreases attrs.len(),
{
    if attrs.len() == 0 {
        None
    } else if key_names(attrs[0].0, local) {
        Some(attrs[0].1)
    } else {
        attr_local(attrs.drop_first(), local)
    }
}

pub fn attr_value(attrs: &Vec<XmlAttr>, key: &str) -> (r: Option<String>)
    ensures
        opt_view(r) == attr_named(attrs_plain(attrs@), key@),
{
    let mut i: usize = 0;
    assert(attrs_plain(attrs@).skip(0) =~= attrs_plain(attrs@));
    while i < attrs.len()
        invariant
            i <= attrs@.len(),
            attr_named(attrs_plain(attrs@), key@) == attr_named(
                attrs_plain(attrs@).skip(i as int),
                key@,
            ),
        decreases attrs@.len() - i,
    {
        assert(attrs_plain(attrs@).skip(i as int).drop_first() =~= attrs_plain(attrs@).skip(i + 1));
        assert(attrs_plain(attrs@).skip(i as int)[0] == attr_plain(attrs@[i as int]));
        if same_text(attrs[i].key.as_str(), key) {
            return Some(attrs[i].value.clone());
        }
        i = i + 1;
    }
    None
}

pub fn attr_value_by_local(attrs: &Vec<XmlAttr>, local: &str) -> (r: Option<String>)
    ensures
        opt_view(r) == attr_local(attrs_plain(attrs@), local@),
{
    let mut i: usize = 0;
    assert(attrs_plain(attrs@).skip(0) =~= attrs_plain(attrs@));
    while i < attrs.len()
        invariant
            i <= attrs@.len(),
            attr_local(attrs_plain(attrs@), local@) == attr_local(
                attrs_plain(attrs@).skip(i as int),
                local@,
            ),
        decreases attrs@.len() - i,
    {
        assert(attrs_plain(attrs@).skip(i as int).drop_first() =~= attrs_plain(attrs@).skip(i + 1));
        assert(attrs_plain(attrs@).skip(i as int)[0] == attr_plain(attrs@[i as int]));
        if crate::excel::visibility::attr_key_names(attrs[i].key.as_str(), local) {
            return Some(attrs[i].value.clone());
        }
        i = i + 1;
    }
    None
}

} // verus!
