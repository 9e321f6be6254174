//! SMEV 4 service messages: request payloads, queue tickets and the FNS
//! check response.

use vstd::prelude::*;
use vstd::utf8::encode_utf8;
use crate::ids::Inn;
use crate::smev::{QueueTicket, SmevClient, SmevError, is_success_status};
use crate::text::{
    chars_of, contains_chars, find_chars, first_occurrence, occurs_at, occurs_in,
    string_from_range,
};

verus! {

/// What a queue reply yields: the text between the first `<TicketId>` and
/// the first `</TicketId>`, or the message of the payload error.
pub open spec fn ticket_of(text: Seq<char>) -> Result<Seq<char>, Seq<char>> {
    match first_occurrence(text, "<TicketId>"@) {
        None => Err("missing <TicketId> in SMEV response"@),
        Some(i) => {
            let start = i + "<TicketId>"@.len();
            match first_occurrence(text, "</TicketId>"@) {
                None => Err("missing </TicketId> in SMEV response"@),
                Some(end) => if end <= start {
                    Err("malformed <TicketId> bounds"@)
                } else {
                    Ok(text.subrange(start, end))
                },
            }
        },
    }
}

/// `r` is the ticket, or the payload error, that `ticket_of` gives for a
/// reply.
pub open spec fn gives_ticket(text: Seq<char>, r: Result<QueueTicket, SmevError>) -> bool {
    &&& ticket_of(text) is Ok ==> r is Ok && r->Ok_0.0@ == ticket_of(text)->Ok_0
    &&& ticket_of(text) is Err ==> (r is Err && (r->Err_0 matches SmevError::Payload(m) && m@
        == ticket_of(text)->Err_0))
}

/// The queue ticket of a SMEV reply.
pub fn extract_ticket(text: &str) -> (r: Result<QueueTicket, SmevError>)
    ensures
        ticket_of(text@) is Ok ==> r is Ok && r->Ok_0.0@ == ticket_of(text@)->Ok_0,
        ticket_of(text@) is Err ==> (r is Err && (r->Err_0 matches SmevError::Payload(m)
            && m@ == ticket_of(text@)->Err_0)),
        gives_ticket(text@, r),
{
    let cs = chars_of(text);
    let text_len = cs.len();
    let open_tag = chars_of("<TicketId>");
    let close_tag = chars_of("</TicketId>");
    let start = match find_chars(&cs, &open_tag) {
        Some(i) => {
            proof {
                assert(crate::text::occurs_at(cs@, open_tag@, i as int));
                assert(i + open_tag@.len() <= cs@.len());
            }
            i + open_tag.len()
        },
        None => {
            return Err(SmevError::Payload("missing <TicketId> in SMEV response".to_owned()));
        },
    };
    let end = match find_chars(&cs, &close_tag) {
        Some(e) => e,
        None => {
            return Err(SmevError::Payload("missing </TicketId> in SMEV response".to_owned()));
        },
    };
    if end <= start {
        return Err(SmevError::Payload("malformed <TicketId> bounds".to_owned()));
    }
    Ok(QueueTicket(string_from_range(&cs, start, end)))
}

/// `c` escaped for XML text: `&`, `<`, `>`, `"` and `'` become entities.
pub open spec fn xml_escape_char(c: char) -> Seq<char> {
    if c == '&' {
        "&amp;"@
    } else if c == '<' {
        "&lt;"@
    } else if c == '>' {
        "&gt;"@
    } else if c == '"' {
        "&quot;"@
    } else if c == '\'' {
        "&apos;"@
    } else {
        seq![c]
    }
}

/// `s` escaped for XML text, character by character.
pub open spec fn xml_escaped(s: Seq<char>) -> Seq<char>
    decreases s.len(),
{
    if s.len() == 0 {
        Seq::empty()
    } else {
        xml_escaped(s.drop_last()) + xml_escape_char(s.last())
    }
}

/// No markup survives escaping: the escaped text holds no `<`, `>`, `"` or
/// `'`, so a value put into an element or attribute cannot open, close or
/// leave it.
pub proof fn lemma_escaped_has_no_markup(s: Seq<char>)
    ensures
        forall|i: int|
            0 <= i < xml_escaped(s).len() ==> #[trigger] xml_escaped(s)[i] != '<'
                && xml_escaped(s)[i] != '>' && xml_escaped(s)[i] != '"' && xml_escaped(s)[i]
                != '\'',
    decreases s.len(),
{
    if s.len() > 0 {
        lemma_escaped_has_no_markup(s.drop_last());
        reveal_strlit("&amp;");
        reveal_strlit("&lt;");
        reveal_strlit("&gt;");
        reveal_strlit("&quot;");
        reveal_strlit("&apos;");
        let head = xml_escaped(s.drop_last());
        let tail = xml_escape_char(s.last());
        assert(xml_escaped(s) == head + tail);
        assert forall|i: int| 0 <= i < tail.len() implies tail[i] != '<' && tail[i] != '>'
            && tail[i] != '"' && tail[i] != '\'' by {}
        assert forall|i: int| 0 <= i < xml_escaped(s).len() implies #[trigger] xml_escaped(s)[i]
            != '<' && xml_escaped(s)[i] != '>' && xml_escaped(s)[i] != '"' && xml_escaped(s)[i]
            != '\'' by {
            if i < head.len() {
                assert(xml_escaped(s)[i] == head[i]);
            } else {
                assert(xml_escaped(s)[i] == tail[i - head.len()]);
            }
        }
    }
}

/// Whether `s` begins with `p`.
pub open spec fn starts_with(s: Seq<char>, p: Seq<char>) -> bool {
    p.len() <= s.len() && s.subrange(0, p.len() as int) == p
}

/// The entity `&lt;`.
pub open spec fn ent_lt() -> Seq<char> {
    seq!['&', 'l', 't', ';']
}

/// The entity `&gt;`.
pub open spec fn ent_gt() -> Seq<char> {
    seq!['&', 'g', 't', ';']
}

/// The entity `&quot;`.
pub open spec fn ent_quot() -> Seq<char> {
    seq!['&', 'q', 'u', 'o', 't', ';']
}

/// The entity `&apos;`.
pub open spec fn ent_apos() -> Seq<char> {
    seq!['&', 'a', 'p', 'o', 's', ';']
}

/// The entity `&amp;`.
pub open spec fn ent_amp() -> Seq<char> {
    seq!['&', 'a', 'm', 'p', ';']
}

/// `s` begins with one of the five entities.
pub open spec fn starts_with_entity(s: Seq<char>) -> bool {
    starts_with(s, ent_lt()) || starts_with(s, ent_gt()) || starts_with(s, ent_quot())
        || starts_with(s, ent_apos()) || starts_with(s, ent_amp())
}

/// The five entities rewritten back to their characters, in one pass from
/// left to right; any other character stays.
pub open spec fn xml_unescaped(s: Seq<char>) -> Seq<char>
    decreases s.len(),
{
    if s.len() == 0 {
        Seq::empty()
    } else if starts_with(s, ent_lt()) {
        seq!['<'] + xml_unescaped(s.skip(4))
    } else if starts_with(s, ent_gt()) {
        seq!['>'] + xml_unescaped(s.skip(4))
    } else if starts_with(s, ent_quot()) {
        seq!['"'] + xml_unescaped(s.skip(6))
    } else if starts_with(s, ent_apos()) {
        seq!['\''] + xml_unescaped(s.skip(6))
    } else if starts_with(s, ent_amp()) {
        seq!['&'] + xml_unescaped(s.skip(5))
    } else {
        seq![s[0]] + xml_unescaped(s.drop_first())
    }
}

/// One of the five characters that escaping rewrites.
pub open spec fn is_xml_special(c: char) -> bool {
    c == '&' || c == '<' || c == '>' || c == '"' || c == '\''
}

/// The escape of a character, with the entities written out.
proof fn lemma_escape_char_entities(c: char)
    ensures
        c == '&' ==> xml_escape_char(c) == ent_amp(),
        c == '<' ==> xml_escape_char(c) == ent_lt(),
        c == '>' ==> xml_escape_char(c) == ent_gt(),
        c == '"' ==> xml_escape_char(c) == ent_quot(),
        c == '\'' ==> xml_escape_char(c) == ent_apos(),
        !is_xml_special(c) ==> xml_escape_char(c) == seq![c],
{
    reveal_strlit("&amp;");
    reveal_strlit("&lt;");
    reveal_strlit("&gt;");
    reveal_strlit("&quot;");
    reveal_strlit("&apos;");
    assert("&amp;"@ =~= ent_amp());
    assert("&lt;"@ =~= ent_lt());
    assert("&gt;"@ =~= ent_gt());
    assert("&quot;"@ =~= ent_quot());
    assert("&apos;"@ =~= ent_apos());
}

/// Escaping works piece by piece.
proof fn lemma_escaped_concat(a: Seq<char>, b: Seq<char>)
    ensures
        xml_escaped(a + b) == xml_escaped(a) + xml_escaped(b),
    decreases b.len(),
{
    if b.len() == 0 {
        assert(a + b =~= a);
        assert(xml_escaped(a) + xml_escaped(b) =~= xml_escaped(a));
    } else {
        lemma_escaped_concat(a, b.drop_last());
        assert((a + b).drop_last() =~= a + b.drop_last());
        assert((a + b).last() == b.last());
        assert(xml_escaped(a + b) =~= xml_escaped(a) + xml_escaped(b));
    }
}

/// The escape of a text is the escape of its first character followed by
/// the escape of the rest.
proof fn lemma_escaped_front(s: Seq<char>)
    requires
        s.len() > 0,
    ensures
        xml_escaped(s) == xml_escape_char(s[0]) + xml_escaped(s.drop_first()),
{
    let h = seq![s[0]];
    assert(s =~= h + s.drop_first());
    lemma_escaped_concat(h, s.drop_first());
    assert(h.drop_last() =~= Seq::<char>::empty());
    assert(h.last() == s[0]);
    assert(xml_escaped(h.drop_last()) =~= Seq::<char>::empty());
    assert(xml_escaped(h) == xml_escaped(h.drop_last()) + xml_escape_char(h.last()));
    assert(xml_escaped(h) =~= xml_escape_char(s[0]));
}

/// Unescaping undoes the escape of one character in front of any text.
proof fn lemma_unescape_char(c: char, rest: Seq<char>)
    ensures
        xml_unescaped(xml_escape_char(c) + rest) == seq![c] + xml_unescaped(rest),
{
    lemma_escape_char_entities(c);
    let t = xml_escape_char(c) + rest;
    if c == '<' {
        assert(t.subrange(0, 4) =~= ent_lt());
        assert(t.skip(4) =~= rest);
    } else if c == '>' {
        assert(t.subrange(0, 4) =~= ent_gt());
        assert(!starts_with(t, ent_lt())) by {
            assert(t[1] != ent_lt()[1]);
        }
        assert(t.skip(4) =~= rest);
    } else if c == '"' {
        assert(t.subrange(0, 6) =~= ent_quot());
        assert(t[1] != ent_lt()[1] && t[1] != ent_gt()[1]);
        assert(!starts_with(t, ent_lt()) && !starts_with(t, ent_gt())) by {
            assert(t.subrange(0, 4)[1] == t[1]);
        }
        assert(t.skip(6) =~= rest);
    } else if c == '\'' {
        assert(t.subrange(0, 6) =~= ent_apos());
        assert(!starts_with(t, ent_lt()) && !starts_with(t, ent_gt()) && !starts_with(
            t,
            ent_quot(),
        )) by {
            assert(t.subrange(0, 4)[1] == t[1]);
            assert(t.subrange(0, 6)[1] == t[1]);
        }
        assert(t.skip(6) =~= rest);
    } else if c == '&' {
        assert(t.subrange(0, 5) =~= ent_amp());
        assert(!starts_with(t, ent_lt()) && !starts_with(t, ent_gt()) && !starts_with(
            t,
            ent_quot(),
        ) && !starts_with(t, ent_apos())) by {
            assert(t.subrange(0, 4)[1] == t[1]);
            if t.len() >= 6 {
                assert(t.subrange(0, 6)[1] == t[1]);
                assert(t.subrange(0, 6)[2] == t[2]);
            }
        }
        assert(t.skip(5) =~= rest);
    } else {
        assert(t[0] == c);
        assert(!starts_with_entity(t)) by {
            if t.len() >= 4 {
                assert(t.subrange(0, 4)[0] == t[0]);
            }
            if t.len() >= 5 {
                assert(t.subrange(0, 5)[0] == t[0]);
            }
            if t.len() >= 6 {
                assert(t.subrange(0, 6)[0] == t[0]);
            }
        }
        assert(t.drop_first() =~= rest);
    }
}

/// Escaping can be undone: unescaping the escaped text gives the text back.
pub proof fn lemma_unescape_escaped(s: Seq<char>)
    ensures
        xml_unescaped(xml_escaped(s)) == s,
    decreases s.len(),
{
    if s.len() == 0 {
    } else {
        lemma_escaped_front(s);
        lemma_unescape_char(s[0], xml_escaped(s.drop_first()));
        lemma_unescape_escaped(s.drop_first());
        assert(s =~= seq![s[0]] + s.drop_first());
    }
}

/// A text without the five special characters is left as it is.
pub proof fn lemma_escape_plain_text(s: Seq<char>)
    requires
        forall|i: int| 0 <= i < s.len() ==> !is_xml_special(#[trigger] s[i]),
    ensures
        xml_escaped(s) == s,
    decreases s.len(),
{
    if s.len() > 0 {
        lemma_escape_plain_text(s.drop_last());
        lemma_escape_char_entities(s.last());
        assert(s =~= s.drop_last().push(s.last()));
        assert(xml_escaped(s) =~= s.drop_last() + seq![s.last()]);
    }
}

/// Every `&` in an escaped text begins one of the five entities.
pub proof fn lemma_escaped_ampersands(s: Seq<char>)
    ensures
        forall|i: int|
            0 <= i < xml_escaped(s).len() && #[trigger] xml_escaped(s)[i] == '&'
                ==> starts_with_entity(xml_escaped(s).skip(i)),
    decreases s.len(),
{
    if s.len() > 0 {
        lemma_escaped_front(s);
        lemma_escaped_ampersands(s.drop_first());
        lemma_escape_char_entities(s[0]);
        let e = xml_escape_char(s[0]);
        let rest = xml_escaped(s.drop_first());
        let t = xml_escaped(s);
        assert(t == e + rest);
        assert forall|i: int| 0 <= i < t.len() && #[trigger] t[i] == '&' implies starts_with_entity(
            t.skip(i),
        ) by {
            if i < e.len() {
                assert(t[i] == e[i]);
                assert(i == 0);
                assert(t.skip(0) =~= t);
                assert(t.subrange(0, e.len() as int) =~= e);
            } else {
                let j = i - e.len();
                assert(rest[j] == t[i]);
                assert(t.skip(i) =~= rest.skip(j));
            }
        }
    }
}

/// Escapes the XML special characters of `s`.
pub fn xml_escape(s: &str) -> (r: String)
    ensures
        r@ == xml_escaped(s@),
{
    let cs = chars_of(s);
    let mut out = String::new();
    let n = cs.len();
    let mut i: usize = 0;
    while i < n
        invariant
            n == cs@.len(),
            cs@ == s@,
            0 <= i <= n,
            out@ == xml_escaped(cs@.take(i as int)),
        decreases n - i,
    {
        let c = cs[i];
        proof {
            assert(cs@.take(i as int + 1).drop_last() =~= cs@.take(i as int));
        }
        if c == '&' {
            out.append("&amp;");
        } else if c == '<' {
            out.append("&lt;");
        } else if c == '>' {
            out.append("&gt;");
        } else if c == '"' {
            out.append("&quot;");
        } else if c == '\'' {
            out.append("&apos;");
        } else {
            crate::text::push_char(&mut out, c);
            proof {
                assert(out@ =~= xml_escaped(cs@.take(i as int)) + seq![c]);
            }
        }
        i = i + 1;
    }
    proof {
        assert(cs@.take(n as int) =~= cs@);
    }
    out
}

/// The FNS answer to an INN and income check.
#[derive(Debug)]
pub struct FnsCheckResponse {
    pub is_valid: bool,
    pub income_confirmed: bool,
}

impl FnsCheckResponse {
    /// Reads the two flags by looking for `<IsValid>true</IsValid>` and
    /// `<IncomeConfirmed>true</IncomeConfirmed>`; never fails.
    pub fn parse_xml(xml: &str) -> (r: Result<FnsCheckResponse, SmevError>)
        ensures
            r is Ok,
            r->Ok_0.is_valid == occurs_in(xml@, "<IsValid>true</IsValid>"@),
            r->Ok_0.income_confirmed == occurs_in(
                xml@,
                "<IncomeConfirmed>true</IncomeConfirmed>"@,
            ),
    {
        let cs = chars_of(xml);
        let is_valid = contains_chars(&cs, &chars_of("<IsValid>true</IsValid>"));
        let income_confirmed = contains_chars(
            &cs,
            &chars_of("<IncomeConfirmed>true</IncomeConfirmed>"),
        );
        Ok(FnsCheckResponse { is_valid, income_confirmed })
    }
}

/// The XML reader of `quick_xml`, carried opaquely.
#[verifier::external_type_specification]
#[verifier::external_body]
#[verifier::reject_recursive_types(R)]
pub struct ExXmlReader<R>(quick_xml::Reader<R>);

/// What an event of the XML reader is, as far as the strict parser cares.
pub enum XmlEvent {
    /// A start tag, with its qualified name.
    Start(Vec<u8>),
    /// The end of the input.
    Eof,
    /// Any other event.
    Other,
}

/// A call made on a `quick_xml` reader over a string slice.
pub enum XmlCall {
    /// `Reader::from_str` over these bytes, which creates the reader.
    Open(Seq<u8>),
    /// `config_mut().trim_text(true)`.
    TrimText,
    /// `read_event_into`.
    NextEvent,
    /// `read_text` up to the end tag of the element with this name.
    TextOf(Seq<u8>),
}

/// What a reader answers to a call, as far as the strict parser tells
/// answers apart.
pub enum XmlReply {
    /// A start tag with this name.
    Start(Seq<u8>),
    /// The end of the input.
    End,
    /// Any other event.
    OtherEvent,
    /// The text of an element.
    Text(Seq<char>),
    /// An error.
    Failed,
}

/// The calls made on a reader since `from_str` created it, in order.
pub uninterp spec fn xml_calls(r: quick_xml::Reader<&[u8]>) -> Seq<XmlCall>;

/// What a `quick_xml` slice reader answers to the last of `calls`, all made
/// on it in order from its creation. The reader reads no input but the
/// slice it was created over, so its answers are fixed by these calls.
pub uninterp spec fn xml_reply(calls: Seq<XmlCall>) -> XmlReply;

/// The bytes a slice-backed XML reader has not consumed yet.
pub uninterp spec fn xml_unread(r: quick_xml::Reader<&[u8]>) -> Seq<u8>;

/// `t` is what is left of `s` after some bytes at its front.
pub open spec fn is_tail_of(t: Seq<u8>, s: Seq<u8>) -> bool {
    t.len() <= s.len() && s.subrange(s.len() - t.len(), s.len() as int) == t
}

/// Calls `quick_xml::Reader::from_str`, which reads the UTF-8 bytes of
/// `xml` from their start.
#[verifier::external_body]
fn xml_reader_from_str<'a>(xml: &'a str) -> (r: quick_xml::Reader<&'a [u8]>)
    ensures
        xml_calls(r) == seq![XmlCall::Open(encode_utf8(xml@))],
        xml_unread(r) == encode_utf8(xml@),
{
    quick_xml::Reader::from_str(xml)
}

/// Calls `Config::trim_text(true)` on the reader's configuration, so that
/// whitespace around text is dropped; the reader's position stays.
#[verifier::external_body]
fn xml_trim_text<'a>(reader: &mut quick_xml::Reader<&'a [u8]>)
    ensures
        xml_calls(*final(reader)) == xml_calls(*old(reader)).push(XmlCall::TrimText),
        xml_unread(*final(reader)) == xml_unread(*old(reader)),
{
    reader.config_mut().trim_text(true);
}

/// How the result of `xml_read_event` shows the reader's answer.
pub open spec fn event_shows(r: Result<XmlEvent, quick_xml::Error>, reply: XmlReply) -> bool {
    match r {
        Ok(XmlEvent::Start(name)) => reply == XmlReply::Start(name@),
        Ok(XmlEvent::Eof) => reply == XmlReply::End,
        Ok(XmlEvent::Other) => reply == XmlReply::OtherEvent,
        Err(_) => reply == XmlReply::Failed,
    }
}

/// Calls `Reader::read_event_into` and tells the event apart: a start tag
/// with its name, the end of input, or another event. The answer is the
/// reader's answer to this call. The reader only moves forward, and every
/// event but the end of input consumes input: text is returned only when it
/// is not empty, markup takes at least its `<` and `>`, and empty elements
/// are not expanded into two events.
#[verifier::external_body]
fn xml_read_event<'a>(reader: &mut quick_xml::Reader<&'a [u8]>, buf: &mut Vec<u8>) -> (r: Result<
    XmlEvent,
    quick_xml::Error,
>)
    ensures
        xml_calls(*final(reader)) == xml_calls(*old(reader)).push(XmlCall::NextEvent),
        event_shows(r, xml_reply(xml_calls(*final(reader)))),
        is_tail_of(xml_unread(*final(reader)), xml_unread(*old(reader))),
        r matches Ok(e) && !(e is Eof) ==> xml_unread(*final(reader)).len() < xml_unread(
            *old(reader),
        ).len(),
{
    match reader.read_event_into(buf) {
        Ok(quick_xml::events::Event::Start(e)) => Ok(XmlEvent::Start(e.name().as_ref().to_vec())),
        Ok(quick_xml::events::Event::Eof) => Ok(XmlEvent::Eof),
        Ok(_) => Ok(XmlEvent::Other),
        Err(e) => Err(e),
    }
}

/// Calls `Reader::read_text` with the element name: the text up to the
/// matching end tag, as the reader's answer to this call. The reader only
/// moves forward.
#[verifier::external_body]
fn xml_read_text<'a>(reader: &mut quick_xml::Reader<&'a [u8]>, name: &[u8]) -> (r: Result<
    String,
    quick_xml::Error,
>)
    ensures
        xml_calls(*final(reader)) == xml_calls(*old(reader)).push(XmlCall::TextOf(name@)),
        r is Ok ==> xml_reply(xml_calls(*final(reader))) == XmlReply::Text(r->Ok_0@),
        r is Err ==> xml_reply(xml_calls(*final(reader))) == XmlReply::Failed,
        is_tail_of(xml_unread(*final(reader)), xml_unread(*old(reader))),
{
    match reader.read_text(quick_xml::name::QName(name)) {
        Ok(t) => Ok(t.into_owned()),
        Err(e) => Err(e),
    }
}

/// Whether two byte strings are equal.
fn same_bytes(a: &[u8], b: &[u8]) -> (r: bool)
    ensures
        r == (a@ == b@),
{
    if a.len() != b.len() {
        return false;
    }
    let n = a.len();
    let mut i: usize = 0;
    while i < n
        invariant
            n == a@.len(),
            n == b@.len(),
            0 <= i <= n,
            forall|j: int| 0 <= j < i ==> a@[j] == b@[j],
        decreases n - i,
    {
        if a[i] != b[i] {
            return false;
        }
        i = i + 1;
    }
    proof {
        assert(a@ =~= b@);
    }
    true
}

/// A field of the FNS check response.
#[derive(Debug, Clone, Copy, PartialEq, Eq)]
pub enum FnsField {
    IsValid,
    IncomeConfirmed,
}

/// The fields the strict parser has read so far.
#[derive(Debug, Clone, Copy, PartialEq, Eq)]
pub struct FnsFields {
    pub is_valid: Option<bool>,
    pub income_confirmed: Option<bool>,
}

/// Why a strict parse fails when `<IsValid>` is absent.
pub const MISSING_IS_VALID: &'static str = "missing <IsValid> in XML";

/// Why a strict parse fails when `<IncomeConfirmed>` is absent.
pub const MISSING_INCOME_CONFIRMED: &'static str = "missing <IncomeConfirmed> in XML";

/// The field a start tag with this name opens.
pub open spec fn field_named(name: Seq<u8>) -> Option<FnsField> {
    if name == encode_utf8("IsValid"@) {
        Some(FnsField::IsValid)
    } else if name == encode_utf8("IncomeConfirmed"@) {
        Some(FnsField::IncomeConfirmed)
    } else {
        None
    }
}

/// The fields after the text of `field` is read: that field becomes whether
/// the text is `true`.
pub open spec fn fields_with(fields: FnsFields, field: FnsField, text: Seq<char>) -> FnsFields {
    match field {
        FnsField::IsValid => FnsFields {
            is_valid: Some(text == "true"@),
            income_confirmed: fields.income_confirmed,
        },
        FnsField::IncomeConfirmed => FnsFields {
            is_valid: fields.is_valid,
            income_confirmed: Some(text == "true"@),
        },
    }
}

/// `r` is the response that the fields make: `IsValid` missing is reported
/// first, then `IncomeConfirmed` missing, and otherwise both flags are given.
pub open spec fn finishes(fields: FnsFields, r: Result<FnsCheckResponse, SmevError>) -> bool {
    if fields.is_valid is None {
        r is Err && (r->Err_0 matches SmevError::Payload(m) && m@ == MISSING_IS_VALID@)
    } else if fields.income_confirmed is None {
        r is Err && (r->Err_0 matches SmevError::Payload(m) && m@ == MISSING_INCOME_CONFIRMED@)
    } else {
        r is Ok && r->Ok_0.is_valid == fields.is_valid->0 && r->Ok_0.income_confirmed
            == fields.income_confirmed->0
    }
}

/// The field a start tag opens: `IsValid` or `IncomeConfirmed`, by exact name.
pub fn fns_field_of(tag: &[u8]) -> (f: Option<FnsField>)
    ensures
        tag@ == encode_utf8("IsValid"@) ==> f == Some(FnsField::IsValid),
        tag@ != encode_utf8("IsValid"@) && tag@ == encode_utf8("IncomeConfirmed"@) ==> f == Some(
            FnsField::IncomeConfirmed,
        ),
        tag@ != encode_utf8("IsValid"@) && tag@ != encode_utf8("IncomeConfirmed"@) ==> f
            is None,
        f == field_named(tag@),
{
    if same_bytes(tag, "IsValid".as_bytes()) {
        Some(FnsField::IsValid)
    } else if same_bytes(tag, "IncomeConfirmed".as_bytes()) {
        Some(FnsField::IncomeConfirmed)
    } else {
        None
    }
}

/// Records the text read for a field: the field is `true` exactly when the
/// text is `true`.
pub fn fns_record(fields: FnsFields, field: FnsField, text: &String) -> (r: FnsFields)
    ensures
        field == FnsField::IsValid ==> r == (FnsFields {
            is_valid: Some(text@ == "true"@),
            income_confirmed: fields.income_confirmed,
        }),
        field == FnsField::IncomeConfirmed ==> r == (FnsFields {
            is_valid: fields.is_valid,
            income_confirmed: Some(text@ == "true"@),
        }),
        r == fields_with(fields, field, text@),
{
    let t = "true".to_owned();
    let v = text.eq(&t);
    match field {
        FnsField::IsValid => FnsFields { is_valid: Some(v), income_confirmed: fields.income_confirmed },
        FnsField::IncomeConfirmed => FnsFields { is_valid: fields.is_valid, income_confirmed: Some(v) },
    }
}

/// The response the fields make: both must have been read.
pub fn fns_finish(fields: FnsFields) -> (r: Result<FnsCheckResponse, SmevError>)
    ensures
        fields.is_valid is None ==> (r is Err && (r->Err_0 matches SmevError::Payload(m)
            && m@ == MISSING_IS_VALID@)),
        fields.is_valid is Some && fields.income_confirmed is None ==> (r is Err && (
        r->Err_0 matches SmevError::Payload(m) && m@ == MISSING_INCOME_CONFIRMED@)),
        fields.is_valid is Some && fields.income_confirmed is Some ==> r is Ok
            && r->Ok_0.is_valid == fields.is_valid->0 && r->Ok_0.income_confirmed
            == fields.income_confirmed->0,
        finishes(fields, r),
{
    let is_valid = match fields.is_valid {
        Some(v) => v,
        None => {
            return Err(SmevError::Payload(MISSING_IS_VALID.to_owned()));
        },
    };
    let income_confirmed = match fields.income_confirmed {
        Some(v) => v,
        None => {
            return Err(SmevError::Payload(MISSING_INCOME_CONFIRMED.to_owned()));
        },
    };
    Ok(FnsCheckResponse { is_valid, income_confirmed })
}

/// Where the strict parser stands: the calls made on its reader, the fields
/// read so far, and whether it still reads.
pub struct StrictState {
    pub calls: Seq<XmlCall>,
    pub fields: FnsFields,
    pub status: StrictStatus,
}

/// Whether the strict parser still reads, reached the end of the input, or
/// met a reader error.
pub enum StrictStatus {
    Reading,
    Done,
    Failed,
}

/// The strict parser before it reads: a reader over the UTF-8 bytes of
/// `xml`, with text trimming on, and no field read.
pub open spec fn strict_start(xml: Seq<char>) -> StrictState {
    StrictState {
        calls: seq![XmlCall::Open(encode_utf8(xml)), XmlCall::TrimText],
        fields: FnsFields { is_valid: None, income_confirmed: None },
        status: StrictStatus::Reading,
    }
}

/// One step of the strict parser: it asks for the next event; the end of
/// input ends the reading and an error fails it; a start tag of `IsValid` or
/// `IncomeConfirmed` has its text read and recorded (an error there fails
/// it); any other event is passed over. A parser that no longer reads stays.
pub open spec fn strict_step(s: StrictState) -> StrictState {
    if !(s.status is Reading) {
        s
    } else {
        let c1 = s.calls.push(XmlCall::NextEvent);
        match xml_reply(c1) {
            XmlReply::Failed => StrictState { calls: c1, fields: s.fields, status: StrictStatus::Failed },
            XmlReply::End => StrictState { calls: c1, fields: s.fields, status: StrictStatus::Done },
            XmlReply::Start(name) => match field_named(name) {
                Some(field) => {
                    let c2 = c1.push(XmlCall::TextOf(name));
                    match xml_reply(c2) {
                        XmlReply::Text(t) => StrictState {
                            calls: c2,
                            fields: fields_with(s.fields, field, t),
                            status: StrictStatus::Reading,
                        },
                        _ => StrictState { calls: c2, fields: s.fields, status: StrictStatus::Failed },
                    }
                },
                None => StrictState { calls: c1, fields: s.fields, status: StrictStatus::Reading },
            },
            _ => StrictState { calls: c1, fields: s.fields, status: StrictStatus::Reading },
        }
    }
}

/// The strict parser after `k` steps.
pub open spec fn strict_after(s: StrictState, k: nat) -> StrictState
    decreases k,
{
    if k == 0 {
        s
    } else {
        strict_step(strict_after(s, (k - 1) as nat))
    }
}

/// `r` is what a parser that stopped in `s` returns: a reader error, or the
/// response of the fields read.
pub open spec fn strict_returns(s: StrictState, r: Result<FnsCheckResponse, SmevError>) -> bool {
    match s.status {
        StrictStatus::Failed => r is Err && r->Err_0 is Xml,
        StrictStatus::Done => finishes(s.fields, r),
        StrictStatus::Reading => false,
    }
}

/// Where the parser stops is where it stays: two stopping points give the
/// same state, so `parse_xml_strict` has one result for each input.
pub proof fn lemma_strict_outcome_unique(s: StrictState, k1: nat, k2: nat)
    requires
        !(strict_after(s, k1).status is Reading),
        !(strict_after(s, k2).status is Reading),
    ensures
        strict_after(s, k1) == strict_after(s, k2),
{
    if k1 <= k2 {
        lemma_strict_stays(s, k1, k2);
    } else {
        lemma_strict_stays(s, k2, k1);
    }
}

/// Once stopped, the parser stays where it stopped.
pub proof fn lemma_strict_stays(s: StrictState, k: nat, j: nat)
    requires
        !(strict_after(s, k).status is Reading),
        k <= j,
    ensures
        strict_after(s, j) == strict_after(s, k),
    decreases j,
{
    if j > k {
        lemma_strict_stays(s, k, (j - 1) as nat);
    }
}

impl FnsCheckResponse {
    /// Reads the response with an XML reader (whitespace around text
    /// trimmed): the text of each `<IsValid>` and `<IncomeConfirmed>` element
    /// sets its flag, `true` when the text is `true`, the last one counting.
    /// A reader error is returned as it is; a missing element is a payload
    /// error, `<IsValid>` checked first. The parser stops after finitely many
    /// steps, and returns what it stopped at.
    pub fn parse_xml_strict(xml: &str) -> (r: Result<FnsCheckResponse, SmevError>)
        ensures
            exists|k: nat|
                !(#[trigger] strict_after(strict_start(xml@), k).status is Reading)
                    && strict_returns(strict_after(strict_start(xml@), k), r),
    {
        let mut reader = xml_reader_from_str(xml);
        xml_trim_text(&mut reader);
        let mut buf: Vec<u8> = Vec::new();
        let mut fields = FnsFields { is_valid: None, income_confirmed: None };
        let ghost start = strict_start(xml@);
        let ghost mut k: nat = 0;
        proof {
            assert(xml_calls(reader) =~= start.calls);
        }
        loop
            invariant_except_break
                strict_after(start, k) == (StrictState {
                    calls: xml_calls(reader),
                    fields,
                    status: StrictStatus::Reading,
                }),
            invariant
                start == strict_start(xml@),
            ensures
                strict_after(start, k).status is Done,
                strict_after(start, k).fields == fields,
            decreases xml_unread(reader).len(),
        {
            let ghost before = strict_after(start, k);
            let event = xml_read_event(&mut reader, &mut buf);
            let ghost c1 = before.calls.push(XmlCall::NextEvent);
            proof {
                assert(strict_after(start, k + 1) == strict_step(before));
            }
            match event {
                Err(e) => {
                    let r = Err(SmevError::Xml(e));
                    proof {
                        assert(!(strict_after(start, k + 1).status is Reading));
                        assert(strict_returns(strict_after(start, k + 1), r));
                    }
                    return r;
                },
                Ok(XmlEvent::Start(name)) => {
                    match fns_field_of(name.as_slice()) {
                        Some(field) => {
                            let text = match xml_read_text(&mut reader, name.as_slice()) {
                                Ok(t) => t,
                                Err(e) => {
                                    let r = Err(SmevError::Xml(e));
                                    proof {
                                        assert(!(strict_after(start, k + 1).status is Reading));
                                        assert(strict_returns(strict_after(start, k + 1), r));
                                    }
                                    return r;
                                },
                            };
                            fields = fns_record(fields, field, &text);
                        },
                        None => {},
                    }
                },
                Ok(XmlEvent::Eof) => {
                    proof {
                        k = k + 1;
                    }
                    break ;
                },
                Ok(XmlEvent::Other) => {},
            }
            buf.clear();
            proof {
                k = k + 1;
            }
        }
        let r = fns_finish(fields);
        proof {
            assert(strict_returns(strict_after(start, k), r));
        }
        r
    }
}

/// The answer to a request that SMEV queues: a status outside 2xx is a
/// refusal, named by `refused` and the status text; otherwise the ticket of
/// the body.
fn submission_outcome(refused: &str, status: u16, status_text: &str, body: Option<String>) -> (r:
    Result<QueueTicket, SmevError>)
    requires
        is_success_status(status) ==> body is Some,
    ensures
        !is_success_status(status) ==> (r is Err && (r->Err_0 matches SmevError::Payload(m) && m@
            == refused@ + status_text@)),
        is_success_status(status) ==> gives_ticket(body->0@, r),
{
    if !(200 <= status && status <= 299) {
        return Err(SmevError::Payload(refused.to_owned().concat(status_text)));
    }
    match body {
        Some(text) => extract_ticket(text.as_str()),
        None => Err(SmevError::Payload(refused.to_owned().concat(status_text))),
    }
}

/// The answer to an INN and income check: a status outside 2xx is refused
/// with `SMEV Refused: ` and the status text; otherwise the reply body
/// carries the queue ticket.
pub fn fns_check_outcome(status: u16, status_text: &str, body: Option<String>) -> (r: Result<
    QueueTicket,
    SmevError,
>)
    requires
        is_success_status(status) ==> body is Some,
    ensures
        !is_success_status(status) ==> (r is Err && (r->Err_0 matches SmevError::Payload(m) && m@
            == "SMEV Refused: "@ + status_text@)),
        is_success_status(status) ==> gives_ticket(body->0@, r),
{
    submission_outcome("SMEV Refused: ", status, status_text, body)
}

/// The answer to an ESIA profile request: a status outside 2xx is refused
/// with `ESIA Refused: ` and the status text; otherwise the reply body
/// carries the queue ticket.
pub fn esia_profile_outcome(status: u16, status_text: &str, body: Option<String>) -> (r: Result<
    QueueTicket,
    SmevError,
>)
    requires
        is_success_status(status) ==> body is Some,
    ensures
        !is_success_status(status) ==> (r is Err && (r->Err_0 matches SmevError::Payload(m) && m@
            == "ESIA Refused: "@ + status_text@)),
        is_success_status(status) ==> gives_ticket(body->0@, r),
{
    submission_outcome("ESIA Refused: ", status, status_text, body)
}

/// The FNS check request: an INN and a date of birth, both escaped, in the
/// SMEV message template.
pub open spec fn fns_check_payload_text(inn: Seq<char>, dob: Seq<char>) -> Seq<char> {
    "\n            <SmevMessage>\n                <Sender>BANKS</Sender>\n                <Recipient>FNS</Recipient>\n                <Payload>\n                    <InnCheckReq>\n                        <Inn>"@
        + xml_escaped(inn) + "</Inn>\n                        <Dob>"@ + xml_escaped(dob)
        + "</Dob>\n                    </InnCheckReq>\n                </Payload>\n            </SmevMessage>\n        "@
}

/// The ESIA profile request for an object id, escaped, in the SMEV message
/// template.
pub open spec fn esia_profile_payload_text(oid: Seq<char>) -> Seq<char> {
    "\n            <SmevMessage>\n                <Sender>BANKS</Sender>\n                <Recipient>ESIA</Recipient>\n                <Payload>\n                    <EsiaProfileReq>\n                        <Oid>"@
        + xml_escaped(oid)
        + "</Oid>\n                        <Scope>fullname birthdate passport</Scope>\n                    </EsiaProfileReq>\n                </Payload>\n            </SmevMessage>\n        "@
}

/// The ESIA profile request is sent by the banks to ESIA, asks for the
/// full name, birth date and passport, and carries the object id, escaped,
/// as its `Oid` element.
pub proof fn lemma_esia_request_addressed(oid: Seq<char>)
    ensures
        occurs_in(esia_profile_payload_text(oid), "<Sender>BANKS</Sender>"@),
        occurs_in(esia_profile_payload_text(oid), "<Recipient>ESIA</Recipient>"@),
        occurs_in(esia_profile_payload_text(oid), "<EsiaProfileReq>"@),
        occurs_in(esia_profile_payload_text(oid), "<Oid>"@ + xml_escaped(oid) + "</Oid>"@),
        occurs_in(
            esia_profile_payload_text(oid),
            "<Scope>fullname birthdate passport</Scope>"@,
        ),
{
    reveal_strlit("\n            <SmevMessage>\n                <Sender>BANKS</Sender>\n                <Recipient>ESIA</Recipient>\n                <Payload>\n                    <EsiaProfileReq>\n                        <Oid>");
    reveal_strlit("</Oid>\n                        <Scope>fullname birthdate passport</Scope>\n                    </EsiaProfileReq>\n                </Payload>\n            </SmevMessage>\n        ");
    reveal_strlit("<Sender>BANKS</Sender>");
    reveal_strlit("<Recipient>ESIA</Recipient>");
    reveal_strlit("<Oid>");
    reveal_strlit("</Oid>");
    reveal_strlit("<EsiaProfileReq>");
    reveal_strlit("<Scope>fullname birthdate passport</Scope>");
    let t = esia_profile_payload_text(oid);
    let x = xml_escaped(oid);
    let xn: int = x.len() as int;
    assert(occurs_at(t, "<Sender>BANKS</Sender>"@, 43)) by {
        assert(t.subrange(43, 65) =~= "<Sender>BANKS</Sender>"@);
    }
    assert(occurs_at(t, "<Recipient>ESIA</Recipient>"@, 82)) by {
        assert(t.subrange(82, 109) =~= "<Recipient>ESIA</Recipient>"@);
    }
    assert(occurs_at(t, "<Oid>"@ + x + "</Oid>"@, 197)) by {
        assert(t.subrange(197, 208 + xn) =~= "<Oid>"@ + x + "</Oid>"@);
    }
    assert(occurs_at(t, "<EsiaProfileReq>"@, 156)) by {
        assert(t.subrange(156, 172) =~= "<EsiaProfileReq>"@);
    }
    assert(occurs_at(t, "<Scope>fullname birthdate passport</Scope>"@, 233 + xn)) by {
        assert(t.subrange(233 + xn, 275 + xn) =~= "<Scope>fullname birthdate passport</Scope>"@);
    }
}

/// The FNS check request is sent by the banks to FNS, and carries the INN
/// and the date of birth, escaped, as its `Inn` and `Dob` elements.
pub proof fn lemma_fns_request_addressed(inn: Seq<char>, dob: Seq<char>)
    ensures
        occurs_in(fns_check_payload_text(inn, dob), "<Sender>BANKS</Sender>"@),
        occurs_in(fns_check_payload_text(inn, dob), "<Recipient>FNS</Recipient>"@),
        occurs_in(fns_check_payload_text(inn, dob), "<InnCheckReq>"@),
        occurs_in(fns_check_payload_text(inn, dob), "<Inn>"@ + xml_escaped(inn) + "</Inn>"@),
        occurs_in(fns_check_payload_text(inn, dob), "<Dob>"@ + xml_escaped(dob) + "</Dob>"@),
{
    reveal_strlit("\n            <SmevMessage>\n                <Sender>BANKS</Sender>\n                <Recipient>FNS</Recipient>\n                <Payload>\n                    <InnCheckReq>\n                        <Inn>");
    reveal_strlit("</Inn>\n                        <Dob>");
    reveal_strlit("</Dob>\n                    </InnCheckReq>\n                </Payload>\n            </SmevMessage>\n        ");
    reveal_strlit("<Sender>BANKS</Sender>");
    reveal_strlit("<Recipient>FNS</Recipient>");
    reveal_strlit("<Inn>");
    reveal_strlit("</Inn>");
    reveal_strlit("<InnCheckReq>");
    reveal_strlit("<Dob>");
    reveal_strlit("</Dob>");
    let t = fns_check_payload_text(inn, dob);
    let x = xml_escaped(inn);
    let xn: int = x.len() as int;
    let y = xml_escaped(dob);
    let yn: int = y.len() as int;
    assert(occurs_at(t, "<Sender>BANKS</Sender>"@, 43)) by {
        assert(t.subrange(43, 65) =~= "<Sender>BANKS</Sender>"@);
    }
    assert(occurs_at(t, "<Recipient>FNS</Recipient>"@, 82)) by {
        assert(t.subrange(82, 108) =~= "<Recipient>FNS</Recipient>"@);
    }
    assert(occurs_at(t, "<InnCheckReq>"@, 155)) by {
        assert(t.subrange(155, 168) =~= "<InnCheckReq>"@);
    }
    assert(occurs_at(t, "<Inn>"@ + x + "</Inn>"@, 193)) by {
        assert(t.subrange(193, 204 + xn) =~= "<Inn>"@ + x + "</Inn>"@);
    }
    let k: int = 198 + xn + 31;
    assert(occurs_at(t, "<Dob>"@ + y + "</Dob>"@, k)) by {
        assert(t.subrange(k, k + 11 + yn) =~= "<Dob>"@ + y + "</Dob>"@);
    }
}

/// The request body of an INN and income check.
pub fn fns_check_payload(inn: &Inn, dob_dmy: &str) -> (p: String)
    ensures
        p@ == fns_check_payload_text(inn.digits(), dob_dmy@),
{
    let mut p = "\n            <SmevMessage>\n                <Sender>BANKS</Sender>\n                <Recipient>FNS</Recipient>\n                <Payload>\n                    <InnCheckReq>\n                        <Inn>".to_owned();
    p.append(xml_escape(inn.as_str()).as_str());
    p.append("</Inn>\n                        <Dob>");
    p.append(xml_escape(dob_dmy).as_str());
    p.append("</Dob>\n                    </InnCheckReq>\n                </Payload>\n            </SmevMessage>\n        ");
    p
}

/// The request body of an ESIA profile request.
pub fn esia_profile_payload(oid: &str) -> (p: String)
    ensures
        p@ == esia_profile_payload_text(oid@),
{
    let mut p = "\n            <SmevMessage>\n                <Sender>BANKS</Sender>\n                <Recipient>ESIA</Recipient>\n                <Payload>\n                    <EsiaProfileReq>\n                        <Oid>".to_owned();
    p.append(xml_escape(oid).as_str());
    p.append("</Oid>\n                        <Scope>fullname birthdate passport</Scope>\n                    </EsiaProfileReq>\n                </Payload>\n            </SmevMessage>\n        ");
    p
}

/// The FNS service of a SMEV client.
pub struct FnsService<'a> {
    client: &'a SmevClient,
}

impl<'a> FnsService<'a> {
    /// The SMEV client the service sends through.
    pub closed spec fn client(self) -> SmevClient {
        *self.client
    }

    /// The FNS service of `client`.
    pub fn new(client: &'a SmevClient) -> (s: FnsService<'a>)
        ensures
            s.client() == *client,
    {
        FnsService { client }
    }

    /// The SMEV client the service sends through.
    pub fn smev_client(&self) -> (c: &'a SmevClient)
        ensures
            *c == self.client(),
    {
        self.client
    }

    /// Where INN and income checks are posted.
    pub fn check_url(&self) -> (u: String)
        ensures
            u@ == self.client().base_url_of() + "/api/v1/fns/check"@,
    {
        self.client.get_url("/api/v1/fns/check")
    }
}

/// The ESIA service of a SMEV client.
pub struct EsiaService<'a> {
    client: &'a SmevClient,
}

impl<'a> EsiaService<'a> {
    /// The SMEV client the service sends through.
    pub closed spec fn client(self) -> SmevClient {
        *self.client
    }

    /// The ESIA service of `client`.
    pub fn new(client: &'a SmevClient) -> (s: EsiaService<'a>)
        ensures
            s.client() == *client,
    {
        EsiaService { client }
    }

    /// The SMEV client the service sends through.
    pub fn smev_client(&self) -> (c: &'a SmevClient)
        ensures
            *c == self.client(),
    {
        self.client
    }

    /// Where profile requests are posted.
    pub fn profile_url(&self) -> (u: String)
        ensures
            u@ == self.client().base_url_of() + "/api/v1/esia/profile"@,
    {
        self.client.get_url("/api/v1/esia/profile")
    }
}

} // verus!
