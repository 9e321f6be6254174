//! Identifiers: taxpayer and registration numbers, and UUID-based ids.

use vstd::prelude::*;
use crate::text::{chars_of, hex_lower, hex_text, push_char, string_from_chars, string_from_range};

verus! {

/// Wraps personal data so that it is kept out of logs.
#[derive(Clone, PartialEq, Eq, Hash)]
pub struct Sensitive<T>(pub T);

impl<T> Sensitive<T> {
    /// What the value shows in logs and debug output, whatever it holds.
    pub fn redacted(&self) -> (s: &'static str)
        ensures
            s@ == "[REDACTED PII]"@,
    {
        "[REDACTED PII]"
    }
}

/// A decimal digit `0`-`9`.
pub open spec fn is_ascii_digit(c: char) -> bool {
    '0' <= c && c <= '9'
}

/// The ASCII digits of `s`, in order; everything else is dropped.
pub open spec fn ascii_digits(s: Seq<char>) -> Seq<char>
    decreases s.len(),
{
    if s.len() == 0 {
        Seq::empty()
    } else if is_ascii_digit(s.last()) {
        ascii_digits(s.drop_last()).push(s.last())
    } else {
        ascii_digits(s.drop_last())
    }
}

/// Keeping the digits drops every other character and keeps the digits in
/// order: only `0`-`9` remain, a text of digits is kept whole, a single
/// other character is dropped, and the digits of two texts joined are the
/// digits of each, joined.
pub proof fn lemma_ascii_digits_filter(a: Seq<char>, b: Seq<char>, c: char)
    ensures
        forall|i: int| 0 <= i < ascii_digits(a).len() ==> '0' <= #[trigger] ascii_digits(a)[i]
            && ascii_digits(a)[i] <= '9',
        (forall|i: int| 0 <= i < a.len() ==> '0' <= #[trigger] a[i] && a[i] <= '9')
            ==> ascii_digits(a) == a,
        !('0' <= c && c <= '9') ==> ascii_digits(seq![c]) == Seq::<char>::empty(),
        ascii_digits(a + b) == ascii_digits(a) + ascii_digits(b),
    decreases b.len(),
{
    lemma_ascii_digits_are_digits(a);
    lemma_ascii_digits_of_digits(a);
    let one = seq![c];
    assert(one.drop_last() =~= Seq::<char>::empty());
    assert(one.last() == c);
    assert(ascii_digits(Seq::<char>::empty()) =~= Seq::<char>::empty());
    if b.len() == 0 {
        assert(a + b =~= a);
        assert(ascii_digits(a) + ascii_digits(b) =~= ascii_digits(a));
    } else {
        lemma_ascii_digits_filter(a, b.drop_last(), c);
        assert((a + b).drop_last() =~= a + b.drop_last());
        assert((a + b).last() == b.last());
        if is_ascii_digit(b.last()) {
            assert(ascii_digits(a + b) =~= ascii_digits(a) + ascii_digits(b));
        } else {
            assert(ascii_digits(a + b) =~= ascii_digits(a) + ascii_digits(b));
        }
    }
}

proof fn lemma_ascii_digits_are_digits(a: Seq<char>)
    ensures
        forall|i: int| 0 <= i < ascii_digits(a).len() ==> '0' <= #[trigger] ascii_digits(a)[i]
            && ascii_digits(a)[i] <= '9',
    decreases a.len(),
{
    if a.len() > 0 {
        let p = a.drop_last();
        lemma_ascii_digits_are_digits(p);
        let d = ascii_digits(a);
        assert forall|i: int| 0 <= i < d.len() implies '0' <= #[trigger] d[i] && d[i] <= '9' by {
            if is_ascii_digit(a.last()) {
                assert(d == ascii_digits(p).push(a.last()));
                if i < ascii_digits(p).len() {
                    assert(d[i] == ascii_digits(p)[i]);
                }
            } else {
                assert(d == ascii_digits(p));
            }
        }
    }
}

proof fn lemma_ascii_digits_of_digits(a: Seq<char>)
    ensures
        (forall|i: int| 0 <= i < a.len() ==> '0' <= #[trigger] a[i] && a[i] <= '9')
            ==> ascii_digits(a) == a,
    decreases a.len(),
{
    if a.len() > 0 && (forall|i: int| 0 <= i < a.len() ==> '0' <= #[trigger] a[i] && a[i] <= '9') {
        let p = a.drop_last();
        assert forall|i: int| 0 <= i < p.len() implies '0' <= #[trigger] p[i] && p[i] <= '9' by {
            assert(p[i] == a[i]);
        }
        lemma_ascii_digits_of_digits(p);
        assert(a.last() == a[a.len() - 1]);
        assert(p.push(a.last()) =~= a);
    }
}

fn keep_ascii_digits(s: &str) -> (d: String)
    ensures
        d@ == ascii_digits(s@),
{
    let cs = chars_of(s);
    let mut out: Vec<char> = Vec::new();
    let n = cs.len();
    let mut i: usize = 0;
    while i < n
        invariant
            n == cs@.len(),
            cs@ == s@,
            0 <= i <= n,
            out@ == ascii_digits(cs@.take(i as int)),
        decreases n - i,
    {
        let c = cs[i];
        proof {
            assert(cs@.take(i as int + 1).drop_last() =~= cs@.take(i as int));
        }
        if '0' <= c && c <= '9' {
            out.push(c);
        }
        i = i + 1;
    }
    proof {
        assert(cs@.take(n as int) =~= cs@);
    }
    string_from_chars(&out)
}

/// Errors of identifier parsing.
#[derive(Debug)]
pub enum RfeError {
    /// The input, which does not hold 10 or 12 digits.
    InvalidInn(String),
    /// The input, which does not hold 13 or 15 digits.
    InvalidOgrn(String),
    /// A decimal that could not be parsed.
    DecimalParse(String),
}

/// Russian taxpayer identification number (INN), 10 or 12 digits.
#[derive(Clone, PartialEq, Eq, Hash)]
pub struct Inn(pub Sensitive<String>);

impl Inn {
    /// The digits held.
    pub open spec fn digits(self) -> Seq<char> {
        self.0.0@
    }

    /// Without validation; `parse` validates.
    pub fn new_unchecked(s: &str) -> (inn: Inn)
        ensures
            inn.digits() == s@,
    {
        Inn(Sensitive(s.to_owned()))
    }

    /// Keeps the digits of `s`, which must be 10 (legal entity) or 12
    /// (individual).
    pub fn parse(s: &str) -> (r: Result<Inn, RfeError>)
        ensures
            (ascii_digits(s@).len() == 10 || ascii_digits(s@).len() == 12) ==> r is Ok
                && r->Ok_0.digits() == ascii_digits(s@),
            !(ascii_digits(s@).len() == 10 || ascii_digits(s@).len() == 12) ==> (r is Err
                && (r->Err_0 matches RfeError::InvalidInn(t) && t@ == s@)),
    {
        let digits = keep_ascii_digits(s);
        let len = digits.as_str().unicode_len();
        if len == 10 || len == 12 {
            Ok(Inn(Sensitive(digits)))
        } else {
            Err(RfeError::InvalidInn(s.to_owned()))
        }
    }

    /// The digits, as text.
    pub fn as_str(&self) -> (s: &str)
        ensures
            s@ == self.digits(),
    {
        self.0.0.as_str()
    }
}

/// Russian primary state registration number (OGRN), 13 or 15 digits.
#[derive(Clone, PartialEq, Eq, Hash)]
pub struct Ogrn(pub Sensitive<String>);

impl Ogrn {
    /// The digits held.
    pub open spec fn digits(self) -> Seq<char> {
        self.0.0@
    }

    /// Keeps the digits of `s`, which must be 13 or 15.
    pub fn parse(s: &str) -> (r: Result<Ogrn, RfeError>)
        ensures
            (ascii_digits(s@).len() == 13 || ascii_digits(s@).len() == 15) ==> r is Ok
                && r->Ok_0.digits() == ascii_digits(s@),
            !(ascii_digits(s@).len() == 13 || ascii_digits(s@).len() == 15) ==> (r is Err
                && (r->Err_0 matches RfeError::InvalidOgrn(t) && t@ == s@)),
    {
        let digits = keep_ascii_digits(s);
        let len = digits.as_str().unicode_len();
        if len == 13 || len == 15 {
            Ok(Ogrn(Sensitive(digits)))
        } else {
            Err(RfeError::InvalidOgrn(s.to_owned()))
        }
    }

    /// The digits, as text.
    pub fn as_str(&self) -> (s: &str)
        ensures
            s@ == self.digits(),
    {
        self.0.0.as_str()
    }
}

/// Calls `uuid::Uuid::new_v4` and takes its 16 bytes: random, but with the
/// version nibble set to 4 and the RFC 4122 variant bits set to `10`.
#[verifier::external_body]
fn uuid_v4_bytes() -> (b: [u8; 16])
    ensures
        b@[6] / 16 == 4,
        b@[8] / 64 == 2,
{
    *uuid::Uuid::new_v4().as_bytes()
}

/// A random (version 4) UUID.
pub open spec fn is_v4_uuid(b: Seq<u8>) -> bool {
    b.len() == 16 && b[6] / 16 == 4 && b[8] / 64 == 2
}

/// The nil UUID: sixteen zero bytes.
pub open spec fn is_nil_uuid(b: Seq<u8>) -> bool {
    b.len() == 16 && forall|i: int| 0 <= i < 16 ==> b[i] == 0
}

/// The text form of a UUID, as `uuid` displays it: the 32 lowercase hex
/// digits in groups of 8, 4, 4, 4 and 12, joined by hyphens.
pub open spec fn uuid_text(b: Seq<u8>) -> Seq<char> {
    let h = hex_text(b);
    h.subrange(0, 8) + seq!['-'] + h.subrange(8, 12) + seq!['-'] + h.subrange(12, 16) + seq!['-']
        + h.subrange(16, 20) + seq!['-'] + h.subrange(20, 32)
}

fn uuid_to_text(b: &[u8; 16]) -> (s: String)
    ensures
        s@ == uuid_text(b@),
{
    let h = chars_of(hex_lower(b.as_slice()).as_str());
    let mut s = string_from_range(&h, 0, 8);
    push_char(&mut s, '-');
    s.append(string_from_range(&h, 8, 12).as_str());
    push_char(&mut s, '-');
    s.append(string_from_range(&h, 12, 16).as_str());
    push_char(&mut s, '-');
    s.append(string_from_range(&h, 16, 20).as_str());
    push_char(&mut s, '-');
    s.append(string_from_range(&h, 20, 32).as_str());
    proof {
        assert(s@ =~= uuid_text(b@));
    }
    s
}

/// Unique request or correlation identifier.
#[derive(Clone, Copy, PartialEq, Eq, Hash, Debug)]
pub struct RequestId(pub(crate) [u8; 16]);

/// Loan or order identifier.
#[derive(Clone, Copy, PartialEq, Eq, Hash, Debug)]
pub struct LoanId(pub(crate) [u8; 16]);

/// Client or customer identifier.
#[derive(Clone, Copy, PartialEq, Eq, Hash, Debug)]
pub struct ClientId(pub(crate) [u8; 16]);

impl RequestId {
    /// The UUID bytes.
    pub closed spec fn bytes(self) -> Seq<u8> {
        self.0@
    }

    /// A fresh random (version 4) id.
    pub fn new() -> (id: RequestId)
        ensures
            is_v4_uuid(id.bytes()),
    {
        RequestId(uuid_v4_bytes())
    }

    /// The id whose UUID has the given 16 bytes.
    pub fn from_uuid(uuid: [u8; 16]) -> (id: RequestId)
        ensures
            id.bytes() == uuid@,
    {
        RequestId(uuid)
    }

    /// The nil id.
    pub fn nil() -> (id: RequestId)
        ensures
            is_nil_uuid(id.bytes()),
    {
        RequestId([0u8; 16])
    }

    /// The 16 bytes of the UUID.
    pub fn as_bytes(&self) -> (b: &[u8])
        ensures
            b@ == self.bytes(),
    {
        self.0.as_slice()
    }
}

impl RequestId {
    /// The id's text: its UUID in hyphenated form.
    pub fn to_string(&self) -> (s: String)
        ensures
            s@ == uuid_text(self.bytes()),
    {
        uuid_to_text(&self.0)
    }
}

impl Default for RequestId {
    fn default() -> (id: RequestId)
        ensures
            is_nil_uuid(id.bytes()),
    {
        RequestId::nil()
    }
}

impl LoanId {
    /// The UUID bytes.
    pub closed spec fn bytes(self) -> Seq<u8> {
        self.0@
    }

    /// A fresh random (version 4) id.
    pub fn new() -> (id: LoanId)
        ensures
            is_v4_uuid(id.bytes()),
    {
        LoanId(uuid_v4_bytes())
    }

    /// The id whose UUID has the given 16 bytes.
    pub fn from_uuid(uuid: [u8; 16]) -> (id: LoanId)
        ensures
            id.bytes() == uuid@,
    {
        LoanId(uuid)
    }

    /// The nil id.
    pub fn nil() -> (id: LoanId)
        ensures
            is_nil_uuid(id.bytes()),
    {
        LoanId([0u8; 16])
    }

    /// The 16 bytes of the UUID.
    pub fn as_bytes(&self) -> (b: &[u8])
        ensures
            b@ == self.bytes(),
    {
        self.0.as_slice()
    }
}

impl LoanId {
    /// The id's text: its UUID in hyphenated form.
    pub fn to_string(&self) -> (s: String)
        ensures
            s@ == uuid_text(self.bytes()),
    {
        uuid_to_text(&self.0)
    }
}

impl Default for LoanId {
    fn default() -> (id: LoanId)
        ensures
            is_nil_uuid(id.bytes()),
    {
        LoanId::nil()
    }
}

impl ClientId {
    /// The UUID bytes.
    pub closed spec fn bytes(self) -> Seq<u8> {
        self.0@
    }

    /// A fresh random (version 4) id.
    pub fn new() -> (id: ClientId)
        ensures
            is_v4_uuid(id.bytes()),
    {
        ClientId(uuid_v4_bytes())
    }

    /// The id whose UUID has the given 16 bytes.
    pub fn from_uuid(uuid: [u8; 16]) -> (id: ClientId)
        ensures
            id.bytes() == uuid@,
    {
        ClientId(uuid)
    }

    /// The nil id.
    pub fn nil() -> (id: ClientId)
        ensures
            is_nil_uuid(id.bytes()),
    {
        ClientId([0u8; 16])
    }

    /// The 16 bytes of the UUID.
    pub fn as_bytes(&self) -> (b: &[u8])
        ensures
            b@ == self.bytes(),
    {
        self.0.as_slice()
    }
}

impl ClientId {
    /// The id's text: its UUID in hyphenated form.
    pub fn to_string(&self) -> (s: String)
        ensures
            s@ == uuid_text(self.bytes()),
    {
        uuid_to_text(&self.0)
    }
}

impl Default for ClientId {
    fn default() -> (id: ClientId)
        ensures
            is_nil_uuid(id.bytes()),
    {
        ClientId::nil()
    }
}

} // verus!
