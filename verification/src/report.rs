//! Compliance reports, their canonical order and the canonical result hash
//! of the Seal v1 protocol.

use vstd::prelude::*;
use vstd::utf8::encode_utf8;
use crate::decimal::{Decimal, decimal_display};
use crate::digest::{
    blake3_hash, blake3_of, hasher_finalize, hasher_input, hasher_new, hasher_update,
};
use crate::text::{
    chars_of, decimal_text, lemma_text_lt_asymmetric, lemma_text_lt_total,
    lemma_text_lt_transitive, text_less, text_lt, u64_to_text,
};

verus! {

/// A fraud sign from the Bank of Russia's list, or one the list does not
/// name yet.
#[derive(Debug, Clone, PartialEq, Eq, PartialOrd, Ord)]
pub enum FraudSign {
    ReceiverInDatabase,
    DeviceInDatabase,
    AtypicalTransaction,
    SuspiciousSbpTransfer,
    SuspiciousNfcActivity,
    MultipleAccountsFromSingleDevice,
    InconsistentGeolocation,
    HighVelocityTransfersInShortWindow,
    RemoteAccessToolDetected,
    KnownProxyOrVpnEndpoint,
    SocialEngineeringPatternDetected,
    /// Signal received from another payment system operator.
    ExternalOperatorSignal,
    Other(String),
}

/// The compliance outcome on one transaction.
#[derive(Debug, Clone, PartialEq, Eq)]
pub struct ComplianceReport {
    pub transaction_id: String,
    pub pdn_ratio: Decimal,
    pub is_pdn_risky: bool,
    pub fraud_signs: Vec<FraudSign>,
    pub recommendation: String,
    pub created_at_micros: u64,
}

/// Why reports could not be put into canonical form.
#[derive(Debug, Clone, Copy, PartialEq, Eq)]
pub enum CanonicalHashError {
    SerializationFailed,
}

impl CanonicalHashError {
    /// The error's message.
    pub fn message(&self) -> (m: &'static str)
        ensures
            m@ == "canonical serialization failed"@,
    {
        "canonical serialization failed"
    }
}

// ---- Canonical order ---------------------------------------------------

/// Whether a report carries transaction id `k`.
pub open spec fn id_is(k: Seq<char>) -> spec_fn(ComplianceReport) -> bool {
    |r: ComplianceReport| r.transaction_id@ == k
}

/// The reports of `s` with transaction id `k`, in their order in `s`.
pub open spec fn with_id(s: Seq<ComplianceReport>, k: Seq<char>) -> Seq<ComplianceReport> {
    s.filter(id_is(k))
}

/// The reports are in nondecreasing order of transaction id.
pub open spec fn ids_sorted(s: Seq<ComplianceReport>) -> bool {
    forall|p: int, q: int|
        #![trigger s[p], s[q]]
        0 <= p < q < s.len() ==> !text_lt(s[q].transaction_id@, s[p].transaction_id@)
}

/// `out` is `inp` in canonical order: sorted by transaction id, the reports
/// that share an id keeping the order they had in `inp`.
pub open spec fn canonical_order_of(out: Seq<ComplianceReport>, inp: Seq<ComplianceReport>) -> bool {
    &&& ids_sorted(out)
    &&& forall|k: Seq<char>| #[trigger] with_id(out, k) == with_id(inp, k)
}

/// The position where the report at `i` goes among the sorted reports before
/// it: after every id not greater than its own.
fn insertion_point(keys: &Vec<Vec<char>>, i: usize) -> (j: usize)
    requires
        i < keys@.len(),
    ensures
        j <= i,
        forall|p: int| j <= p < i ==> text_lt(keys@[i as int]@, #[trigger] keys@[p]@),
        j > 0 ==> !text_lt(keys@[i as int]@, keys@[j - 1]@),
{
    let mut j: usize = i;
    while j > 0 && text_less(&keys[i], &keys[j - 1])
        invariant
            i < keys@.len(),
            j <= i,
            forall|p: int| j <= p < i ==> text_lt(keys@[i as int]@, #[trigger] keys@[p]@),
        decreases j,
    {
        j = j - 1;
    }
    j
}

/// Moving the report at `i` back to `j`, past reports with greater ids only,
/// extends the sorted prefix by one and keeps the order of every id.
proof fn lemma_move_back(v: Seq<ComplianceReport>, i: int, j: int)
    requires
        0 <= j <= i < v.len(),
        ids_sorted(v.take(i)),
        forall|p: int|
            j <= p < i ==> text_lt(v[i].transaction_id@, #[trigger] v[p].transaction_id@),
        j > 0 ==> !text_lt(v[i].transaction_id@, v[j - 1].transaction_id@),
    ensures
        v.remove(i).insert(j, v[i]).len() == v.len(),
        ids_sorted(v.remove(i).insert(j, v[i]).take(i + 1)),
        forall|k: Seq<char>| #[trigger] with_id(v.remove(i).insert(j, v[i]), k) == with_id(v, k),
{
    broadcast use Seq::filter_distributes_over_add;

    let x = v[i];
    let w = v.remove(i).insert(j, x);
    let t = w.take(i + 1);
    assert forall|p: int, q: int|
        #![trigger t[p], t[q]]
        0 <= p < q < t.len() implies !text_lt(t[q].transaction_id@, t[p].transaction_id@) by {
        let s = v.take(i);
        if q == j {
            let kp = v[p].transaction_id@;
            let kj = v[j - 1].transaction_id@;
            if p < j - 1 {
                assert(!text_lt(s[j - 1].transaction_id@, s[p].transaction_id@));
            }
            lemma_text_lt_total(kp, kj);
            lemma_text_lt_transitive(x.transaction_id@, kp, kj);
        } else if p == j {
            lemma_text_lt_asymmetric(x.transaction_id@, v[q - 1].transaction_id@);
        } else if q < j {
            assert(!text_lt(s[q].transaction_id@, s[p].transaction_id@));
        } else if p < j {
            assert(!text_lt(s[q - 1].transaction_id@, s[p].transaction_id@));
        } else {
            assert(!text_lt(s[q - 1].transaction_id@, s[p - 1].transaction_id@));
        }
    }
    let a = v.subrange(0, j);
    let b = v.subrange(j, i);
    let c = v.subrange(i + 1, v.len() as int);
    assert(v =~= a + b + seq![x] + c);
    assert(w =~= a + seq![x] + b + c);
    assert forall|k: Seq<char>| #[trigger] with_id(w, k) == with_id(v, k) by {
        let f = id_is(k);
        assert(with_id(v, k) == a.filter(f) + b.filter(f) + seq![x].filter(f) + c.filter(f));
        assert(with_id(w, k) == a.filter(f) + seq![x].filter(f) + b.filter(f) + c.filter(f));
        if x.transaction_id@ == k {
            assert forall|p: int| 0 <= p < b.len() implies !f(#[trigger] b[p]) by {
                crate::text::lemma_text_lt_irreflexive(k);
            }
            b.lemma_all_neg_filter_empty(f);
            assert(b.filter(f) =~= Seq::<ComplianceReport>::empty());
        } else {
            reveal_with_fuel(Seq::filter, 2);
            assert(seq![x].drop_last() =~= Seq::<ComplianceReport>::empty());
            assert(seq![x].filter(f) =~= Seq::<ComplianceReport>::empty());
        }
    }
}

/// Puts the reports into canonical order: sorted by transaction id, reports
/// with equal ids keeping their order (a stable sort).
pub fn sort_reports(reports: &mut Vec<ComplianceReport>)
    ensures
        canonical_order_of(final(reports)@, old(reports)@),
{
    let n = reports.len();
    let mut keys: Vec<Vec<char>> = Vec::new();
    let mut t: usize = 0;
    while t < n
        invariant
            n == reports@.len(),
            0 <= t <= n,
            keys@.len() == t,
            forall|j: int| 0 <= j < t ==> (#[trigger] keys@[j])@ == reports@[j].transaction_id@,
        decreases n - t,
    {
        let k = chars_of(reports[t].transaction_id.as_str());
        keys.push(k);
        t = t + 1;
    }
    let mut i: usize = 0;
    while i < n
        invariant
            n == reports@.len(),
            keys@.len() == n,
            0 <= i <= n,
            forall|j: int| 0 <= j < n ==> (#[trigger] keys@[j])@ == reports@[j].transaction_id@,
            ids_sorted(reports@.take(i as int)),
            forall|k: Seq<char>| #[trigger] with_id(reports@, k) == with_id(old(reports)@, k),
        decreases n - i,
    {
        let j = insertion_point(&keys, i);
        let ghost v = reports@;
        let ghost kv = keys@;
        proof {
            assert(keys@[i as int]@ == v[i as int].transaction_id@);
            assert forall|p: int| j <= p < i implies text_lt(
                v[i as int].transaction_id@,
                #[trigger] v[p].transaction_id@,
            ) by {
                assert(keys@[p]@ == v[p].transaction_id@);
            }
            if j > 0 {
                assert(keys@[j - 1]@ == v[j - 1].transaction_id@);
            }
            lemma_move_back(v, i as int, j as int);
        }
        if j < i {
            let r = reports.remove(i);
            reports.insert(j, r);
            let k = keys.remove(i);
            keys.insert(j, k);
            proof {
                assert(reports@ =~= v.remove(i as int).insert(j as int, v[i as int]));
                assert(keys@ =~= kv.remove(i as int).insert(j as int, kv[i as int]));
                assert forall|p: int| 0 <= p < n implies (#[trigger] keys@[p])@
                    == reports@[p].transaction_id@ by {
                    if p < j {
                    } else if p == j {
                    } else if p <= i {
                        assert(keys@[p] == kv[p - 1]);
                        assert(reports@[p] == v[p - 1]);
                    } else {
                    }
                }
            }
        } else {
            proof {
                assert(v.remove(i as int).insert(j as int, v[i as int]) =~= v);
            }
        }
        i = i + 1;
    }
    proof {
        assert(reports@.take(n as int) =~= reports@);
    }
}


/// In a list sorted by id, no report has a smaller id than the first.
proof fn lemma_first_is_least(s: Seq<ComplianceReport>, e: ComplianceReport)
    requires
        ids_sorted(s),
        s.contains(e),
    ensures
        !text_lt(e.transaction_id@, s[0].transaction_id@),
{
    let m = choose|m: int| 0 <= m < s.len() && s[m] == e;
    if m > 0 {
        assert(!text_lt(s[m].transaction_id@, s[0].transaction_id@));
    } else {
        crate::text::lemma_text_lt_irreflexive(e.transaction_id@);
    }
}

/// Splitting off the first report of a list: the reports of each id are
/// those of the rest, with the first one in front when it has that id.
proof fn lemma_with_id_first(s: Seq<ComplianceReport>, k: Seq<char>)
    requires
        s.len() > 0,
    ensures
        with_id(s, k) == (if s[0].transaction_id@ == k {
            seq![s[0]]
        } else {
            Seq::empty()
        }) + with_id(s.drop_first(), k),
{
    assert(s =~= seq![s[0]] + s.drop_first());
    s.drop_first().lemma_filter_prepend(s[0], id_is(k));
}

/// Two lists sorted by id that hold, for every id, the same reports in the
/// same order are equal.
proof fn lemma_sorted_groups_determine(a: Seq<ComplianceReport>, b: Seq<ComplianceReport>)
    requires
        ids_sorted(a),
        ids_sorted(b),
        forall|k: Seq<char>| #[trigger] with_id(a, k) == with_id(b, k),
    ensures
        a == b,
    decreases a.len(),
{
    broadcast use Seq::lemma_filter_len, Seq::lemma_filter_contains, Seq::lemma_filter_contains_rev;

    if a.len() == 0 || b.len() == 0 {
        if a.len() > 0 {
            assert(with_id(a, a[0].transaction_id@).contains(a[0]));
            assert(with_id(b, a[0].transaction_id@).len() == 0);
        } else if b.len() > 0 {
            assert(with_id(b, b[0].transaction_id@).contains(b[0]));
            assert(with_id(a, b[0].transaction_id@).len() == 0);
        } else {
            assert(a =~= b);
        }
    } else {
        let ka = a[0].transaction_id@;
        let kb = b[0].transaction_id@;
        assert(with_id(b, kb).contains(b[0]));
        assert(with_id(a, kb).contains(b[0]));
        lemma_first_is_least(a, b[0]);
        assert(with_id(a, ka).contains(a[0]));
        assert(with_id(b, ka).contains(a[0]));
        lemma_first_is_least(b, a[0]);
        lemma_text_lt_total(ka, kb);
        lemma_with_id_first(a, ka);
        lemma_with_id_first(b, ka);
        assert(with_id(a, ka)[0] == a[0]);
        assert(with_id(b, ka)[0] == b[0]);
        let ta = a.drop_first();
        let tb = b.drop_first();
        assert forall|k: Seq<char>| #[trigger] with_id(ta, k) == with_id(tb, k) by {
            lemma_with_id_first(a, k);
            lemma_with_id_first(b, k);
            if k == ka {
                assert(with_id(ta, k) =~= with_id(a, k).drop_first());
                assert(with_id(tb, k) =~= with_id(b, k).drop_first());
            } else {
                assert(with_id(ta, k) =~= with_id(a, k));
                assert(with_id(tb, k) =~= with_id(b, k));
            }
        }
        assert forall|p: int, q: int|
            #![trigger ta[p], ta[q]]
            0 <= p < q < ta.len() implies !text_lt(ta[q].transaction_id@, ta[p].transaction_id@) by {
            assert(!text_lt(a[q + 1].transaction_id@, a[p + 1].transaction_id@));
        }
        assert forall|p: int, q: int|
            #![trigger tb[p], tb[q]]
            0 <= p < q < tb.len() implies !text_lt(tb[q].transaction_id@, tb[p].transaction_id@) by {
            assert(!text_lt(b[q + 1].transaction_id@, b[p + 1].transaction_id@));
        }
        lemma_sorted_groups_determine(ta, tb);
        assert(a =~= seq![a[0]] + ta);
        assert(b =~= seq![b[0]] + tb);
    }
}

/// The canonical order is canonical: lists that hold, for every transaction
/// id, the same reports in the same order are put into the same order, and
/// so get the same canonical bytes and the same result hash.
pub proof fn lemma_canonical_order_unique(
    x: Seq<ComplianceReport>,
    y: Seq<ComplianceReport>,
    a: Seq<ComplianceReport>,
    b: Seq<ComplianceReport>,
)
    requires
        forall|k: Seq<char>| #[trigger] with_id(x, k) == with_id(y, k),
        canonical_order_of(a, x),
        canonical_order_of(b, y),
    ensures
        a == b,
        canonical_bytes(a) == canonical_bytes(b),
{
    assert forall|k: Seq<char>| #[trigger] with_id(a, k) == with_id(b, k) by {
        assert(with_id(a, k) == with_id(x, k));
        assert(with_id(b, k) == with_id(y, k));
    }
    lemma_sorted_groups_determine(a, b);
}

/// No two reports of `s` share a transaction id.
pub open spec fn distinct_ids(s: Seq<ComplianceReport>) -> bool {
    forall|p: int, q: int|
        #![trigger s[p], s[q]]
        0 <= p < q < s.len() ==> s[p].transaction_id@ != s[q].transaction_id@
}

/// No report of `s` has id `k`: then `s` has no reports of id `k`.
proof fn lemma_with_id_absent(s: Seq<ComplianceReport>, k: Seq<char>)
    requires
        forall|p: int| 0 <= p < s.len() ==> (#[trigger] s[p]).transaction_id@ != k,
    ensures
        with_id(s, k) == Seq::<ComplianceReport>::empty(),
{
    s.lemma_all_neg_filter_empty(id_is(k));
    assert(with_id(s, k) =~= Seq::<ComplianceReport>::empty());
}

/// Two reorderings of the same reports with all ids different hold, for
/// every id, the same reports.
pub proof fn lemma_reordering_same_groups(x: Seq<ComplianceReport>, y: Seq<ComplianceReport>)
    requires
        distinct_ids(x),
        distinct_ids(y),
        x.to_multiset() == y.to_multiset(),
    ensures
        forall|k: Seq<char>| #[trigger] with_id(x, k) == with_id(y, k),
    decreases x.len(),
{
    broadcast use vstd::seq_lib::group_to_multiset_ensures, vstd::multiset::group_multiset_axioms,
        Seq::filter_distributes_over_add;

    if x.len() == 0 {
        assert(y.to_multiset().len() == 0);
        assert(y.len() == 0);
        assert(x =~= y);
    } else {
        let xs = x.drop_last();
        let e = x.last();
        assert(x =~= xs.push(e));
        assert(x =~= xs + seq![e]);
        assert(y.to_multiset().count(e) > 0);
        let m = choose|m: int| 0 <= m < y.len() && y[m] == e;
        let ys = y.remove(m);
        assert(ys.to_multiset() =~= xs.to_multiset());
        assert forall|p: int, q: int|
            #![trigger xs[p], xs[q]]
            0 <= p < q < xs.len() implies xs[p].transaction_id@ != xs[q].transaction_id@ by {
            assert(x[p] == xs[p] && x[q] == xs[q]);
        }
        assert forall|p: int, q: int|
            #![trigger ys[p], ys[q]]
            0 <= p < q < ys.len() implies ys[p].transaction_id@ != ys[q].transaction_id@ by {
            let pp = if p < m { p } else { p + 1 };
            let qq = if q < m { q } else { q + 1 };
            assert(ys[p] == y[pp] && ys[q] == y[qq]);
        }
        lemma_reordering_same_groups(xs, ys);
        let y1 = y.subrange(0, m);
        let y2 = y.subrange(m + 1, y.len() as int);
        assert(y =~= y1 + seq![e] + y2);
        assert(ys =~= y1 + y2);
        assert forall|k: Seq<char>| #[trigger] with_id(x, k) == with_id(y, k) by {
            let f = id_is(k);
            assert(with_id(x, k) == xs.filter(f) + seq![e].filter(f));
            assert(with_id(y, k) == y1.filter(f) + seq![e].filter(f) + y2.filter(f));
            assert(with_id(ys, k) == y1.filter(f) + y2.filter(f));
            if e.transaction_id@ == k {
                assert forall|p: int| 0 <= p < xs.len() implies (#[trigger] xs[p]).transaction_id@
                    != k by {
                    assert(x[p] == xs[p]);
                }
                lemma_with_id_absent(xs, k);
                assert forall|p: int| 0 <= p < y1.len() implies (#[trigger] y1[p]).transaction_id@
                    != k by {
                    assert(y1[p] == y[p]);
                }
                lemma_with_id_absent(y1, k);
                assert forall|p: int| 0 <= p < y2.len() implies (#[trigger] y2[p]).transaction_id@
                    != k by {
                    assert(y2[p] == y[p + m + 1]);
                }
                lemma_with_id_absent(y2, k);
                assert(with_id(x, k) =~= seq![e].filter(f));
                assert(with_id(y, k) =~= seq![e].filter(f));
            } else {
                reveal_with_fuel(Seq::filter, 2);
                assert(seq![e].drop_last() =~= Seq::<ComplianceReport>::empty());
                assert(seq![e].filter(f) =~= Seq::<ComplianceReport>::empty());
                assert(with_id(xs, k) == with_id(ys, k));
                assert(with_id(x, k) =~= with_id(xs, k));
                assert(with_id(y, k) =~= with_id(ys, k));
            }
        }
    }
}

/// A report occurs among the reports of its own id as often as in the whole
/// list.
proof fn lemma_count_within_id(s: Seq<ComplianceReport>, e: ComplianceReport)
    ensures
        with_id(s, e.transaction_id@).to_multiset().count(e) == s.to_multiset().count(e),
    decreases s.len(),
{
    broadcast use vstd::seq_lib::group_to_multiset_ensures, vstd::multiset::group_multiset_axioms;

    let k = e.transaction_id@;
    if s.len() == 0 {
        reveal(Seq::filter);
        assert(with_id(s, k) =~= Seq::<ComplianceReport>::empty());
    } else {
        let t = s.drop_last();
        let x = s.last();
        lemma_count_within_id(t, e);
        assert(s =~= t.push(x));
        assert(with_id(s, k) == (if x.transaction_id@ == k {
            with_id(t, k).push(x)
        } else {
            with_id(t, k)
        })) by {
            reveal(Seq::filter);
        }
    }
}

/// Putting reports into canonical order loses, adds and duplicates none:
/// the ordered list holds the same reports, as often, as the input.
pub proof fn lemma_canonical_order_is_permutation(
    out: Seq<ComplianceReport>,
    inp: Seq<ComplianceReport>,
)
    requires
        canonical_order_of(out, inp),
    ensures
        out.to_multiset() == inp.to_multiset(),
{
    assert forall|e: ComplianceReport| out.to_multiset().count(e) == inp.to_multiset().count(e) by {
        lemma_count_within_id(out, e);
        lemma_count_within_id(inp, e);
        assert(with_id(out, e.transaction_id@) == with_id(inp, e.transaction_id@));
    }
    assert(out.to_multiset() =~= inp.to_multiset());
}

// ---- Canonical bytes ---------------------------------------------------

/// The UTF-8 bytes of a text.
pub open spec fn utf8(s: Seq<char>) -> Seq<u8> {
    encode_utf8(s)
}

/// The lowercase hexadecimal digit of `d < 16`, as a byte.
pub open spec fn hex_digit_byte(d: u8) -> u8 {
    if d < 10 {
        (0x30 + d) as u8
    } else {
        (0x61 + d - 10) as u8
    }
}

/// One byte of a JSON string body, escaped: `"` and `\` get a backslash,
/// line feed, carriage return and tab their short escapes, the other control
/// bytes below 0x20 a `\u00XX` escape with lowercase hex, and every other
/// byte stands for itself.
pub open spec fn json_escape_byte(b: u8) -> Seq<u8> {
    if b == 0x22 {
        seq![0x5cu8, 0x22u8]
    } else if b == 0x5c {
        seq![0x5cu8, 0x5cu8]
    } else if b == 0x0a {
        seq![0x5cu8, 0x6eu8]
    } else if b == 0x0d {
        seq![0x5cu8, 0x72u8]
    } else if b == 0x09 {
        seq![0x5cu8, 0x74u8]
    } else if b < 0x20 {
        seq![0x5cu8, 0x75u8, 0x30u8, 0x30u8, hex_digit_byte(b / 16), hex_digit_byte(b % 16)]
    } else {
        seq![b]
    }
}

/// Bytes escaped for a JSON string body, one at a time.
pub open spec fn json_escaped(bs: Seq<u8>) -> Seq<u8>
    decreases bs.len(),
{
    if bs.len() == 0 {
        Seq::empty()
    } else {
        json_escaped(bs.drop_last()) + json_escape_byte(bs.last())
    }
}

/// The name of a fraud sign as it stands in the canonical form; an unnamed
/// sign gives its own text, escaped.
pub open spec fn sign_bytes(s: FraudSign) -> Seq<u8> {
    match s {
        FraudSign::ReceiverInDatabase => utf8("ReceiverInDatabase"@),
        FraudSign::DeviceInDatabase => utf8("DeviceInDatabase"@),
        FraudSign::AtypicalTransaction => utf8("AtypicalTransaction"@),
        FraudSign::SuspiciousSbpTransfer => utf8("SuspiciousSbpTransfer"@),
        FraudSign::SuspiciousNfcActivity => utf8("SuspiciousNfcActivity"@),
        FraudSign::MultipleAccountsFromSingleDevice => utf8("MultipleAccountsFromSingleDevice"@),
        FraudSign::InconsistentGeolocation => utf8("InconsistentGeolocation"@),
        FraudSign::HighVelocityTransfersInShortWindow => utf8(
            "HighVelocityTransfersInShortWindow"@,
        ),
        FraudSign::RemoteAccessToolDetected => utf8("RemoteAccessToolDetected"@),
        FraudSign::KnownProxyOrVpnEndpoint => utf8("KnownProxyOrVpnEndpoint"@),
        FraudSign::SocialEngineeringPatternDetected => utf8("SocialEngineeringPatternDetected"@),
        FraudSign::ExternalOperatorSignal => utf8("ExternalOperatorSignal"@),
        FraudSign::Other(v) => json_escaped(utf8(v@)),
    }
}

/// Each named fraud sign is written in the canonical form as the UTF-8
/// text of its own variant name: its bytes read back as that name.
pub proof fn lemma_named_sign_written_as_its_name(s: FraudSign)
    ensures
        s is ReceiverInDatabase ==> vstd::utf8::decode_utf8(sign_bytes(s))
            == "ReceiverInDatabase"@,
        s is DeviceInDatabase ==> vstd::utf8::decode_utf8(sign_bytes(s))
            == "DeviceInDatabase"@,
        s is AtypicalTransaction ==> vstd::utf8::decode_utf8(sign_bytes(s))
            == "AtypicalTransaction"@,
        s is SuspiciousSbpTransfer ==> vstd::utf8::decode_utf8(sign_bytes(s))
            == "SuspiciousSbpTransfer"@,
        s is SuspiciousNfcActivity ==> vstd::utf8::decode_utf8(sign_bytes(s))
            == "SuspiciousNfcActivity"@,
        s is MultipleAccountsFromSingleDevice ==> vstd::utf8::decode_utf8(sign_bytes(s))
            == "MultipleAccountsFromSingleDevice"@,
        s is InconsistentGeolocation ==> vstd::utf8::decode_utf8(sign_bytes(s))
            == "InconsistentGeolocation"@,
        s is HighVelocityTransfersInShortWindow ==> vstd::utf8::decode_utf8(sign_bytes(s))
            == "HighVelocityTransfersInShortWindow"@,
        s is RemoteAccessToolDetected ==> vstd::utf8::decode_utf8(sign_bytes(s))
            == "RemoteAccessToolDetected"@,
        s is KnownProxyOrVpnEndpoint ==> vstd::utf8::decode_utf8(sign_bytes(s))
            == "KnownProxyOrVpnEndpoint"@,
        s is SocialEngineeringPatternDetected ==> vstd::utf8::decode_utf8(sign_bytes(s))
            == "SocialEngineeringPatternDetected"@,
        s is ExternalOperatorSignal ==> vstd::utf8::decode_utf8(sign_bytes(s))
            == "ExternalOperatorSignal"@,
{
    broadcast use vstd::utf8::encode_utf8_decode_utf8;

}

/// Named fraud signs are told apart in the canonical form: two different
/// named signs are written as different bytes.
pub proof fn lemma_named_signs_written_apart(a: FraudSign, b: FraudSign)
    requires
        !(a is Other),
        !(b is Other),
        a != b,
    ensures
        sign_bytes(a) != sign_bytes(b),
{
    reveal_strlit("ReceiverInDatabase");
    reveal_strlit("DeviceInDatabase");
    reveal_strlit("AtypicalTransaction");
    reveal_strlit("SuspiciousSbpTransfer");
    reveal_strlit("SuspiciousNfcActivity");
    reveal_strlit("MultipleAccountsFromSingleDevice");
    reveal_strlit("InconsistentGeolocation");
    reveal_strlit("HighVelocityTransfersInShortWindow");
    reveal_strlit("RemoteAccessToolDetected");
    reveal_strlit("KnownProxyOrVpnEndpoint");
    reveal_strlit("SocialEngineeringPatternDetected");
    reveal_strlit("ExternalOperatorSignal");
    lemma_named_sign_written_as_its_name(a);
    lemma_named_sign_written_as_its_name(b);
    let da = vstd::utf8::decode_utf8(sign_bytes(a));
    let db = vstd::utf8::decode_utf8(sign_bytes(b));
    if sign_bytes(a) == sign_bytes(b) {
        assert(da.len() == db.len());
        assert(da[0] == db[0]);
        assert(da[10] == db[10]);
    }
}

/// The fraud signs as the items of a JSON array of strings.
pub open spec fn signs_bytes(s: Seq<FraudSign>) -> Seq<u8>
    decreases s.len(),
{
    if s.len() == 0 {
        Seq::empty()
    } else {
        signs_bytes(s.drop_last()) + (if s.len() > 1 {
            utf8(","@)
        } else {
            Seq::empty()
        }) + utf8("\""@) + sign_bytes(s.last()) + utf8("\""@)
    }
}

/// One report as a compact JSON object with its fields in declaration
/// order; the ratio is written as a string, the timestamp as a number.
pub open spec fn report_bytes(r: ComplianceReport) -> Seq<u8> {
    utf8("{\"transaction_id\":\""@) + json_escaped(utf8(r.transaction_id@)) + utf8(
        "\",\"pdn_ratio\":\""@,
    ) + utf8(decimal_display(r.pdn_ratio)) + utf8("\",\"is_pdn_risky\":"@) + (if r.is_pdn_risky {
        utf8("true"@)
    } else {
        utf8("false"@)
    }) + utf8(",\"fraud_signs\":["@) + signs_bytes(r.fraud_signs@) + utf8(
        "],\"recommendation\":\""@,
    ) + json_escaped(utf8(r.recommendation@)) + utf8("\",\"created_at_micros\":"@) + utf8(
        decimal_text(r.created_at_micros as nat),
    ) + utf8("}"@)
}

/// The reports as the items of a JSON array, in order.
pub open spec fn reports_bytes(s: Seq<ComplianceReport>) -> Seq<u8>
    decreases s.len(),
{
    if s.len() == 0 {
        Seq::empty()
    } else {
        reports_bytes(s.drop_last()) + (if s.len() > 1 {
            utf8(","@)
        } else {
            Seq::empty()
        }) + report_bytes(s.last())
    }
}

/// The canonical byte stream of a list of reports: a compact JSON array.
pub open spec fn canonical_bytes(s: Seq<ComplianceReport>) -> Seq<u8> {
    utf8("["@) + reports_bytes(s) + utf8("]"@)
}

/// The canonical form is a JSON array: an empty list is written `[]`, one
/// report is written between `[` and `]`, and each further report follows
/// the ones before it after a comma, before the closing `]`.
pub proof fn lemma_canonical_array_layout(s: Seq<ComplianceReport>, r: ComplianceReport)
    ensures
        canonical_bytes(Seq::empty()) == seq![0x5bu8, 0x5du8],
        canonical_bytes(seq![r]) == seq![0x5bu8] + report_bytes(r) + seq![0x5du8],
        s.len() > 0 ==> canonical_bytes(s.push(r)) == canonical_bytes(s).drop_last() + seq![
            0x2cu8,
        ] + report_bytes(r) + seq![0x5du8],
{
    reveal_strlit("[");
    reveal_strlit("]");
    reveal_strlit(",");
    vstd::utf8::is_ascii_chars_encode_utf8("["@);
    vstd::utf8::is_ascii_chars_encode_utf8("]"@);
    vstd::utf8::is_ascii_chars_encode_utf8(","@);
    assert(utf8("["@) =~= seq![0x5bu8]);
    assert(utf8("]"@) =~= seq![0x5du8]);
    assert(utf8(","@) =~= seq![0x2cu8]);
    assert(reports_bytes(Seq::empty()) =~= Seq::<u8>::empty());
    assert(canonical_bytes(Seq::empty()) =~= seq![0x5bu8, 0x5du8]);
    let one = seq![r];
    assert(one.drop_last() =~= Seq::<ComplianceReport>::empty());
    assert(reports_bytes(one) =~= report_bytes(r));
    assert(canonical_bytes(one) =~= seq![0x5bu8] + report_bytes(r) + seq![0x5du8]);
    if s.len() > 0 {
        let t = s.push(r);
        assert(t.drop_last() =~= s);
        let c = canonical_bytes(s);
        assert(c.drop_last() =~= seq![0x5bu8] + reports_bytes(s));
        assert(canonical_bytes(t) =~= c.drop_last() + seq![0x2cu8] + report_bytes(r) + seq![
            0x5du8,
        ]);
    }
}

/// The fraud signs of a report are written as JSON strings: one sign is
/// its name between double quotes, and each further sign follows the ones
/// before it after a comma.
pub proof fn lemma_signs_list_layout(s: Seq<FraudSign>, x: FraudSign)
    ensures
        signs_bytes(seq![x]) == seq![0x22u8] + sign_bytes(x) + seq![0x22u8],
        s.len() > 0 ==> signs_bytes(s.push(x)) == signs_bytes(s) + seq![0x2cu8, 0x22u8]
            + sign_bytes(x) + seq![0x22u8],
{
    reveal_strlit("\"");
    reveal_strlit(",");
    vstd::utf8::is_ascii_chars_encode_utf8("\""@);
    vstd::utf8::is_ascii_chars_encode_utf8(","@);
    assert(utf8("\""@) =~= seq![0x22u8]);
    assert(utf8(","@) =~= seq![0x2cu8]);
    let one = seq![x];
    assert(one.drop_last() =~= Seq::<FraudSign>::empty());
    assert(signs_bytes(Seq::empty()) =~= Seq::<u8>::empty());
    assert(signs_bytes(one) =~= seq![0x22u8] + sign_bytes(x) + seq![0x22u8]);
    if s.len() > 0 {
        let t = s.push(x);
        assert(t.drop_last() =~= s);
        assert(signs_bytes(t) =~= signs_bytes(s) + seq![0x2cu8, 0x22u8] + sign_bytes(x) + seq![
            0x22u8,
        ]);
    }
}

fn hex_digit(d: u8) -> (b: u8)
    requires
        d < 16,
    ensures
        b == hex_digit_byte(d),
{
    if d < 10 {
        0x30 + d
    } else {
        0x61 + d - 10
    }
}

/// Feeds one byte, escaped, to the hasher.
fn hash_escaped_byte(h: &mut blake3::Hasher, b: u8)
    ensures
        hasher_input(*final(h)) == hasher_input(*old(h)) + json_escape_byte(b),
{
    if b == 0x22 {
        let e: [u8; 2] = [0x5c, 0x22];
        hasher_update(h, e.as_slice());
        assert(e@ =~= json_escape_byte(b));
    } else if b == 0x5c {
        let e: [u8; 2] = [0x5c, 0x5c];
        hasher_update(h, e.as_slice());
        assert(e@ =~= json_escape_byte(b));
    } else if b == 0x0a {
        let e: [u8; 2] = [0x5c, 0x6e];
        hasher_update(h, e.as_slice());
        assert(e@ =~= json_escape_byte(b));
    } else if b == 0x0d {
        let e: [u8; 2] = [0x5c, 0x72];
        hasher_update(h, e.as_slice());
        assert(e@ =~= json_escape_byte(b));
    } else if b == 0x09 {
        let e: [u8; 2] = [0x5c, 0x74];
        hasher_update(h, e.as_slice());
        assert(e@ =~= json_escape_byte(b));
    } else if b < 0x20 {
        let e: [u8; 6] = [0x5c, 0x75, 0x30, 0x30, hex_digit(b / 16), hex_digit(b % 16)];
        hasher_update(h, e.as_slice());
        assert(e@ =~= json_escape_byte(b));
    } else {
        let e: [u8; 1] = [b];
        hasher_update(h, e.as_slice());
        assert(e@ =~= json_escape_byte(b));
    }
}

/// Feeds bytes, escaped for a JSON string body, to the hasher.
fn hash_json_escaped(h: &mut blake3::Hasher, bytes: &[u8])
    ensures
        hasher_input(*final(h)) == hasher_input(*old(h)) + json_escaped(bytes@),
{
    let ghost start = hasher_input(*h);
    let n = bytes.len();
    let mut i: usize = 0;
    while i < n
        invariant
            n == bytes@.len(),
            0 <= i <= n,
            hasher_input(*h) == start + json_escaped(bytes@.take(i as int)),
        decreases n - i,
    {
        let ghost before = hasher_input(*h);
        hash_escaped_byte(h, bytes[i]);
        proof {
            let t = bytes@.take(i as int + 1);
            assert(t.drop_last() =~= bytes@.take(i as int));
            assert(t.last() == bytes@[i as int]);
            assert(hasher_input(*h) =~= start + json_escaped(t));
        }
        i = i + 1;
    }
    proof {
        assert(bytes@.take(n as int) =~= bytes@);
    }
}

/// Feeds the canonical name of a fraud sign to the hasher.
fn hash_sign(h: &mut blake3::Hasher, sign: &FraudSign)
    ensures
        hasher_input(*final(h)) == hasher_input(*old(h)) + sign_bytes(*sign),
{
    match sign {
        FraudSign::ReceiverInDatabase => hasher_update(h, "ReceiverInDatabase".as_bytes()),
        FraudSign::DeviceInDatabase => hasher_update(h, "DeviceInDatabase".as_bytes()),
        FraudSign::AtypicalTransaction => hasher_update(h, "AtypicalTransaction".as_bytes()),
        FraudSign::SuspiciousSbpTransfer => hasher_update(h, "SuspiciousSbpTransfer".as_bytes()),
        FraudSign::SuspiciousNfcActivity => hasher_update(h, "SuspiciousNfcActivity".as_bytes()),
        FraudSign::MultipleAccountsFromSingleDevice => hasher_update(
            h,
            "MultipleAccountsFromSingleDevice".as_bytes(),
        ),
        FraudSign::InconsistentGeolocation => hasher_update(
            h,
            "InconsistentGeolocation".as_bytes(),
        ),
        FraudSign::HighVelocityTransfersInShortWindow => hasher_update(
            h,
            "HighVelocityTransfersInShortWindow".as_bytes(),
        ),
        FraudSign::RemoteAccessToolDetected => hasher_update(
            h,
            "RemoteAccessToolDetected".as_bytes(),
        ),
        FraudSign::KnownProxyOrVpnEndpoint => hasher_update(
            h,
            "KnownProxyOrVpnEndpoint".as_bytes(),
        ),
        FraudSign::SocialEngineeringPatternDetected => hasher_update(
            h,
            "SocialEngineeringPatternDetected".as_bytes(),
        ),
        FraudSign::ExternalOperatorSignal => hasher_update(h, "ExternalOperatorSignal".as_bytes()),
        FraudSign::Other(v) => hash_json_escaped(h, v.as_str().as_bytes()),
    }
}

/// Feeds the fraud signs, as JSON array items, to the hasher.
fn hash_signs(h: &mut blake3::Hasher, signs: &Vec<FraudSign>)
    ensures
        hasher_input(*final(h)) == hasher_input(*old(h)) + signs_bytes(signs@),
{
    let ghost start = hasher_input(*h);
    let n = signs.len();
    let mut i: usize = 0;
    while i < n
        invariant
            n == signs@.len(),
            0 <= i <= n,
            hasher_input(*h) == start + signs_bytes(signs@.take(i as int)),
        decreases n - i,
    {
        if i > 0 {
            hasher_update(h, ",".as_bytes());
        }
        hasher_update(h, "\"".as_bytes());
        hash_sign(h, &signs[i]);
        hasher_update(h, "\"".as_bytes());
        proof {
            let t = signs@.take(i as int + 1);
            assert(t.drop_last() =~= signs@.take(i as int));
            assert(t.last() == signs@[i as int]);
            assert(hasher_input(*h) =~= start + signs_bytes(t));
        }
        i = i + 1;
    }
    proof {
        assert(signs@.take(n as int) =~= signs@);
    }
}

/// `start + acc + p` regrouped as `start + (acc + p)`.
proof fn lemma_regroup(start: Seq<u8>, acc: Seq<u8>, p: Seq<u8>)
    ensures
        start + acc + p == start + (acc + p),
{
    vstd::seq_lib::lemma_concat_associative(start, acc, p);
}

/// Feeds one report, as its canonical JSON object, to the hasher.
fn hash_report(h: &mut blake3::Hasher, r: &ComplianceReport)
    ensures
        hasher_input(*final(h)) == hasher_input(*old(h)) + report_bytes(*r),
{
    let ghost start = hasher_input(*h);
    hasher_update(h, "{\"transaction_id\":\"".as_bytes());
    let ghost mut acc = utf8("{\"transaction_id\":\""@);
    hash_json_escaped(h, r.transaction_id.as_str().as_bytes());
    proof {
        let p = json_escaped(utf8(r.transaction_id@));
        lemma_regroup(start, acc, p);
        acc = acc + p;
    }
    hasher_update(h, "\",\"pdn_ratio\":\"".as_bytes());
    proof {
        let p = utf8("\",\"pdn_ratio\":\""@);
        lemma_regroup(start, acc, p);
        acc = acc + p;
    }
    let ratio = r.pdn_ratio.rd_to_string();
    hasher_update(h, ratio.as_str().as_bytes());
    proof {
        let p = utf8(decimal_display(r.pdn_ratio));
        lemma_regroup(start, acc, p);
        acc = acc + p;
    }
    hasher_update(h, "\",\"is_pdn_risky\":".as_bytes());
    proof {
        let p = utf8("\",\"is_pdn_risky\":"@);
        lemma_regroup(start, acc, p);
        acc = acc + p;
    }
    if r.is_pdn_risky {
        hasher_update(h, "true".as_bytes());
    } else {
        hasher_update(h, "false".as_bytes());
    }
    proof {
        let p = if r.is_pdn_risky {
            utf8("true"@)
        } else {
            utf8("false"@)
        };
        lemma_regroup(start, acc, p);
        acc = acc + p;
    }
    hasher_update(h, ",\"fraud_signs\":[".as_bytes());
    proof {
        let p = utf8(",\"fraud_signs\":["@);
        lemma_regroup(start, acc, p);
        acc = acc + p;
    }
    hash_signs(h, &r.fraud_signs);
    proof {
        let p = signs_bytes(r.fraud_signs@);
        lemma_regroup(start, acc, p);
        acc = acc + p;
    }
    hasher_update(h, "],\"recommendation\":\"".as_bytes());
    proof {
        let p = utf8("],\"recommendation\":\""@);
        lemma_regroup(start, acc, p);
        acc = acc + p;
    }
    hash_json_escaped(h, r.recommendation.as_str().as_bytes());
    proof {
        let p = json_escaped(utf8(r.recommendation@));
        lemma_regroup(start, acc, p);
        acc = acc + p;
    }
    hasher_update(h, "\",\"created_at_micros\":".as_bytes());
    proof {
        let p = utf8("\",\"created_at_micros\":"@);
        lemma_regroup(start, acc, p);
        acc = acc + p;
    }
    let created = u64_to_text(r.created_at_micros);
    hasher_update(h, created.as_str().as_bytes());
    proof {
        let p = utf8(decimal_text(r.created_at_micros as nat));
        lemma_regroup(start, acc, p);
        acc = acc + p;
    }
    hasher_update(h, "}".as_bytes());
    proof {
        let p = utf8("}"@);
        lemma_regroup(start, acc, p);
        acc = acc + p;
        assert(acc == report_bytes(*r));
    }
}

/// The canonical result hash of Seal v1: sorts `reports` into canonical
/// order in place, then hashes their canonical bytes with BLAKE3.
pub fn hash_canonical_reports(reports: &mut Vec<ComplianceReport>) -> (r: Result<
    [u8; 32],
    CanonicalHashError,
>)
    ensures
        canonical_order_of(final(reports)@, old(reports)@),
        r is Ok,
        r->Ok_0@ == blake3_of(canonical_bytes(final(reports)@)),
{
    sort_reports(reports);
    let mut h = hasher_new();
    hasher_update(&mut h, "[".as_bytes());
    let ghost start = hasher_input(h);
    let n = reports.len();
    let mut i: usize = 0;
    while i < n
        invariant
            n == reports@.len(),
            0 <= i <= n,
            hasher_input(h) == start + reports_bytes(reports@.take(i as int)),
        decreases n - i,
    {
        if i > 0 {
            hasher_update(&mut h, ",".as_bytes());
        }
        hash_report(&mut h, &reports[i]);
        proof {
            let t = reports@.take(i as int + 1);
            assert(t.drop_last() =~= reports@.take(i as int));
            assert(t.last() == reports@[i as int]);
            assert(hasher_input(h) =~= start + reports_bytes(t));
        }
        i = i + 1;
    }
    hasher_update(&mut h, "]".as_bytes());
    proof {
        assert(reports@.take(n as int) =~= reports@);
        assert(hasher_input(h) =~= canonical_bytes(reports@));
    }
    Ok(hasher_finalize(&h))
}

/// The hash of a raw request byte stream: its BLAKE3 hash.
pub fn hash_raw_request(data: &[u8]) -> (r: [u8; 32])
    ensures
        r@ == blake3_of(data@),
{
    blake3_hash(data)
}

} // verus!
