//! The lending and BNPL workflow as a typestate machine:
//! Draft -> Scoring -> PdnCheck -> Approved/Rejected -> Disbursed -> Closed.
//! Each state is a type, so only the transitions a state allows exist. Every
//! transition extends a BLAKE3 history chain.

use vstd::prelude::*;
use crate::audit::{le_bytes, u64_le_bytes};
use crate::decimal::{Decimal, pow10};
use crate::digest::{blake3_chain, blake3_of, concat_parts, lemma_concat_parts_push, views_of};
use crate::ids::{ClientId, LoanId, is_v4_uuid};

verus! {

/// Calls `chrono::Utc::now()` and takes its timestamp in microseconds. The
/// clock's reading is not stated.
#[verifier::external_body]
fn utc_now_micros() -> (t: i64) {
    chrono::Utc::now().timestamp_micros()
}

/// An application being drafted.
#[derive(Debug, Clone, PartialEq, Eq)]
pub struct Draft;

/// An application in scoring.
#[derive(Debug, Clone, PartialEq, Eq)]
pub struct Scoring;

/// An application whose debt load is being checked.
#[derive(Debug, Clone, PartialEq, Eq)]
pub struct PdnCheck;

/// An approved application.
#[derive(Debug, Clone, PartialEq, Eq)]
pub struct Approved;

/// A rejected application, with the reason.
#[derive(Debug, Clone, PartialEq, Eq)]
pub struct Rejected {
    pub reason: String,
}

/// A disbursed loan.
#[derive(Debug, Clone, PartialEq, Eq)]
pub struct Disbursed {
    /// When the loan was disbursed, in microseconds since the Unix epoch (UTC).
    pub disbursed_at: i64,
}

/// A closed loan.
#[derive(Debug, Clone, PartialEq, Eq)]
pub struct Closed;

/// A loan application in the state given by its type.
#[derive(Debug, Clone)]
pub struct LoanApplication<State> {
    pub id: LoanId,
    pub client_id: ClientId,
    pub amount: Decimal,
    pub fully_identified: bool,
    pub history_hash: [u8; 32],
    pub state: State,
}

/// Any value with a deterministic content hash.
pub trait Hashable {
    fn content_hash(&self) -> [u8; 32];
}

impl<S> Hashable for LoanApplication<S> {
    /// The history hash.
    fn content_hash(&self) -> (h: [u8; 32])
        ensures
            h == self.history_hash,
    {
        self.history_hash
    }
}

/// The bytes of a timestamp as `i64::to_le_bytes` gives them.
pub open spec fn timestamp_bytes(t: i64) -> Seq<u8> {
    le_bytes((t as u64) as nat, 8)
}

/// The history hash after an action: BLAKE3 over the previous hash, the
/// application id, the action label and the timestamp.
pub open spec fn advanced_history(prev: Seq<u8>, id: Seq<u8>, action: Seq<char>, t: i64) -> Seq<
    u8,
> {
    blake3_of(prev + id + vstd::utf8::encode_utf8(action) + timestamp_bytes(t))
}

/// The first history hash of an application: BLAKE3 over its id, the
/// client id and the timestamp.
pub open spec fn initial_history(id: Seq<u8>, client: Seq<u8>, t: i64) -> Seq<u8> {
    blake3_of(id + client + timestamp_bytes(t))
}

proof fn lemma_concat4(a: Seq<u8>, b: Seq<u8>, c: Seq<u8>, d: Seq<u8>)
    ensures
        concat_parts(seq![a, b, c, d]) == a + b + c + d,
{
    let e = Seq::<Seq<u8>>::empty();
    assert(seq![a, b, c, d] =~= e.push(a).push(b).push(c).push(d));
    lemma_concat_parts_push(e, a);
    lemma_concat_parts_push(e.push(a), b);
    lemma_concat_parts_push(e.push(a).push(b), c);
    lemma_concat_parts_push(e.push(a).push(b).push(c), d);
    assert(concat_parts(e) =~= Seq::<u8>::empty());
    assert(Seq::<u8>::empty() + a =~= a);
}

proof fn lemma_concat3(a: Seq<u8>, b: Seq<u8>, c: Seq<u8>)
    ensures
        concat_parts(seq![a, b, c]) == a + b + c,
{
    let e = Seq::<Seq<u8>>::empty();
    assert(seq![a, b, c] =~= e.push(a).push(b).push(c));
    lemma_concat_parts_push(e, a);
    lemma_concat_parts_push(e.push(a), b);
    lemma_concat_parts_push(e.push(a).push(b), c);
    assert(concat_parts(e) =~= Seq::<u8>::empty());
    assert(Seq::<u8>::empty() + a =~= a);
}

/// Extends a history hash by an action at time `now_micros`.
pub fn advance_hash_at(prev: [u8; 32], id: &[u8], action: &str, now_micros: i64) -> (h: [u8; 32])
    ensures
        h@ == advanced_history(prev@, id@, action@, now_micros),
{
    let ts = u64_le_bytes(now_micros as u64);
    let parts: [&[u8]; 4] = [prev.as_slice(), id, action.as_bytes(), ts.as_slice()];
    let h = blake3_chain(parts.as_slice());
    proof {
        assert(views_of(parts@) =~= seq![prev@, id@, vstd::utf8::encode_utf8(action@), ts@]);
        lemma_concat4(prev@, id@, vstd::utf8::encode_utf8(action@), ts@);
    }
    h
}

/// The amount above which full identification is required (115-FZ):
/// 15,000 RUB, in units of `10^-28`.
pub open spec fn aml_threshold_units() -> int {
    15_000 * pow10(28)
}

/// Why an application is refused at creation.
pub const AML_IDENTIFICATION_REQUIRED: &'static str =
    "Amount above 15,000 RUB requires full identification (115-FZ)";

impl<S> LoanApplication<S> {
    /// `self` keeps the id, client, amount and identification of `other`.
    pub open spec fn same_loan<T>(self, other: LoanApplication<T>) -> bool {
        &&& self.id == other.id
        &&& self.client_id == other.client_id
        &&& self.amount == other.amount
        &&& self.fully_identified == other.fully_identified
    }

    /// The history of `self` extends that of `prev` by `action`, at some
    /// time.
    pub open spec fn follows<T>(self, prev: LoanApplication<T>, action: Seq<char>) -> bool {
        exists|t: i64| self.history_hash@ == advanced_history(prev.history_hash@, prev.id.bytes(), action, t)
    }

    /// The history of `self` extends that of `prev` by `action` at time `t`.
    pub open spec fn follows_at<T>(self, prev: LoanApplication<T>, action: Seq<char>, t: i64) -> bool {
        self.history_hash@ == advanced_history(prev.history_hash@, prev.id.bytes(), action, t)
    }
}

impl LoanApplication<Draft> {
    /// The identification threshold of 115-FZ, 15,000 RUB.
    pub fn aml_full_ident_threshold() -> (d: Decimal)
        ensures
            d.units() == aml_threshold_units(),
    {
        let d = Decimal::new(15_000, 0);
        proof {
            assert(d.units() == 15_000 * pow10(28));
        }
        d
    }

    /// A draft with full identification; never refused.
    pub fn new(client_id: ClientId, amount: Decimal) -> (a: LoanApplication<Draft>)
        ensures
            a.client_id == client_id,
            a.amount == amount,
            a.fully_identified,
            is_v4_uuid(a.id.bytes()),
            exists|t: i64| a.history_hash@ == initial_history(a.id.bytes(), client_id.bytes(), t),
    {
        let id = LoanId::new();
        let now = utc_now_micros();
        LoanApplication::open_draft(id, client_id, amount, true, now)
    }

    /// A draft with a fresh random id. An amount above 15,000 RUB without
    /// full identification is refused.
    pub fn new_with_identification(client_id: ClientId, amount: Decimal, fully_identified: bool) -> (r:
        Result<LoanApplication<Draft>, &'static str>)
        ensures
            amount.units() > aml_threshold_units() && !fully_identified ==> r is Err
                && r->Err_0@ == AML_IDENTIFICATION_REQUIRED@,
            !(amount.units() > aml_threshold_units() && !fully_identified) ==> r is Ok,
            r is Ok ==> r->Ok_0.client_id == client_id && r->Ok_0.amount == amount
                && r->Ok_0.fully_identified == fully_identified && is_v4_uuid(r->Ok_0.id.bytes()),
            r is Ok ==> exists|t: i64| r->Ok_0.history_hash@ == initial_history(
                r->Ok_0.id.bytes(),
                client_id.bytes(),
                t,
            ),
    {
        if amount.rd_gt(&LoanApplication::aml_full_ident_threshold()) && !fully_identified {
            return Err(AML_IDENTIFICATION_REQUIRED);
        }
        let id = LoanId::new();
        let now = utc_now_micros();
        LoanApplication::new_with_identification_at(id, client_id, amount, fully_identified, now)
    }

    /// A draft with the given id, created at `now_micros`. An amount above
    /// 15,000 RUB without full identification is refused.
    pub fn new_with_identification_at(
        id: LoanId,
        client_id: ClientId,
        amount: Decimal,
        fully_identified: bool,
        now_micros: i64,
    ) -> (r: Result<LoanApplication<Draft>, &'static str>)
        ensures
            amount.units() > aml_threshold_units() && !fully_identified ==> r is Err
                && r->Err_0@ == AML_IDENTIFICATION_REQUIRED@,
            !(amount.units() > aml_threshold_units() && !fully_identified) ==> r is Ok,
            r is Ok ==> r->Ok_0.id == id && r->Ok_0.client_id == client_id && r->Ok_0.amount
                == amount && r->Ok_0.fully_identified == fully_identified,
            r is Ok ==> r->Ok_0.history_hash@ == initial_history(
                id.bytes(),
                client_id.bytes(),
                now_micros,
            ),
    {
        if amount.rd_gt(&LoanApplication::aml_full_ident_threshold()) && !fully_identified {
            return Err(AML_IDENTIFICATION_REQUIRED);
        }
        Ok(LoanApplication::open_draft(id, client_id, amount, fully_identified, now_micros))
    }

    fn open_draft(
        id: LoanId,
        client_id: ClientId,
        amount: Decimal,
        fully_identified: bool,
        now_micros: i64,
    ) -> (a: LoanApplication<Draft>)
        ensures
            a.id == id && a.client_id == client_id && a.amount == amount && a.fully_identified
                == fully_identified,
            a.history_hash@ == initial_history(id.bytes(), client_id.bytes(), now_micros),
    {
        let ts = u64_le_bytes(now_micros as u64);
        let parts: [&[u8]; 3] = [id.as_bytes(), client_id.as_bytes(), ts.as_slice()];
        let initial_hash = blake3_chain(parts.as_slice());
        proof {
            assert(views_of(parts@) =~= seq![id.bytes(), client_id.bytes(), ts@]);
            lemma_concat3(id.bytes(), client_id.bytes(), ts@);
        }
        LoanApplication {
            id,
            client_id,
            amount,
            fully_identified,
            history_hash: initial_hash,
            state: Draft,
        }
    }
}


impl<S> LoanApplication<S> {
    /// Moves the application to `state`, extending its history by `action`
    /// at `now_micros`.
    fn step_to<T>(self, action: &str, now_micros: i64, state: T) -> (next: LoanApplication<T>)
        ensures
            next.same_loan(self),
            next.follows_at(self, action@, now_micros),
            next.state == state,
    {
        let next_hash = advance_hash_at(self.history_hash, self.id.as_bytes(), action, now_micros);
        LoanApplication {
            id: self.id,
            client_id: self.client_id,
            amount: self.amount,
            fully_identified: self.fully_identified,
            history_hash: next_hash,
            state,
        }
    }
}

/// The reason given when the scoring engine rejects an application.
pub const SCORING_REJECTED: &'static str = "Scoring engine rejected";

/// The reason given when the debt-load check rejects an application.
pub const PDN_REJECTED: &'static str = "PDN > 0.50 (Risky)";

impl LoanApplication<Draft> {
    /// Sends the draft to scoring.
    pub fn submit_to_scoring(self) -> (next: LoanApplication<Scoring>)
        ensures
            next.same_loan(self),
            next.follows(self, "submit_scoring"@),
    {
        self.submit_to_scoring_at(utc_now_micros())
    }

    /// Sends the draft to scoring at `now_micros`.
    pub fn submit_to_scoring_at(self, now_micros: i64) -> (next: LoanApplication<Scoring>)
        ensures
            next.same_loan(self),
            next.follows_at(self, "submit_scoring"@, now_micros),
    {
        self.step_to("submit_scoring", now_micros, Scoring)
    }

    /// Rejects the draft for `reason`.
    pub fn reject(self, reason: String) -> (next: LoanApplication<Rejected>)
        ensures
            next.same_loan(self),
            next.follows(self, "reject_draft"@),
            next.state.reason@ == reason@,
    {
        self.reject_at(reason, utc_now_micros())
    }

    /// Rejects the draft for `reason` at `now_micros`.
    pub fn reject_at(self, reason: String, now_micros: i64) -> (next: LoanApplication<Rejected>)
        ensures
            next.same_loan(self),
            next.follows_at(self, "reject_draft"@, now_micros),
            next.state.reason@ == reason@,
    {
        self.step_to("reject_draft", now_micros, Rejected { reason })
    }
}

impl LoanApplication<Scoring> {
    /// Records the scoring result: on a pass the application goes on to the
    /// debt-load check, otherwise it is rejected.
    pub fn scoring_done(self, passed: bool) -> (r: Result<
        LoanApplication<PdnCheck>,
        LoanApplication<Rejected>,
    >)
        ensures
            passed <==> r is Ok,
            r is Ok ==> r->Ok_0.same_loan(self) && r->Ok_0.follows(self, "scoring_passed"@),
            r is Err ==> r->Err_0.same_loan(self) && r->Err_0.follows(self, "scoring_failed"@)
                && r->Err_0.state.reason@ == SCORING_REJECTED@,
    {
        self.scoring_done_at(passed, utc_now_micros())
    }

    /// Records the scoring result at `now_micros`.
    pub fn scoring_done_at(self, passed: bool, now_micros: i64) -> (r: Result<
        LoanApplication<PdnCheck>,
        LoanApplication<Rejected>,
    >)
        ensures
            passed <==> r is Ok,
            r is Ok ==> r->Ok_0.same_loan(self) && r->Ok_0.follows_at(
                self,
                "scoring_passed"@,
                now_micros,
            ),
            r is Err ==> r->Err_0.same_loan(self) && r->Err_0.follows_at(
                self,
                "scoring_failed"@,
                now_micros,
            ) && r->Err_0.state.reason@ == SCORING_REJECTED@,
    {
        if passed {
            Ok(self.step_to("scoring_passed", now_micros, PdnCheck))
        } else {
            let reason = SCORING_REJECTED.to_string();
            Err(self.step_to("scoring_failed", now_micros, Rejected { reason }))
        }
    }
}

/// The debt-load (PDN) risk tier of an application.
#[derive(Debug, Clone, Copy, PartialEq, Eq)]
pub enum PdnRiskTier {
    Tier10x,
    Tier15x,
    Tier30x,
    Tier50x,
}

/// Whether a tier is rejected: 3.0x and above.
pub open spec fn tier_rejected(tier: PdnRiskTier) -> bool {
    tier is Tier30x || tier is Tier50x
}

impl LoanApplication<PdnCheck> {
    /// Records the debt-load result: a risky load counts as tier 3.0x, a
    /// safe one as tier 1.5x.
    pub fn pdn_done(self, is_risky: bool) -> (r: Result<
        LoanApplication<Approved>,
        LoanApplication<Rejected>,
    >)
        ensures
            !is_risky <==> r is Ok,
            r is Ok ==> r->Ok_0.same_loan(self) && r->Ok_0.follows(self, "approve"@),
            r is Err ==> r->Err_0.same_loan(self) && r->Err_0.follows(self, "pdn_reject"@)
                && r->Err_0.state.reason@ == PDN_REJECTED@,
    {
        let tier = if is_risky {
            PdnRiskTier::Tier30x
        } else {
            PdnRiskTier::Tier15x
        };
        self.pdn_done_tier(tier)
    }

    /// Records the debt-load tier: tiers 3.0x and 5.0x are rejected, the
    /// lower ones approved.
    pub fn pdn_done_tier(self, tier: PdnRiskTier) -> (r: Result<
        LoanApplication<Approved>,
        LoanApplication<Rejected>,
    >)
        ensures
            !tier_rejected(tier) <==> r is Ok,
            r is Ok ==> r->Ok_0.same_loan(self) && r->Ok_0.follows(self, "approve"@),
            r is Err ==> r->Err_0.same_loan(self) && r->Err_0.follows(self, "pdn_reject"@)
                && r->Err_0.state.reason@ == PDN_REJECTED@,
    {
        self.pdn_done_tier_at(tier, utc_now_micros())
    }

    /// Records the debt-load tier at `now_micros`.
    pub fn pdn_done_tier_at(self, tier: PdnRiskTier, now_micros: i64) -> (r: Result<
        LoanApplication<Approved>,
        LoanApplication<Rejected>,
    >)
        ensures
            !tier_rejected(tier) <==> r is Ok,
            r is Ok ==> r->Ok_0.same_loan(self) && r->Ok_0.follows_at(self, "approve"@, now_micros),
            r is Err ==> r->Err_0.same_loan(self) && r->Err_0.follows_at(
                self,
                "pdn_reject"@,
                now_micros,
            ) && r->Err_0.state.reason@ == PDN_REJECTED@,
    {
        let reject = match tier {
            PdnRiskTier::Tier30x | PdnRiskTier::Tier50x => true,
            _ => false,
        };
        if !reject {
            Ok(self.step_to("approve", now_micros, Approved))
        } else {
            let reason = PDN_REJECTED.to_string();
            Err(self.step_to("pdn_reject", now_micros, Rejected { reason }))
        }
    }
}

impl LoanApplication<Approved> {
    /// Disburses the loan.
    pub fn disburse(self) -> (next: LoanApplication<Disbursed>)
        ensures
            next.same_loan(self),
            exists|t: i64| next.follows_at(self, "disburse"@, t) && next.state.disbursed_at == t,
    {
        self.disburse_at(utc_now_micros())
    }

    /// Disburses the loan at `now_micros`, which becomes its disbursement
    /// time.
    pub fn disburse_at(self, now_micros: i64) -> (next: LoanApplication<Disbursed>)
        ensures
            next.same_loan(self),
            next.follows_at(self, "disburse"@, now_micros),
            next.state.disbursed_at == now_micros,
    {
        self.step_to("disburse", now_micros, Disbursed { disbursed_at: now_micros })
    }
}

impl LoanApplication<Disbursed> {
    /// Closes the loan.
    pub fn close(self) -> (next: LoanApplication<Closed>)
        ensures
            next.same_loan(self),
            next.follows(self, "close"@),
    {
        self.close_at(utc_now_micros())
    }

    /// Closes the loan at `now_micros`.
    pub fn close_at(self, now_micros: i64) -> (next: LoanApplication<Closed>)
        ensures
            next.same_loan(self),
            next.follows_at(self, "close"@, now_micros),
    {
        self.step_to("close", now_micros, Closed)
    }
}


/// Days from 1970-01-01 to the given day of the proleptic Gregorian calendar
/// (`month` in 1..=12).
pub open spec fn days_from_civil(year: int, month: int, day: int) -> int {
    let y = if month <= 2 { year - 1 } else { year };
    let era = y / 400;
    let yoe = y - era * 400;
    let mp = (month + 9) % 12;
    let doy = (153 * mp + 2) / 5 + day - 1;
    let doe = yoe * 365 + yoe / 4 - yoe / 100 + doy;
    era * 146097 + doe - 719468
}

/// Microseconds in a day.
pub open spec fn micros_per_day() -> int {
    86_400_000_000
}

/// The start of the day when the shorter BNPL term takes effect
/// (2028-04-01 00:00 UTC), in microseconds since the Unix epoch.
pub open spec fn term_reduction_at() -> int {
    days_from_civil(2028, 4, 1) * micros_per_day()
}

/// The most months a BNPL order may run when created at `now_micros`.
pub open spec fn max_term_at(now_micros: i64) -> u8 {
    if now_micros >= term_reduction_at() {
        4
    } else {
        6
    }
}

/// The limit, in RUB, above which a BNPL obligation must be reported to the
/// credit bureau, and which an order without a bureau check may not exceed.
pub open spec fn bnpl_bki_limit_units() -> int {
    50_000 * pow10(28)
}

/// Why an order with too long a term is refused.
pub const BNPL_TERM_EXCEEDED: &'static str = "BNPL term exceeds active 283-FZ limit";

/// Why an order above the limit without a bureau check is refused.
pub const BNPL_BKI_LIMIT_EXCEEDED: &'static str =
    "BNPL without BKI exceeds 50,000 limit (283-FZ violation)";

/// A "buy now, pay later" order (283-FZ).
#[derive(Debug, Clone)]
pub struct BnplOrder {
    pub inner: LoanApplication<Draft>,
    pub term_months: u8,
    pub without_bki: bool,
}

/// What `create_regulated` decides for an order: the refusal, if any.
pub open spec fn bnpl_refusal(
    amount: Decimal,
    term_months: u8,
    without_bki: bool,
    fully_identified: bool,
    now_micros: i64,
) -> Option<Seq<char>> {
    if term_months > max_term_at(now_micros) {
        Some(BNPL_TERM_EXCEEDED@)
    } else if without_bki && amount.units() > bnpl_bki_limit_units() {
        Some(BNPL_BKI_LIMIT_EXCEEDED@)
    } else if amount.units() > aml_threshold_units() && !fully_identified {
        Some(AML_IDENTIFICATION_REQUIRED@)
    } else {
        None
    }
}

/// `r` is what `create_regulated_at` gives at time `t` for these inputs, up
/// to the order's id.
pub open spec fn decided_at(
    r: Result<BnplOrder, &'static str>,
    client_id: ClientId,
    amount: Decimal,
    term_months: u8,
    without_bki: bool,
    fully_identified: bool,
    t: i64,
) -> bool {
    let refusal = bnpl_refusal(amount, term_months, without_bki, fully_identified, t);
    &&& (refusal is Some <==> r is Err)
    &&& r is Err ==> r->Err_0@ == refusal->0
    &&& r is Ok ==> r->Ok_0.inner.history_hash@ == initial_history(
        r->Ok_0.inner.id.bytes(),
        client_id.bytes(),
        t,
    )
}

impl BnplOrder {
    /// The longest term, in months, until 2028-04-01.
    pub const BNPL_MAX_TERM_UNTIL_2028_MONTHS: u8 = 6;

    /// The longest term, in months, from 2028-04-01.
    pub const BNPL_MAX_TERM_FROM_2028_MONTHS: u8 = 4;

    /// The start of 2028-04-01 UTC, in microseconds since the Unix epoch.
    const BNPL_TERM_REDUCTION_AT_MICROS: i64 = 1_838_160_000_000_000;

    /// The longest term allowed for an order created at `now_micros`
    /// (microseconds since the Unix epoch).
    pub fn max_term_months_for_date(now_micros: i64) -> (m: u8)
        ensures
            m == max_term_at(now_micros),
    {
        assert(days_from_civil(2028, 4, 1) == 21275);
        if now_micros >= Self::BNPL_TERM_REDUCTION_AT_MICROS {
            Self::BNPL_MAX_TERM_FROM_2028_MONTHS
        } else {
            Self::BNPL_MAX_TERM_UNTIL_2028_MONTHS
        }
    }

    /// Creates an order now, with a fresh random id, under the rules of
    /// `create_regulated_at`.
    pub fn create_regulated(
        client_id: ClientId,
        amount: Decimal,
        term_months: u8,
        without_bki: bool,
        fully_identified: bool,
    ) -> (r: Result<BnplOrder, &'static str>)
        ensures
            exists|t: i64|
                decided_at(r, client_id, amount, term_months, without_bki, fully_identified, t),
            r is Ok ==> r->Ok_0.inner.client_id == client_id && r->Ok_0.inner.amount == amount
                && r->Ok_0.inner.fully_identified == fully_identified && r->Ok_0.term_months
                == term_months && r->Ok_0.without_bki == without_bki && is_v4_uuid(
                r->Ok_0.inner.id.bytes(),
            ),
    {
        let now = utc_now_micros();
        let id = LoanId::new();
        let r = BnplOrder::create_regulated_at(
            id,
            client_id,
            amount,
            term_months,
            without_bki,
            fully_identified,
            now,
        );
        assert(decided_at(r, client_id, amount, term_months, without_bki, fully_identified, now));
        r
    }

    /// Creates an order with the given id at `now_micros`. It is refused when
    /// the term exceeds the limit in force, when it goes without a bureau
    /// check above 50,000 RUB, or when it is above 15,000 RUB without full
    /// identification, checked in that order.
    pub fn create_regulated_at(
        id: LoanId,
        client_id: ClientId,
        amount: Decimal,
        term_months: u8,
        without_bki: bool,
        fully_identified: bool,
        now_micros: i64,
    ) -> (r: Result<BnplOrder, &'static str>)
        ensures
            bnpl_refusal(amount, term_months, without_bki, fully_identified, now_micros) is Some
                <==> r is Err,
            r is Err ==> r->Err_0@ == bnpl_refusal(
                amount,
                term_months,
                without_bki,
                fully_identified,
                now_micros,
            )->0,
            r is Ok ==> r->Ok_0.inner.id == id && r->Ok_0.inner.client_id == client_id
                && r->Ok_0.inner.amount == amount && r->Ok_0.inner.fully_identified
                == fully_identified && r->Ok_0.term_months == term_months && r->Ok_0.without_bki
                == without_bki,
            r is Ok ==> r->Ok_0.inner.history_hash@ == initial_history(
                id.bytes(),
                client_id.bytes(),
                now_micros,
            ),
    {
        let max_term = BnplOrder::max_term_months_for_date(now_micros);
        if term_months > max_term {
            return Err(BNPL_TERM_EXCEEDED);
        }
        let limit = Decimal::new(50_000, 0);
        proof {
            assert(limit.units() == 50_000 * pow10(28));
        }
        if without_bki && amount.rd_gt(&limit) {
            return Err(BNPL_BKI_LIMIT_EXCEEDED);
        }
        match LoanApplication::new_with_identification_at(
            id,
            client_id,
            amount,
            fully_identified,
            now_micros,
        ) {
            Ok(inner) => Ok(BnplOrder { inner, term_months, without_bki }),
            Err(e) => Err(e),
        }
    }

    /// Whether the order must be reported to the credit bureau: any
    /// obligation above 50,000 RUB must, whatever `without_bki` says.
    pub fn bki_report_required(&self) -> (b: bool)
        ensures
            b == (self.inner.amount.units() > bnpl_bki_limit_units()),
    {
        let limit = Decimal::new(50_000, 0);
        proof {
            assert(limit.units() == 50_000 * pow10(28));
        }
        self.inner.amount.rd_gt(&limit)
    }
}

/// Every step of an application's history hashes, with BLAKE3, the previous
/// history hash, the application id, the UTF-8 text of the action and the
/// step's timestamp as eight little-endian bytes, in that order.
pub proof fn lemma_history_step_layout<S, T>(
    next: LoanApplication<T>,
    prev: LoanApplication<S>,
    action: Seq<char>,
    t: i64,
)
    requires
        next.follows_at(prev, action, t),
    ensures
        next.history_hash@ == blake3_of(
            prev.history_hash@ + prev.id.bytes() + vstd::utf8::encode_utf8(action) + le_bytes(
                (t as u64) as nat,
                8,
            ),
        ),
{
}

/// A history starts as the BLAKE3 of the application id, the client id and
/// the creation time as eight little-endian bytes, in that order.
pub proof fn lemma_history_start_layout(
    a: LoanApplication<Draft>,
    client_id: ClientId,
    t: i64,
)
    requires
        a.history_hash@ == initial_history(a.id.bytes(), client_id.bytes(), t),
    ensures
        a.history_hash@ == blake3_of(
            a.id.bytes() + client_id.bytes() + le_bytes((t as u64) as nat, 8),
        ),
{
}

/// The longest BNPL term is six months before 2028-04-01 00:00 UTC
/// (1,838,160,000,000,000 microseconds after the Unix epoch) and four
/// months from then on.
pub proof fn lemma_term_limit_switch(now_micros: i64)
    ensures
        now_micros < 1_838_160_000_000_000 ==> max_term_at(now_micros) == 6,
        now_micros >= 1_838_160_000_000_000 ==> max_term_at(now_micros) == 4,
{
    assert(days_from_civil(2028, 4, 1) == 21275);
}

/// Which BNPL orders are refused: a term over six months always is, for its
/// term; a term of at most four months and an amount of at most 15,000 RUB
/// never are; with such a term, an order above 50,000 RUB without a bureau
/// check is refused for that, and an order with a bureau check and full
/// identification never is.
pub proof fn lemma_bnpl_refusals(
    amount: Decimal,
    term_months: u8,
    without_bki: bool,
    fully_identified: bool,
    now_micros: i64,
)
    ensures
        term_months > 6 ==> bnpl_refusal(
            amount,
            term_months,
            without_bki,
            fully_identified,
            now_micros,
        ) == Some(BNPL_TERM_EXCEEDED@),
        term_months <= 4 && amount.units() <= 15_000 * pow10(28) ==> bnpl_refusal(
            amount,
            term_months,
            without_bki,
            fully_identified,
            now_micros,
        ) is None,
        term_months <= 4 && without_bki && amount.units() > 50_000 * pow10(28) ==> bnpl_refusal(
            amount,
            term_months,
            without_bki,
            fully_identified,
            now_micros,
        ) == Some(BNPL_BKI_LIMIT_EXCEEDED@),
        term_months <= 4 && !without_bki && fully_identified ==> bnpl_refusal(
            amount,
            term_months,
            without_bki,
            fully_identified,
            now_micros,
        ) is None,
{
    lemma_term_limit_switch(now_micros);
    crate::decimal::lemma_pow10_positive(28);
}

} // verus!
