//! The CBR anti-fraud (GIS AntiFraud) client: request and decision models,
//! the client configuration, and the retry decisions of a transaction check.

use vstd::prelude::*;
use crate::decimal::Decimal;

verus! {

/// The HTTP client type of `reqwest`, carried opaquely.
#[verifier::external_type_specification]
#[verifier::external_body]
pub struct ExReqwestClient(reqwest::Client);

/// The error type of `reqwest`, carried opaquely.
#[verifier::external_type_specification]
#[verifier::external_body]
pub struct ExReqwestError(reqwest::Error);

/// The error type of `serde_json`, carried opaquely.
#[verifier::external_type_specification]
#[verifier::external_body]
pub struct ExJsonError(serde_json::Error);

/// Calls `reqwest::Client::builder()` with the given request timeout in
/// seconds, then `build()`. Whether building succeeds depends on the
/// platform (TLS back end, system configuration): nothing is stated.
#[verifier::external_body]
pub(crate) fn http_client_with_timeout(secs: u64) -> (r: Result<reqwest::Client, reqwest::Error>) {
    reqwest::Client::builder().timeout(std::time::Duration::from_secs(secs)).build()
}

/// The transaction fields the anti-fraud service checks.
#[derive(Debug, Default)]
pub struct AntiFraudRequest {
    pub transaction_id: String,
    pub amount: Decimal,
    pub sender_inn: Option<String>,
    pub receiver_account: String,
    pub device_fingerprint: Option<String>,
    pub receiver_bank_bic: Option<String>,
    pub atm_id: Option<String>,
    pub atm_roundtrip_ms: Option<u32>,
    pub last_credential_change_micros: Option<u64>,
    pub cross_border_transfer: Option<bool>,
}

/// The fraud signs of the OD-2506 model; unknown signs are kept by name.
#[derive(Debug, Clone, PartialEq, Eq)]
pub enum FraudSign {
    ReceiverInDatabase,
    DeviceInDatabase,
    AtypicalTransaction,
    SuspiciousSbpTransfer,
    SuspiciousNfcActivity,
    MultipleAccountsFromSingleDevice,
    InconsistentGeolocation,
    HighVelocityTransfersInShortWindow,
    RemoteAccessToolDetected,
    KnownProxyOrVpnEndpoint,
    SocialEngineeringPatternDetected,
    ExternalOperatorSignal,
    Other(String),
}

/// The service's decision on a transaction.
#[derive(Debug, Default)]
pub struct AntiFraudDecision {
    pub allowed: bool,
    pub risk_score: u8,
    pub reason: Option<String>,
    pub matched_fraud_signs: Vec<FraudSign>,
}

/// Errors of the CBR API client.
#[derive(Debug)]
pub enum CbrApiError {
    Http(reqwest::Error),
    RateLimited,
    Unavailable,
    Json(serde_json::Error),
    Auth(String),
}

impl From<reqwest::Error> for CbrApiError {
    fn from(e: reqwest::Error) -> (r: CbrApiError) {
        CbrApiError::Http(e)
    }
}

impl vstd::std_specs::convert::FromSpecImpl<reqwest::Error> for CbrApiError {
    open spec fn obeys_from_spec() -> bool {
        true
    }

    open spec fn from_spec(e: reqwest::Error) -> CbrApiError {
        CbrApiError::Http(e)
    }
}

impl From<serde_json::Error> for CbrApiError {
    fn from(e: serde_json::Error) -> (r: CbrApiError) {
        CbrApiError::Json(e)
    }
}

impl vstd::std_specs::convert::FromSpecImpl<serde_json::Error> for CbrApiError {
    open spec fn obeys_from_spec() -> bool {
        true
    }

    open spec fn from_spec(e: serde_json::Error) -> CbrApiError {
        CbrApiError::Json(e)
    }
}

/// A Unicode white-space character, as `char::is_whitespace` defines it.
pub open spec fn is_white_space(c: char) -> bool {
    ||| '\u{9}' <= c && c <= '\u{d}'
    ||| c == ' '
    ||| c == '\u{85}'
    ||| c == '\u{a0}'
    ||| c == '\u{1680}'
    ||| '\u{2000}' <= c && c <= '\u{200a}'
    ||| c == '\u{2028}'
    ||| c == '\u{2029}'
    ||| c == '\u{202f}'
    ||| c == '\u{205f}'
    ||| c == '\u{3000}'
}

fn white_space(c: char) -> (b: bool)
    ensures
        b == is_white_space(c),
{
    ('\u{9}' <= c && c <= '\u{d}') || c == ' ' || c == '\u{85}' || c == '\u{a0}' || c
        == '\u{1680}' || ('\u{2000}' <= c && c <= '\u{200a}') || c == '\u{2028}' || c
        == '\u{2029}' || c == '\u{202f}' || c == '\u{205f}' || c == '\u{3000}'
}

/// The number of leading white-space characters of `s`.
pub open spec fn leading_white(s: Seq<char>) -> nat
    decreases s.len(),
{
    if s.len() > 0 && is_white_space(s[0]) {
        1 + leading_white(s.drop_first())
    } else {
        0
    }
}

/// The number of trailing white-space characters of `s`.
pub open spec fn trailing_white(s: Seq<char>) -> nat
    decreases s.len(),
{
    if s.len() > 0 && is_white_space(s.last()) {
        1 + trailing_white(s.drop_last())
    } else {
        0
    }
}

/// `s` without leading and trailing white space, as `str::trim` gives it.
pub open spec fn trimmed(s: Seq<char>) -> Seq<char> {
    let t = s.skip(leading_white(s) as int);
    t.take(t.len() - trailing_white(t))
}

/// The value of a string of decimal digits.
pub open spec fn digits_value(d: Seq<char>) -> nat
    decreases d.len(),
{
    if d.len() == 0 {
        0
    } else {
        digits_value(d.drop_last()) * 10 + ((d.last() as int - '0' as int) as nat)
    }
}

/// All characters are ASCII digits.
pub open spec fn all_digits(d: Seq<char>) -> bool {
    forall|i: int| 0 <= i < d.len() ==> '0' <= #[trigger] d[i] && d[i] <= '9'
}

/// What `str::parse::<u64>` gives: an optional `+` then at least one digit,
/// with a value that fits in a `u64`.
pub open spec fn parsed_u64(s: Seq<char>) -> Option<nat> {
    let d = if s.len() > 0 && s[0] == '+' {
        s.drop_first()
    } else {
        s
    };
    if d.len() == 0 || !all_digits(d) || digits_value(d) > u64::MAX {
        None
    } else {
        Some(digits_value(d))
    }
}

proof fn lemma_leading_white_bound(s: Seq<char>)
    ensures
        leading_white(s) <= s.len(),
    decreases s.len(),
{
    if s.len() > 0 && is_white_space(s[0]) {
        lemma_leading_white_bound(s.drop_first());
    }
}

proof fn lemma_trailing_white_bound(s: Seq<char>)
    ensures
        trailing_white(s) <= s.len(),
    decreases s.len(),
{
    if s.len() > 0 && is_white_space(s.last()) {
        lemma_trailing_white_bound(s.drop_last());
    }
}

/// `s` trimmed of white space at both ends.
pub fn trim_chars(s: &Vec<char>) -> (t: Vec<char>)
    ensures
        t@ == trimmed(s@),
{
    let n = s.len();
    let mut a: usize = 0;
    proof {
        assert(s@.skip(0) =~= s@);
    }
    while a < n && white_space(s[a])
        invariant
            n == s@.len(),
            0 <= a <= n,
            leading_white(s@) == a + leading_white(s@.skip(a as int)),
        decreases n - a,
    {
        proof {
            assert(s@.skip(a as int).drop_first() =~= s@.skip(a as int + 1));
        }
        a = a + 1;
    }
    proof {
        if a < n {
            assert(s@.skip(a as int)[0] == s@[a as int]);
        }
    }
    let ghost t0 = s@.skip(a as int);
    let mut b: usize = n;
    proof {
        assert(t0.take(n - a) =~= t0);
    }
    while b > a && white_space(s[b - 1])
        invariant
            n == s@.len(),
            0 <= a <= b <= n,
            t0 == s@.skip(a as int),
            leading_white(s@) == a,
            trailing_white(t0) == (n - b) + trailing_white(t0.take(b - a)),
        decreases b - a,
    {
        proof {
            assert(t0.take(b - a).drop_last() =~= t0.take(b - a - 1));
            assert(t0.take(b - a).last() == s@[b - 1]);
        }
        b = b - 1;
    }
    proof {
        if b > a {
            assert(t0.take(b - a).last() == s@[b - 1]);
        }
        assert(trailing_white(t0.take(b - a)) == 0);
    }
    let mut t: Vec<char> = Vec::new();
    let mut i: usize = a;
    while i < b
        invariant
            0 <= a <= i <= b <= n,
            n == s@.len(),
            t@ == s@.subrange(a as int, i as int),
        decreases b - i,
    {
        t.push(s[i]);
        proof {
            assert(s@.subrange(a as int, i as int + 1) =~= s@.subrange(a as int, i as int).push(
                s@[i as int],
            ));
        }
        i = i + 1;
    }
    proof {
        assert(t@ =~= trimmed(s@));
    }
    t
}

/// Parses an unsigned decimal number as `str::parse::<u64>` does.
pub fn parse_u64(s: &Vec<char>) -> (r: Option<u64>)
    ensures
        r matches Some(v) ==> parsed_u64(s@) == Some(v as nat),
        r is None ==> parsed_u64(s@) is None,
{
    let n = s.len();
    let start: usize = if n > 0 && s[0] == '+' {
        1
    } else {
        0
    };
    let ghost d = if s@.len() > 0 && s@[0] == '+' {
        s@.drop_first()
    } else {
        s@
    };
    proof {
        assert(d =~= s@.skip(start as int));
    }
    if start == n {
        return None;
    }
    let mut value: u64 = 0;
    let mut i: usize = start;
    while i < n
        invariant
            n == s@.len(),
            start <= i <= n,
            d == s@.skip(start as int),
            d == (if s@.len() > 0 && s@[0] == '+' { s@.drop_first() } else { s@ }),
            all_digits(s@.subrange(start as int, i as int)),
            value as nat == digits_value(s@.subrange(start as int, i as int)),
        decreases n - i,
    {
        let c = s[i];
        proof {
            assert(s@.subrange(start as int, i as int + 1).drop_last() =~= s@.subrange(
                start as int,
                i as int,
            ));
        }
        if !('0' <= c && c <= '9') {
            proof {
                assert(d[i - start] == c);
                assert(!all_digits(d));
                assert(parsed_u64(s@) is None);
            }
            return None;
        }
        let digit = (c as u32 - '0' as u32) as u64;
        match value.checked_mul(10) {
            Some(m) => match m.checked_add(digit) {
                Some(v) => {
                    value = v;
                },
                None => {
                    proof {
                        lemma_overflow_prefix(s@, d, start as int, i as int, value as nat);
                    }
                    return None;
                },
            },
            None => {
                proof {
                    lemma_overflow_prefix(s@, d, start as int, i as int, value as nat);
                }
                return None;
            },
        }
        proof {
            assert forall|j: int| 0 <= j < i + 1 - start implies '0' <= #[trigger] s@.subrange(
                start as int,
                i as int + 1,
            )[j] && s@.subrange(start as int, i as int + 1)[j] <= '9' by {
                if j < i - start {
                    assert(s@.subrange(start as int, i as int + 1)[j] == s@.subrange(
                        start as int,
                        i as int,
                    )[j]);
                }
            }
        }
        i = i + 1;
    }
    proof {
        assert(s@.subrange(start as int, n as int) =~= d);
    }
    Some(value)
}

proof fn lemma_overflow_prefix(s: Seq<char>, d: Seq<char>, start: int, i: int, value: nat)
    requires
        0 <= start <= i < s.len(),
        d == s.skip(start),
        d == (if s.len() > 0 && s[0] == '+' { s.drop_first() } else { s }),
        all_digits(s.subrange(start, i)),
        value == digits_value(s.subrange(start, i)),
        '0' <= s[i] <= '9',
        value * 10 + (s[i] as int - '0' as int) > u64::MAX,
    ensures
        parsed_u64(s) is None,
{
    let p = s.subrange(start, i + 1);
    assert(p.drop_last() =~= s.subrange(start, i));
    assert(digits_value(p) > u64::MAX);
    if all_digits(d) {
        lemma_digits_value_prefix(d, i - start + 1);
        assert(d.take(i - start + 1) =~= p);
    }
}

/// The value of a digit string is at least the value of any of its prefixes.
proof fn lemma_digits_value_prefix(d: Seq<char>, k: int)
    requires
        0 <= k <= d.len(),
        all_digits(d),
    ensures
        digits_value(d.take(k)) <= digits_value(d),
    decreases d.len() - k,
{
    if k < d.len() {
        lemma_digits_value_prefix(d.drop_last(), if k < d.len() { k } else { k - 1 });
        assert(d.drop_last().take(k) =~= d.take(k));
        assert(all_digits(d.drop_last())) by {
            assert forall|i: int| 0 <= i < d.drop_last().len() implies '0' <= #[trigger] d.drop_last()[i]
                && d.drop_last()[i] <= '9' by {
                assert(d.drop_last()[i] == d[i]);
            }
        }
    } else {
        assert(d.take(k) =~= d);
    }
}

/// The wait before retrying a rate-limited request: the `Retry-After`
/// seconds (at least one) in milliseconds when the header holds a number,
/// otherwise 500 ms per retry so far.
pub open spec fn backoff_ms(header: Option<Seq<char>>, retries: u64) -> int {
    match header {
        Some(raw) => match parsed_u64(trimmed(raw)) {
            Some(seconds) => if seconds >= 1 {
                (seconds * 1000) as int
            } else {
                1000
            },
            None => 500 * retries,
        },
        None => 500 * retries,
    }
}

/// The milliseconds to wait before retrying after a 429 answer.
pub fn retry_after_backoff_ms(retry_after_header: Option<&str>, retries: u64) -> (ms: u64)
    requires
        backoff_ms(
            match retry_after_header {
                Some(h) => Some(h@),
                None => None,
            },
            retries,
        ) <= u64::MAX,
    ensures
        ms == backoff_ms(
            match retry_after_header {
                Some(h) => Some(h@),
                None => None,
            },
            retries,
        ),
{
    if let Some(raw) = retry_after_header {
        let t = trim_chars(&crate::text::chars_of(raw));
        if let Some(seconds) = parse_u64(&t) {
            let s = if seconds >= 1 {
                seconds
            } else {
                1
            };
            return s * 1_000;
        }
    }
    500 * retries
}

/// What to do with an answer to a transaction check.
#[derive(Debug, Clone, Copy, PartialEq, Eq)]
pub enum CheckStep {
    /// Rate limited: wait `backoff_ms`, then send again; `retries` retries so far.
    Retry { retries: u64, backoff_ms: u64 },
    /// Rate limited with no retry left.
    RateLimited,
    /// The service is unavailable (503).
    Unavailable,
    /// Success (2xx): read the decision from the body.
    ReadDecision,
    /// Any other status is an HTTP error.
    HttpError,
}

/// The step for an answer with `status` after `retries` retries: 429 retries
/// up to three times, with the back-off of the `Retry-After` header; 503 is
/// unavailability; 2xx carries the decision; anything else is an HTTP error.
pub open spec fn check_step_of(retries: u64, status: u16, retry_after: Option<Seq<char>>) -> CheckStep {
    if status == 429 {
        if retries >= 3 {
            CheckStep::RateLimited
        } else {
            CheckStep::Retry {
                retries: (retries + 1) as u64,
                backoff_ms: backoff_ms(retry_after, (retries + 1) as u64) as u64,
            }
        }
    } else if status == 503 {
        CheckStep::Unavailable
    } else if 200 <= status && status <= 299 {
        CheckStep::ReadDecision
    } else {
        CheckStep::HttpError
    }
}

/// A rate-limited check is retried at most three times: each retry step
/// counts one more retry, and none follows the third.
pub proof fn lemma_retries_bounded(retries: u64, status: u16, header: Option<Seq<char>>)
    ensures
        check_step_of(retries, status, header) is Retry ==> check_step_of(
            retries,
            status,
            header,
        )->retries == retries + 1 && check_step_of(retries, status, header)->retries <= 3,
{
}

/// The header's text, if present.
pub open spec fn header_view(h: Option<&str>) -> Option<Seq<char>> {
    match h {
        Some(s) => Some(s@),
        None => None,
    }
}

/// Decides what a transaction check does with an answer.
pub fn check_step(retries: u64, status: u16, retry_after: Option<&str>) -> (step: CheckStep)
    requires
        status == 429 && retries < 3 ==> backoff_ms(header_view(retry_after), (retries + 1) as u64)
            <= u64::MAX,
    ensures
        step == check_step_of(retries, status, header_view(retry_after)),
{
    if status == 429 {
        if retries >= 3 {
            CheckStep::RateLimited
        } else {
            let next = retries + 1;
            let backoff_ms = retry_after_backoff_ms(retry_after, next);
            CheckStep::Retry { retries: next, backoff_ms }
        }
    } else if status == 503 {
        CheckStep::Unavailable
    } else if 200 <= status && status <= 299 {
        CheckStep::ReadDecision
    } else {
        CheckStep::HttpError
    }
}

/// Builder of a CBR API client.
#[derive(Default)]
pub struct CbrApiBuilder {
    base_url: Option<String>,
    api_key: Option<String>,
}

/// A client of the CBR public APIs.
pub struct CbrApiClient {
    http: reqwest::Client,
    base_url: String,
    api_key: String,
}

/// The default base URL of the CBR APIs.
pub open spec fn default_cbr_base_url() -> Seq<char> {
    "https://finapi.cbr.ru"@
}

impl CbrApiBuilder {
    /// The base URL set so far.
    pub closed spec fn base_url_of(self) -> Option<Seq<char>> {
        match self.base_url {
            Some(u) => Some(u@),
            None => None,
        }
    }

    /// The API key set so far.
    pub closed spec fn api_key_of(self) -> Option<Seq<char>> {
        match self.api_key {
            Some(k) => Some(k@),
            None => None,
        }
    }

    /// Sets the base URL.
    pub fn base_url(self, url: &str) -> (b: CbrApiBuilder)
        ensures
            b.base_url_of() == Some(url@),
            b.api_key_of() == self.api_key_of(),
    {
        CbrApiBuilder { base_url: Some(url.to_owned()), api_key: self.api_key }
    }

    /// Sets the API key.
    pub fn api_key(self, key: &str) -> (b: CbrApiBuilder)
        ensures
            b.api_key_of() == Some(key@),
            b.base_url_of() == self.base_url_of(),
    {
        CbrApiBuilder { base_url: self.base_url, api_key: Some(key.to_owned()) }
    }

    /// A client with the base URL (by default the CBR's) and the API key,
    /// whose HTTP requests time out after ten seconds. Without an API key the
    /// build fails with an authentication error.
    pub fn build(self) -> (r: Result<CbrApiClient, CbrApiError>)
        ensures
            self.api_key_of() is None ==> (r is Err && (r->Err_0 matches CbrApiError::Auth(m)
                && m@ == "Missing API Key"@)),
            r is Ok ==> r->Ok_0.api_key_of() == self.api_key_of()->0,
            r is Ok ==> r->Ok_0.base_url_of() == match self.base_url_of() {
                Some(u) => u,
                None => default_cbr_base_url(),
            },
            r is Err && self.api_key_of() is Some ==> r->Err_0 is Http,
    {
        let base_url = match self.base_url {
            Some(u) => u,
            None => "https://finapi.cbr.ru".to_owned(),
        };
        let api_key = match self.api_key {
            Some(k) => k,
            None => {
                return Err(CbrApiError::Auth("Missing API Key".to_owned()));
            },
        };
        match http_client_with_timeout(10) {
            Ok(http) => Ok(CbrApiClient { http, base_url, api_key }),
            Err(e) => Err(CbrApiError::Http(e)),
        }
    }
}

impl CbrApiClient {
    /// The base URL.
    pub closed spec fn base_url_of(self) -> Seq<char> {
        self.base_url@
    }

    /// The API key.
    pub closed spec fn api_key_of(self) -> Seq<char> {
        self.api_key@
    }

    /// A builder with nothing set.
    pub fn builder() -> (b: CbrApiBuilder)
        ensures
            b.base_url_of() is None,
            b.api_key_of() is None,
    {
        CbrApiBuilder { base_url: None, api_key: None }
    }

    /// The client's HTTP connection pool.
    pub closed spec fn http_of(self) -> reqwest::Client {
        self.http
    }

    /// The HTTP client requests go through.
    pub fn http(&self) -> (h: &reqwest::Client)
        ensures
            *h == self.http_of(),
    {
        &self.http
    }

    /// The anti-fraud service of this client.
    pub fn antifraud(&self) -> (c: AntiFraudClient<'_>)
        ensures
            c.parent_client() == *self,
            c.base_url_of() == self.base_url_of(),
            c.api_key_of() == self.api_key_of(),
    {
        AntiFraudClient { parent: self }
    }

    /// The TsPI service of this client.
    pub fn tspi(&self) -> (c: TspiClient<'_>)
        ensures
            c.parent() == *self,
    {
        TspiClient { _parent: self }
    }

    /// The EBS service of this client.
    pub fn ebs(&self) -> (c: EbsClient<'_>)
        ensures
            c.parent() == *self,
    {
        EbsClient { _parent: self }
    }
}

/// The anti-fraud service of a CBR client.
pub struct AntiFraudClient<'a> {
    parent: &'a CbrApiClient,
}

impl<'a> AntiFraudClient<'a> {
    /// The CBR client the service belongs to.
    pub closed spec fn parent_client(self) -> CbrApiClient {
        *self.parent
    }

    /// The base URL.
    pub closed spec fn base_url_of(self) -> Seq<char> {
        self.parent.base_url@
    }

    /// The API key.
    pub closed spec fn api_key_of(self) -> Seq<char> {
        self.parent.api_key@
    }

    /// The HTTP client of the parent CBR client.
    pub fn http(&self) -> (h: &'a reqwest::Client)
        ensures
            *h == self.parent_client().http_of(),
    {
        &self.parent.http
    }

    /// Where transaction checks are posted.
    pub fn check_url(&self) -> (u: String)
        ensures
            u@ == self.base_url_of() + "/v1/antifraud/check"@,
    {
        self.parent.base_url.clone().concat("/v1/antifraud/check")
    }

    /// The value of the `Authorization` header.
    pub fn authorization(&self) -> (a: String)
        ensures
            a@ == "Bearer "@ + self.api_key_of(),
    {
        "Bearer ".to_owned().concat(self.parent.api_key.as_str())
    }
}

/// The Citizen Digital Profile (TsPI) service of a CBR client.
pub struct TspiClient<'a> {
    _parent: &'a CbrApiClient,
}

/// The Unified Biometric System (EBS) service of a CBR client.
pub struct EbsClient<'a> {
    _parent: &'a CbrApiClient,
}

impl<'a> TspiClient<'a> {
    /// The CBR client the service belongs to.
    pub closed spec fn parent(self) -> CbrApiClient {
        *self._parent
    }

    /// Checks that the service answers; the service is a stub that always does.
    pub fn ping(&self) -> (r: Result<bool, CbrApiError>)
        ensures
            r matches Ok(b) && b,
    {
        Ok(true)
    }
}

impl<'a> EbsClient<'a> {
    /// The CBR client the service belongs to.
    pub closed spec fn parent(self) -> CbrApiClient {
        *self._parent
    }

    /// Checks that the service answers; the service is a stub that always does.
    pub fn ping(&self) -> (r: Result<bool, CbrApiError>)
        ensures
            r matches Ok(b) && b,
    {
        Ok(true)
    }
}

} // verus!
