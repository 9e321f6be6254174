//! SMEV 4 client: errors, availability classification, polling decisions
//! and the audit entries of polling outcomes.

use vstd::prelude::*;
use crate::antifraud::http_client_with_timeout;
use crate::audit::AuditEntry;
use crate::digest::{blake3_hash, blake3_of};
use crate::text::{chars_of, contains_chars, occurs_in, u64_to_text, decimal_text};

verus! {

/// Calls the `Display` implementation of `reqwest::Error`.
#[verifier::external_body]
fn reqwest_error_text(e: &reqwest::Error) -> String {
    format!("{}", e)
}

/// The error type of `quick_xml`, carried opaquely.
#[verifier::external_type_specification]
#[verifier::external_body]
pub struct ExXmlError(quick_xml::Error);

/// Calls the `Display` implementation of `quick_xml::Error`.
#[verifier::external_body]
fn xml_error_text(e: &quick_xml::Error) -> String {
    format!("{}", e)
}

/// Errors of the SMEV 4 client.
#[derive(Debug)]
pub enum SmevError {
    /// The HTTP client failed.
    Http(reqwest::Error),
    /// The XML reader failed.
    Xml(quick_xml::Error),
    /// Authentication or configuration error.
    Auth(String),
    /// Polling the queue timed out.
    Timeout,
    /// The state service is unavailable.
    Unavailable { reason: String },
    /// Payload or response error.
    Payload(String),
}

impl SmevError {
    /// The error's message text.
    pub open spec fn message_text(self) -> Seq<char> {
        match self {
            SmevError::Http(_) => "HTTP error: "@,
            SmevError::Xml(_) => "XML parse error: "@,
            SmevError::Auth(m) => "Authentication/configuration error: "@ + m@,
            SmevError::Timeout => "Timeout while polling SMEV queue"@,
            SmevError::Unavailable { reason } => "SMEV service unavailable: "@ + reason@,
            SmevError::Payload(m) => "Payload/response error: "@ + m@,
        }
    }

    /// The error's message; for an HTTP or XML error, the prefix followed by
    /// the outside error's own text.
    pub fn message(&self) -> (s: String)
        ensures
            !(self is Http) && !(self is Xml) ==> s@ == self.message_text(),
            self is Http || self is Xml ==> self.message_text().is_prefix_of(s@),
    {
        match self {
            SmevError::Http(e) => {
                let s = "HTTP error: ".to_owned().concat(reqwest_error_text(e).as_str());
                proof {
                    assert(s@.subrange(0, self.message_text().len() as int) =~= self.message_text());
                }
                s
            },
            SmevError::Xml(e) => {
                let s = "XML parse error: ".to_owned().concat(xml_error_text(e).as_str());
                proof {
                    assert(s@.subrange(0, self.message_text().len() as int) =~= self.message_text());
                }
                s
            },
            SmevError::Auth(m) => "Authentication/configuration error: ".to_owned().concat(m.as_str()),
            SmevError::Timeout => "Timeout while polling SMEV queue".to_owned(),
            SmevError::Unavailable { reason } => "SMEV service unavailable: ".to_owned().concat(
                reason.as_str(),
            ),
            SmevError::Payload(m) => "Payload/response error: ".to_owned().concat(m.as_str()),
        }
    }
}

impl From<reqwest::Error> for SmevError {
    fn from(e: reqwest::Error) -> (r: SmevError) {
        SmevError::Http(e)
    }
}

impl vstd::std_specs::convert::FromSpecImpl<reqwest::Error> for SmevError {
    open spec fn obeys_from_spec() -> bool {
        true
    }

    open spec fn from_spec(e: reqwest::Error) -> SmevError {
        SmevError::Http(e)
    }
}

impl From<quick_xml::Error> for SmevError {
    fn from(e: quick_xml::Error) -> (r: SmevError) {
        SmevError::Xml(e)
    }
}

impl vstd::std_specs::convert::FromSpecImpl<quick_xml::Error> for SmevError {
    open spec fn obeys_from_spec() -> bool {
        true
    }

    open spec fn from_spec(e: quick_xml::Error) -> SmevError {
        SmevError::Xml(e)
    }
}

/// Why a state service refused to answer.
#[derive(Debug, Clone, Copy, PartialEq, Eq)]
pub enum UnavailableReason {
    /// The provider denies or locks access.
    ProviderAccessDenied,
    /// A quota or rate limit applies; retry later.
    QuotaOrRateLimit,
    /// The service is degraded.
    ServiceDegraded,
}

/// The reason an HTTP status gives: 429, or any status with a `Retry-After`
/// header, is a quota or rate limit; 403 and 423 deny access; anything else
/// is a degraded service.
pub open spec fn unavailable_reason_of(status: u16, has_retry_after: bool) -> UnavailableReason {
    if status == 429 || has_retry_after {
        UnavailableReason::QuotaOrRateLimit
    } else if status == 403 || status == 423 {
        UnavailableReason::ProviderAccessDenied
    } else {
        UnavailableReason::ServiceDegraded
    }
}

impl UnavailableReason {
    /// Classifies a refusing HTTP status.
    pub fn from_http_status(status: u16, has_retry_after: bool) -> (r: UnavailableReason)
        ensures
            r == unavailable_reason_of(status, has_retry_after),
    {
        if status == 429 || has_retry_after {
            UnavailableReason::QuotaOrRateLimit
        } else if status == 403 || status == 423 {
            UnavailableReason::ProviderAccessDenied
        } else {
            UnavailableReason::ServiceDegraded
        }
    }

    /// The variant's name.
    pub fn name(&self) -> (s: &'static str)
        ensures
            *self == UnavailableReason::ProviderAccessDenied ==> s@ == "ProviderAccessDenied"@,
            *self == UnavailableReason::QuotaOrRateLimit ==> s@ == "QuotaOrRateLimit"@,
            *self == UnavailableReason::ServiceDegraded ==> s@ == "ServiceDegraded"@,
    {
        match self {
            UnavailableReason::ProviderAccessDenied => "ProviderAccessDenied",
            UnavailableReason::QuotaOrRateLimit => "QuotaOrRateLimit",
            UnavailableReason::ServiceDegraded => "ServiceDegraded",
        }
    }
}

/// How a SMEV client authenticates.
#[derive(Debug, Clone)]
pub enum AuthProvider {
    Oidc { token_url: String, client_id: String, client_secret: String },
    Certificate { path: String },
}

/// A ticket of the SMEV 4 response queue.
#[derive(Debug, Clone)]
pub struct QueueTicket(pub String);

/// Polling limits.
#[derive(Debug, Clone, Copy)]
pub struct PollConfig {
    pub max_attempts: u32,
    pub initial_delay_ms: u64,
    pub max_delay_ms: u64,
    pub timeout_total_secs: u64,
}

impl Default for PollConfig {
    /// Ten attempts, 100 ms initial delay, 10 s maximum delay, 30 s in all.
    fn default() -> (c: PollConfig)
        ensures
            c == (PollConfig {
                max_attempts: 10,
                initial_delay_ms: 100,
                max_delay_ms: 10_000,
                timeout_total_secs: 30,
            }),
    {
        PollConfig {
            max_attempts: 10,
            initial_delay_ms: 100,
            max_delay_ms: 10_000,
            timeout_total_secs: 30,
        }
    }
}

/// The audit payload that records a polling outcome: the response text,
/// or a marker for unavailability, timeout or any other error.
pub open spec fn poll_outcome_payload(result: Result<String, SmevError>) -> Seq<u8> {
    match result {
        Ok(xml) => vstd::utf8::encode_utf8(xml@),
        Err(SmevError::Unavailable { .. }) => vstd::utf8::encode_utf8("SMEV_UNAVAILABLE"@),
        Err(SmevError::Timeout) => vstd::utf8::encode_utf8("SMEV_TIMEOUT"@),
        Err(_) => vstd::utf8::encode_utf8("SMEV_ERROR"@),
    }
}

/// Builder of a SMEV 4 client.
#[derive(Default)]
pub struct SmevClientBuilder {
    base_url: Option<String>,
    auth: Option<AuthProvider>,
}

/// A SMEV 4 client.
pub struct SmevClient {
    http: reqwest::Client,
    base_url: String,
    _auth: AuthProvider,
}

/// The certificate used when no authentication is configured.
pub open spec fn default_certificate_path() -> Seq<char> {
    "/etc/crypto/certs/gost.pem"@
}

impl SmevClientBuilder {
    /// The base URL set so far.
    pub closed spec fn base_url_of(self) -> Option<Seq<char>> {
        match self.base_url {
            Some(u) => Some(u@),
            None => None,
        }
    }

    /// The authentication set so far.
    pub closed spec fn auth_of(self) -> Option<AuthProvider> {
        self.auth
    }

    /// Sets the base URL.
    pub fn base_url(self, url: &str) -> (b: SmevClientBuilder)
        ensures
            b.base_url_of() == Some(url@),
            b.auth_of() == self.auth_of(),
    {
        SmevClientBuilder { base_url: Some(url.to_owned()), auth: self.auth }
    }

    /// Sets the authentication.
    pub fn auth_provider(self, auth: AuthProvider) -> (b: SmevClientBuilder)
        ensures
            b.auth_of() == Some(auth),
            b.base_url_of() == self.base_url_of(),
    {
        SmevClientBuilder { base_url: self.base_url, auth: Some(auth) }
    }

    /// A client for the base URL, which is required, with the configured
    /// authentication or else the default certificate; HTTP requests time out
    /// after thirty seconds.
    pub fn build(self) -> (r: Result<SmevClient, SmevError>)
        ensures
            self.base_url_of() is None ==> (r is Err && (r->Err_0 matches SmevError::Auth(m)
                && m@ == "base_url required for SMEV 4 client"@)),
            r is Ok ==> Some(r->Ok_0.base_url_of()) == self.base_url_of(),
            r is Ok ==> r->Ok_0.auth_of() == match self.auth_of() {
                Some(a) => a,
                None => AuthProvider::Certificate { path: r->Ok_0.auth_of()->path },
            },
            r is Ok && self.auth_of() is None ==> r->Ok_0.auth_of()->path@
                == default_certificate_path(),
            r is Err && self.base_url_of() is Some ==> r->Err_0 is Http,
    {
        let base_url = match self.base_url {
            Some(u) => u,
            None => {
                return Err(SmevError::Auth("base_url required for SMEV 4 client".to_owned()));
            },
        };
        let auth = match self.auth {
            Some(a) => a,
            None => AuthProvider::Certificate { path: "/etc/crypto/certs/gost.pem".to_owned() },
        };
        match http_client_with_timeout(30) {
            Ok(http) => Ok(SmevClient { http, base_url, _auth: auth }),
            Err(e) => Err(SmevError::Http(e)),
        }
    }
}

impl SmevClient {
    /// The base URL.
    pub closed spec fn base_url_of(self) -> Seq<char> {
        self.base_url@
    }

    /// The authentication.
    pub closed spec fn auth_of(self) -> AuthProvider {
        self._auth
    }

    /// A builder with nothing set.
    pub fn builder() -> (b: SmevClientBuilder)
        ensures
            b.base_url_of() is None,
            b.auth_of() is None,
    {
        SmevClientBuilder { base_url: None, auth: None }
    }

    /// The BLAKE3 fingerprint of a request payload.
    pub fn request_fingerprint(payload: &[u8]) -> (r: [u8; 32])
        ensures
            r@ == blake3_of(payload@),
    {
        blake3_hash(payload)
    }

    /// The client's HTTP connection pool.
    pub closed spec fn http_of(self) -> reqwest::Client {
        self.http
    }

    /// The HTTP client requests go through.
    pub fn get_http(&self) -> (h: &reqwest::Client)
        ensures
            *h == self.http_of(),
    {
        &self.http
    }

    /// The base URL followed by `path`.
    pub fn get_url(&self, path: &str) -> (u: String)
        ensures
            u@ == self.base_url_of() + path@,
    {
        self.base_url.clone().concat(path)
    }

    /// The URL that a ticket's response is polled at.
    pub fn queue_url(&self, ticket: &QueueTicket) -> (u: String)
        ensures
            u@ == self.base_url_of() + "/api/v1/queue/"@ + ticket.0@,
    {
        self.base_url.clone().concat("/api/v1/queue/").concat(ticket.0.as_str())
    }

    /// The FNS service of this client.
    pub fn fns(&self) -> (s: crate::smev_services::FnsService<'_>)
        ensures
            s.client() == *self,
    {
        crate::smev_services::FnsService::new(self)
    }

    /// The ESIA service of this client.
    pub fn esia(&self) -> (s: crate::smev_services::EsiaService<'_>)
        ensures
            s.client() == *self,
    {
        crate::smev_services::EsiaService::new(self)
    }

    /// The audit entry recording a polling outcome, with `nonce`: chained to
    /// `previous` when there is one, otherwise a new chain.
    pub fn audit_poll_outcome(
        result: &Result<String, SmevError>,
        timestamp_micros: u64,
        nonce: [u8; 32],
        previous: Option<&AuditEntry>,
    ) -> (e: AuditEntry)
        ensures
            previous matches Some(p) ==> e.extends(
                p.entry_hash@,
                timestamp_micros,
                poll_outcome_payload(*result),
                nonce@,
                p.operator_binding_hash@,
            ),
            previous is None ==> e.extends(
                crate::audit::zero_hash(),
                timestamp_micros,
                poll_outcome_payload(*result),
                nonce@,
                crate::audit::zero_hash(),
            ),
    {
        let payload: &[u8] = match result {
            Ok(xml) => xml.as_str().as_bytes(),
            Err(SmevError::Unavailable { .. }) => "SMEV_UNAVAILABLE".as_bytes(),
            Err(SmevError::Timeout) => "SMEV_TIMEOUT".as_bytes(),
            Err(_) => "SMEV_ERROR".as_bytes(),
        };
        match previous {
            Some(prev) => prev.next(timestamp_micros, payload, Some(&nonce)),
            None => AuditEntry::genesis(timestamp_micros, payload, Some(&nonce)),
        }
    }
}

/// Where a queue poll stands: attempts made and the next delay.
#[derive(Debug, Clone, Copy, PartialEq, Eq)]
pub struct PollState {
    pub attempts: u32,
    pub delay_ms: u64,
}

/// What to do after one answer of the queue.
#[derive(Debug)]
pub enum PollAction {
    /// The response is ready.
    Ready(String),
    /// Stop with an error.
    Fail(SmevError),
    /// Wait, then poll again from the new state.
    Wait { delay_ms: u64, next: PollState },
}

/// The first state of a poll.
pub fn poll_start(config: &PollConfig) -> (s: PollState)
    ensures
        s == (PollState { attempts: 0, delay_ms: config.initial_delay_ms }),
{
    PollState { attempts: 0, delay_ms: config.initial_delay_ms }
}

/// The marker of a response still being processed.
pub open spec fn processing_marker() -> Seq<char> {
    "<Status>PROCESSING</Status>"@
}

/// The statuses at which the provider is unavailable.
pub open spec fn is_unavailable_status(status: u16) -> bool {
    status == 403 || status == 423 || status == 429 || status == 503
}

/// A successful HTTP status.
pub open spec fn is_success_status(status: u16) -> bool {
    200 <= status && status <= 299
}

/// The unavailability reason text: the reason's name, then the status text
/// in parentheses.
pub open spec fn unavailable_text(status: u16, has_retry_after: bool, status_text: Seq<char>) -> Seq<
    char,
> {
    let name = match unavailable_reason_of(status, has_retry_after) {
        UnavailableReason::ProviderAccessDenied => "ProviderAccessDenied"@,
        UnavailableReason::QuotaOrRateLimit => "QuotaOrRateLimit"@,
        UnavailableReason::ServiceDegraded => "ServiceDegraded"@,
    };
    name + " ("@ + status_text + ")"@
}

/// The next delay: doubled (saturating), at most the configured maximum.
pub open spec fn next_delay(delay_ms: u64, max_delay_ms: u64) -> u64 {
    let doubled = if delay_ms * 2 > u64::MAX {
        u64::MAX
    } else {
        (delay_ms * 2) as u64
    };
    if doubled < max_delay_ms {
        doubled
    } else {
        max_delay_ms
    }
}

/// One wait of a poll: the attempt is counted and stays below the limit,
/// and the delay doubles, up to the maximum.
pub open spec fn poll_advances(config: PollConfig, state: PollState, next: PollState) -> bool {
    &&& next.attempts == state.attempts + 1
    &&& next.attempts < config.max_attempts
    &&& next.delay_ms == next_delay(state.delay_ms, config.max_delay_ms)
}

/// Each wait at most doubles the delay and never passes the maximum: the
/// next delay is either twice the current one or the maximum, and from a
/// delay within the maximum it never shrinks.
pub proof fn lemma_delay_doubles_up_to_max(delay_ms: u64, max_delay_ms: u64)
    ensures
        next_delay(delay_ms, max_delay_ms) <= max_delay_ms,
        next_delay(delay_ms, max_delay_ms) as int <= 2 * delay_ms,
        next_delay(delay_ms, max_delay_ms) == max_delay_ms || next_delay(delay_ms, max_delay_ms)
            as int == 2 * delay_ms,
        delay_ms <= max_delay_ms ==> delay_ms <= next_delay(delay_ms, max_delay_ms),
{
}

/// Polling is bounded: a run of waits from the first state counts one attempt
/// per wait and stays below `max_attempts`, so a poll makes at most
/// `max_attempts` requests; and every delay after the first is at most
/// `max_delay_ms`.
pub proof fn lemma_poll_bounded(config: PollConfig, states: Seq<PollState>)
    requires
        states.len() > 0,
        states[0] == (PollState { attempts: 0, delay_ms: config.initial_delay_ms }),
        forall|i: int|
            0 <= i < states.len() - 1 ==> #[trigger] poll_advances(config, states[i], states[i + 1]),
    ensures
        forall|i: int| 0 <= i < states.len() ==> #[trigger] states[i].attempts == i,
        states.len() == 1 || states.len() <= config.max_attempts,
        forall|i: int| 1 <= i < states.len() ==> #[trigger] states[i].delay_ms <= config.max_delay_ms,
    decreases states.len(),
{
    if states.len() > 1 {
        let prefix = states.drop_last();
        assert forall|i: int| 0 <= i < prefix.len() - 1 implies #[trigger] poll_advances(
            config,
            prefix[i],
            prefix[i + 1],
        ) by {
            assert(poll_advances(config, states[i], states[i + 1]));
        }
        lemma_poll_bounded(config, prefix);
        let n = states.len() - 1;
        let j = n - 1;
        assert(poll_advances(config, states[j], states[j + 1]));
        assert(j + 1 == n);
        assert(prefix[j] == states[j]);
        assert forall|i: int| 0 <= i < states.len() implies #[trigger] states[i].attempts == i by {
            if i < n {
                assert(prefix[i] == states[i]);
            }
        }
        assert forall|i: int| 1 <= i < states.len() implies #[trigger] states[i].delay_ms
            <= config.max_delay_ms by {
            if i < n {
                assert(prefix[i] == states[i]);
            } else {
                assert(poll_advances(config, states[j], states[j + 1]));
            }
        }
    }
}

/// Decides on one answer of the queue. A successful answer whose body is not
/// still processing is the response. 403, 423, 429 and 503 make the service
/// unavailable, 404 means the ticket is unknown or expired. Otherwise the
/// attempt counts: once `max_attempts` attempts are made, or
/// `timeout_total_secs` have passed, polling times out; else it waits the
/// current delay and doubles it, up to `max_delay_ms`.
pub fn poll_step(
    config: &PollConfig,
    state: PollState,
    ticket: &QueueTicket,
    status: u16,
    status_text: &str,
    has_retry_after: bool,
    body: Option<String>,
    elapsed_secs: u64,
) -> (a: PollAction)
    requires
        is_success_status(status) ==> body is Some,
    ensures
        is_success_status(status) && !occurs_in(body->0@, processing_marker()) ==> a
            == PollAction::Ready(body->0),
        !is_success_status(status) && is_unavailable_status(status) ==> (a is Fail && (a->Fail_0 matches SmevError::Unavailable { reason }
            && reason@ == unavailable_text(status, has_retry_after, status_text@))),
        !is_success_status(status) && status == 404 ==> (a is Fail && (a->Fail_0 matches SmevError::Payload(m)
            && m@ == "queue ticket not found or expired: "@ + ticket.0@)),
        (is_success_status(status) && occurs_in(body->0@, processing_marker())) || (
        !is_success_status(status) && !is_unavailable_status(status) && status != 404) ==> {
            if state.attempts + 1 >= config.max_attempts || elapsed_secs
                >= config.timeout_total_secs {
                a is Fail && a->Fail_0 is Timeout
            } else {
                a == PollAction::Wait {
                    delay_ms: state.delay_ms,
                    next: PollState {
                        attempts: (state.attempts + 1) as u32,
                        delay_ms: next_delay(state.delay_ms, config.max_delay_ms),
                    },
                }
            }
        },
        a is Wait ==> a->delay_ms == state.delay_ms && poll_advances(*config, state, a->next),
{
    if 200 <= status && status <= 299 {
        let text = match body {
            Some(t) => t,
            None => String::new(),
        };
        if !contains_chars(&chars_of(text.as_str()), &chars_of("<Status>PROCESSING</Status>")) {
            return PollAction::Ready(text);
        }
    } else if status == 403 || status == 423 || status == 429 || status == 503 {
        let kind = UnavailableReason::from_http_status(status, has_retry_after);
        let reason = kind.name().to_owned().concat(" (").concat(status_text).concat(")");
        return PollAction::Fail(SmevError::Unavailable { reason });
    } else if status == 404 {
        return PollAction::Fail(
            SmevError::Payload(
                "queue ticket not found or expired: ".to_owned().concat(ticket.0.as_str()),
            ),
        );
    }
    if state.attempts >= u32::MAX - 1 || state.attempts + 1 >= config.max_attempts {
        return PollAction::Fail(SmevError::Timeout);
    }
    if elapsed_secs >= config.timeout_total_secs {
        return PollAction::Fail(SmevError::Timeout);
    }
    let doubled = if state.delay_ms > u64::MAX / 2 {
        u64::MAX
    } else {
        state.delay_ms * 2
    };
    let next_delay_ms = if doubled < config.max_delay_ms {
        doubled
    } else {
        config.max_delay_ms
    };
    PollAction::Wait {
        delay_ms: state.delay_ms,
        next: PollState { attempts: state.attempts + 1, delay_ms: next_delay_ms },
    }
}

/// The three failure markers of a polling outcome differ from one another:
/// an unavailable service, a timeout and any other error are recorded
/// apart.
pub proof fn lemma_poll_markers_distinct(reason: String, other: SmevError)
    requires
        !(other is Unavailable),
        !(other is Timeout),
    ensures
        poll_outcome_payload(Err(SmevError::Unavailable { reason })) != poll_outcome_payload(
            Err(SmevError::Timeout),
        ),
        poll_outcome_payload(Err(SmevError::Unavailable { reason })) != poll_outcome_payload(
            Err(other),
        ),
        poll_outcome_payload(Err(SmevError::Timeout)) != poll_outcome_payload(Err(other)),
{
    reveal_strlit("SMEV_UNAVAILABLE");
    reveal_strlit("SMEV_TIMEOUT");
    reveal_strlit("SMEV_ERROR");
    vstd::utf8::encode_utf8_decode_utf8("SMEV_UNAVAILABLE"@);
    vstd::utf8::encode_utf8_decode_utf8("SMEV_TIMEOUT"@);
    vstd::utf8::encode_utf8_decode_utf8("SMEV_ERROR"@);
}

/// What an audited polling outcome records as its payload hash: the BLAKE3
/// of the response text, or of the ASCII marker `SMEV_UNAVAILABLE`,
/// `SMEV_TIMEOUT` or `SMEV_ERROR` for an unavailable service, a timeout or
/// any other error, whatever the reason given.
pub proof fn lemma_poll_outcome_recorded(
    e: AuditEntry,
    result: Result<String, SmevError>,
    head: Seq<u8>,
    timestamp_micros: u64,
    nonce: Seq<u8>,
    operator_binding_hash: Seq<u8>,
)
    requires
        e.extends(head, timestamp_micros, poll_outcome_payload(result), nonce, operator_binding_hash),
    ensures
        result matches Ok(xml) ==> e.payload_hash@ == blake3_of(vstd::utf8::encode_utf8(xml@)),
        result matches Err(SmevError::Unavailable { .. }) ==> e.payload_hash@ == blake3_of(
            seq![83u8, 77, 69, 86, 95, 85, 78, 65, 86, 65, 73, 76, 65, 66, 76, 69],
        ),
        result matches Err(SmevError::Timeout) ==> e.payload_hash@ == blake3_of(
            seq![83u8, 77, 69, 86, 95, 84, 73, 77, 69, 79, 85, 84],
        ),
        result matches Err(err) ==> (!(err is Unavailable) && !(err is Timeout)
            ==> e.payload_hash@ == blake3_of(seq![83u8, 77, 69, 86, 95, 69, 82, 82, 79, 82])),
{
    reveal_strlit("SMEV_UNAVAILABLE");
    reveal_strlit("SMEV_TIMEOUT");
    reveal_strlit("SMEV_ERROR");
    vstd::utf8::is_ascii_chars_encode_utf8("SMEV_UNAVAILABLE"@);
    vstd::utf8::is_ascii_chars_encode_utf8("SMEV_TIMEOUT"@);
    vstd::utf8::is_ascii_chars_encode_utf8("SMEV_ERROR"@);
    assert(vstd::utf8::encode_utf8("SMEV_UNAVAILABLE"@) =~= seq![
        83u8, 77, 69, 86, 95, 85, 78, 65, 86, 65, 73, 76, 65, 66, 76, 69
    ]);
    assert(vstd::utf8::encode_utf8("SMEV_TIMEOUT"@) =~= seq![
        83u8, 77, 69, 86, 95, 84, 73, 77, 69, 79, 85, 84
    ]);
    assert(vstd::utf8::encode_utf8("SMEV_ERROR"@) =~= seq![
        83u8, 77, 69, 86, 95, 69, 82, 82, 79, 82
    ]);
}

} // verus!
