//! The mailbox rendezvous service: maps a short pairing code to an endpoint
//! identifier so that two peers on different networks can find each other, and
//! forgets it after a short while. Times are nanoseconds of a clock that never
//! goes back.
use crate::table::Table;
use crate::text;
use vstd::prelude::*;
use vstd::utf8::*;

verus! {

/// How long a registered code stays valid: ten minutes.
pub const TTL: u64 = 600_000_000_000;

/// How often expired entries are swept away: every minute.
pub const SWEEP_INTERVAL: u64 = 60_000_000_000;

/// Registrations allowed per client and window.
pub const REGISTER_RATE_MAX: u32 = 30;

/// Lookups allowed per client and window.
pub const LOOKUP_RATE_MAX: u32 = 120;

/// The length of a rate window: one minute.
pub const RATE_WINDOW: u64 = 60_000_000_000;

/// Most bytes in an endpoint identifier.
pub const MAX_ENDPOINT_ID_LEN: usize = 256;

/// How a request is answered.
#[derive(Debug, Clone, Copy, PartialEq, Eq, Structural)]
pub enum Status {
    Created,
    NoContent,
    BadRequest,
    Unauthorized,
    NotFound,
    Conflict,
    TooManyRequests,
}

impl Status {
    /// The HTTP status code.
    pub fn code(&self) -> (code: u16)
        ensures
            code == (match *self {
                Status::Created => 201u16,
                Status::NoContent => 204u16,
                Status::BadRequest => 400u16,
                Status::Unauthorized => 401u16,
                Status::NotFound => 404u16,
                Status::Conflict => 409u16,
                Status::TooManyRequests => 429u16,
            }),
    {
        match self {
            Status::Created => 201,
            Status::NoContent => 204,
            Status::BadRequest => 400,
            Status::Unauthorized => 401,
            Status::NotFound => 404,
            Status::Conflict => 409,
            Status::TooManyRequests => 429,
        }
    }
}

/// What a joiner learns about a host.
#[derive(Debug, Clone, PartialEq, Eq)]
pub struct Peer {
    pub endpoint_id: String,
    pub device_name: Option<String>,
}

/// One registration.
struct Entry {
    endpoint_id: String,
    device_name: Option<String>,
    token: String,
    expires_at: u64,
}

/// One registration, by contents.
pub ghost struct EntryView {
    pub endpoint_id: Seq<char>,
    pub device_name: Option<Seq<char>>,
    pub token: Seq<char>,
    pub expires_at: u64,
}

impl Entry {
    spec fn view(&self) -> EntryView {
        EntryView {
            endpoint_id: self.endpoint_id@,
            device_name: text::opt_text(self.device_name),
            token: self.token@,
            expires_at: self.expires_at,
        }
    }
}

/// What a mailbox holds.
pub ghost struct MailboxView {
    /// Registrations by code.
    pub entries: Map<Seq<char>, EntryView>,
    /// Requests in the current window, and when it began, by client.
    pub rates: Map<Seq<char>, (u32, u64)>,
}

/// Registrations and request counts.
pub struct Mailbox {
    entries: Table<Entry>,
    rates: Table<(u32, u64)>,
}

impl View for Mailbox {
    type V = MailboxView;

    closed spec fn view(&self) -> MailboxView {
        MailboxView {
            entries: self.entries@.map_values(|e: Entry| e.view()),
            rates: self.rates@,
        }
    }
}

/// `code` without the white space around it.
pub fn normalize_code(code: &str) -> (c: String)
    ensures
        c@ == text::trimmed(code@),
{
    text::trim(code)
}

/// Whether a code is six decimal digits.
pub open spec fn is_valid_code(code: Seq<char>) -> bool {
    code.len() == 6 && forall|i: int| 0 <= i < 6 ==> text::is_digit(#[trigger] code[i])
}

/// Whether a code is six decimal digits.
pub fn valid_code(code: &str) -> (yes: bool)
    ensures
        yes == is_valid_code(code@),
        yes == (code@.len() == 6 && forall|i: int| 0 <= i < 6 ==> '0' <= #[trigger] code@[i] <= '9'),
{
    let cs = text::chars_of(code);
    if cs.len() != 6 {
        return false;
    }
    for i in 0..6
        invariant
            cs@ == code@,
            cs@.len() == 6,
            forall|k: int| 0 <= k < i ==> text::is_digit(#[trigger] code@[k]),
    {
        if !('0' <= cs[i] && cs[i] <= '9') {
            assert(!text::is_digit(code@[i as int]));
            return false;
        }
    }
    assert forall|i: int| 0 <= i < 6 implies '0' <= #[trigger] code@[i] <= '9' by {
        assert(text::is_digit(code@[i]));
    }
    true
}

/// Whether an endpoint identifier is neither blank nor too long.
pub open spec fn is_valid_endpoint_id(id: Seq<char>) -> bool {
    0 < text::trimmed(id).len() && encode_utf8(text::trimmed(id)).len() <= MAX_ENDPOINT_ID_LEN
}

/// Whether an endpoint identifier is neither blank nor too long.
pub fn valid_endpoint_id(id: &str) -> (yes: bool)
    ensures
        yes == is_valid_endpoint_id(id@),
{
    let t = text::trim(id);
    let t = t.as_str();
    !t.is_empty() && t.as_bytes().len() <= MAX_ENDPOINT_ID_LEN
}

/// How long ago `start` was; nothing where it is still to come.
pub open spec fn elapsed(now: u64, start: u64) -> nat {
    if now >= start {
        (now - start) as nat
    } else {
        0
    }
}

/// The window that a request falls into: the current one, or a fresh one.
pub open spec fn window(rate: Option<(u32, u64)>, now: u64) -> (u32, u64) {
    match rate {
        Some((count, start)) if elapsed(now, start) <= RATE_WINDOW => (count, start),
        _ => (0, now),
    }
}

/// The rate that a key has.
pub open spec fn rate_of(rates: Map<Seq<char>, (u32, u64)>, key: Seq<char>) -> Option<(u32, u64)> {
    if rates.contains_key(key) {
        Some(rates[key])
    } else {
        None
    }
}

/// Whether a client's request is within the limit.
pub open spec fn within_rate(
    rates: Map<Seq<char>, (u32, u64)>,
    key: Seq<char>,
    max: u32,
    now: u64,
) -> bool {
    window(rate_of(rates, key), now).0 < max
}

/// The counts after a client's request.
pub open spec fn counted(
    rates: Map<Seq<char>, (u32, u64)>,
    key: Seq<char>,
    max: u32,
    now: u64,
) -> Map<Seq<char>, (u32, u64)> {
    let (count, start) = window(rate_of(rates, key), now);
    rates.insert(
        key,
        if count < max {
            ((count + 1) as u32, start)
        } else {
            (count, start)
        },
    )
}

/// A device name as it is kept: trimmed, and not blank.
pub open spec fn kept_name(name: Option<Seq<char>>) -> Option<Seq<char>> {
    match name {
        Some(n) if text::trimmed(n).len() > 0 => Some(text::trimmed(n)),
        _ => None,
    }
}

impl MailboxView {
    /// The answer to a registration, apart from the rate limit.
    pub open spec fn register_status(self, code: Seq<char>, endpoint_id: Seq<char>) -> Status {
        if !is_valid_code(text::trimmed(code)) || !is_valid_endpoint_id(endpoint_id) {
            Status::BadRequest
        } else if self.entries.contains_key(text::trimmed(code)) {
            Status::Conflict
        } else {
            Status::Created
        }
    }

    /// The mailbox after a registration under a token.
    pub open spec fn registered(
        self,
        client: Seq<char>,
        code: Seq<char>,
        endpoint_id: Seq<char>,
        device_name: Option<Seq<char>>,
        token: Seq<char>,
        now: u64,
    ) -> MailboxView {
        let key = "reg:"@ + client;
        let rates = counted(self.rates, key, REGISTER_RATE_MAX, now);
        if within_rate(self.rates, key, REGISTER_RATE_MAX, now) && self.register_status(
            code,
            endpoint_id,
        ) == Status::Created {
            MailboxView {
                entries: self.entries.insert(
                    text::trimmed(code),
                    EntryView {
                        endpoint_id: text::trimmed(endpoint_id),
                        device_name: kept_name(device_name),
                        token,
                        expires_at: (now + TTL) as u64,
                    },
                ),
                rates,
            }
        } else {
            MailboxView { rates, ..self }
        }
    }

    /// Whether a code has a registration that has not expired.
    pub open spec fn live(self, code: Seq<char>, now: u64) -> bool {
        self.entries.contains_key(code) && self.entries[code].expires_at > now
    }

    /// The registrations that have not expired.
    pub open spec fn swept(self, now: u64) -> MailboxView {
        MailboxView {
            entries: self.entries.restrict(
                self.entries.dom().filter(|c: Seq<char>| self.entries[c].expires_at > now),
            ),
            rates: self.rates.restrict(
                self.rates.dom().filter(
                    |k: Seq<char>| elapsed(now, self.rates[k].1) <= RATE_WINDOW,
                ),
            ),
        }
    }
}

/// Whether `c` is a lower-case hexadecimal digit or a hyphen.
pub open spec fn is_token_char(c: char) -> bool {
    '0' <= c <= '9' || 'a' <= c <= 'f' || c == '-'
}

/// `uuid::Uuid::new_v4` in its usual text form: 36 lower-case hexadecimal
/// digits and hyphens. Which ones is left to chance.
#[verifier::external_body]
fn new_token() -> (token: String)
    ensures
        token@.len() == 36,
        forall|i: int| 0 <= i < 36 ==> is_token_char(#[trigger] token@[i]),
{
    uuid::Uuid::new_v4().to_string()
}

/// Why a lookup gives no peer.
#[derive(Debug, Clone, Copy, PartialEq, Eq, Structural)]
pub enum LookupError {
    RateExceeded,
    InvalidCode,
    NotRegistered,
}

impl LookupError {
    /// How the request is answered.
    pub fn status(&self) -> (s: Status)
        ensures
            s == (match *self {
                LookupError::RateExceeded => Status::TooManyRequests,
                LookupError::InvalidCode => Status::BadRequest,
                LookupError::NotRegistered => Status::NotFound,
            }),
    {
        match self {
            LookupError::RateExceeded => Status::TooManyRequests,
            LookupError::InvalidCode => Status::BadRequest,
            LookupError::NotRegistered => Status::NotFound,
        }
    }

    /// What the client is told.
    pub fn message(&self) -> (m: String)
        ensures
            m@ == (match *self {
                LookupError::RateExceeded => "rate limit exceeded"@,
                LookupError::InvalidCode => "invalid code format"@,
                LookupError::NotRegistered => "no peer registered for this code (expired or never registered)"@,
            }),
    {
        match self {
            LookupError::RateExceeded => "rate limit exceeded".to_owned(),
            LookupError::InvalidCode => "invalid code format".to_owned(),
            LookupError::NotRegistered => "no peer registered for this code (expired or never registered)".to_owned(),
        }
    }
}

/// The token in an `Authorization` header, where it carries one.
pub open spec fn bearer(authorization: Option<Seq<char>>) -> Option<Seq<char>> {
    match authorization {
        Some(h) if "Bearer "@.is_prefix_of(h) => Some(
            text::trimmed(h.skip("Bearer "@.len() as int)),
        ),
        _ => None,
    }
}

impl Mailbox {
    /// The tables are sound.
    pub closed spec fn wf(&self) -> bool {
        self.entries.wf() && self.rates.wf()
    }

    /// An empty mailbox.
    pub fn new() -> (m: Mailbox)
        ensures
            m.wf(),
            m@.entries == Map::<Seq<char>, EntryView>::empty(),
            m@.rates == Map::<Seq<char>, (u32, u64)>::empty(),
    {
        let m = Mailbox { entries: Table::new(), rates: Table::new() };
        assert(m@.entries =~= Map::empty());
        m
    }

    /// Count a client's request and tell whether it is within the limit.
    pub fn allow_rate(&mut self, key: &str, max: u32, now: u64) -> (allowed: bool)
        requires
            old(self).wf(),
        ensures
            final(self).wf(),
            allowed == within_rate(old(self)@.rates, key@, max, now),
            final(self)@ == (MailboxView {
                rates: counted(old(self)@.rates, key@, max, now),
                ..old(self)@
            }),
    {
        let (count, start): (u32, u64) = match self.rates.get(key) {
            Some(rate) => {
                let since: u64 = if now >= rate.1 {
                    now - rate.1
                } else {
                    0
                };
                if since > RATE_WINDOW {
                    (0, now)
                } else {
                    (rate.0, rate.1)
                }
            },
            None => (0, now),
        };
        if count >= max {
            self.rates.insert(key.to_owned(), (count, start));
            return false;
        }
        self.rates.insert(key.to_owned(), (count + 1, start));
        true
    }

    /// Register a code under a given token. The first registration of a code
    /// wins until it is removed or swept away.
    pub fn register_with_token(
        &mut self,
        client: &str,
        code: &str,
        endpoint_id: &str,
        device_name: Option<&str>,
        token: &str,
        now: u64,
    ) -> (status: Status)
        requires
            old(self).wf(),
            now + TTL <= u64::MAX,
        ensures
            final(self).wf(),
            status == (if within_rate(
                old(self)@.rates,
                "reg:"@ + client@,
                REGISTER_RATE_MAX,
                now,
            ) {
                old(self)@.register_status(code@, endpoint_id@)
            } else {
                Status::TooManyRequests
            }),
            final(self)@ == old(self)@.registered(
                client@,
                code@,
                endpoint_id@,
                text::opt_str(device_name),
                token@,
                now,
            ),
    {
        let key = text::concat("reg:", client);
        if !self.allow_rate(key.as_str(), REGISTER_RATE_MAX, now) {
            return Status::TooManyRequests;
        }
        let code = normalize_code(code);
        let known = valid_code(code.as_str());
        if !known || !valid_endpoint_id(endpoint_id) {
            return Status::BadRequest;
        }
        if self.entries.get(code.as_str()).is_some() {
            return Status::Conflict;
        }
        let device_name = match device_name {
            Some(n) => {
                let n = text::trim(n);
                if n.as_str().is_empty() {
                    None
                } else {
                    Some(n)
                }
            },
            None => None,
        };
        let entry = Entry {
            endpoint_id: text::trim(endpoint_id),
            device_name,
            token: token.to_owned(),
            expires_at: now + TTL,
        };
        let ghost kept = entry.view();
        let ghost before = self@.entries;
        let ghost c = code@;
        self.entries.insert(code, entry);
        assert(self@.entries =~= before.insert(c, kept));
        Status::Created
    }

    /// Register a code and give the token that is needed to remove it again.
    pub fn register(
        &mut self,
        client: &str,
        code: &str,
        endpoint_id: &str,
        device_name: Option<&str>,
        now: u64,
    ) -> (r: Result<String, Status>)
        requires
            old(self).wf(),
            now + TTL <= u64::MAX,
        ensures
            final(self).wf(),
            ({
                let status = if within_rate(
                    old(self)@.rates,
                    "reg:"@ + client@,
                    REGISTER_RATE_MAX,
                    now,
                ) {
                    old(self)@.register_status(code@, endpoint_id@)
                } else {
                    Status::TooManyRequests
                };
                match r {
                    Ok(token) => status == Status::Created && token@.len() == 36 && (forall|i: int|
                        0 <= i < 36 ==> is_token_char(#[trigger] token@[i])) && final(self)@ == old(
                        self,
                    )@.registered(
                        client@,
                        code@,
                        endpoint_id@,
                        text::opt_str(device_name),
                        token@,
                        now,
                    ),
                    Err(e) => status != Status::Created && e == status && final(self)@
                        == (MailboxView {
                        rates: counted(
                            old(self)@.rates,
                            "reg:"@ + client@,
                            REGISTER_RATE_MAX,
                            now,
                        ),
                        ..old(self)@
                    }),
                }
            }),
    {
        let token = new_token();
        let status = self.register_with_token(
            client,
            code,
            endpoint_id,
            device_name,
            token.as_str(),
            now,
        );
        if status == Status::Created {
            Ok(token)
        } else {
            Err(status)
        }
    }

    /// Look a code up. Only a registration that has not expired is found.
    pub fn lookup(&mut self, client: &str, code: &str, now: u64) -> (r: Result<Peer, LookupError>)
        requires
            old(self).wf(),
        ensures
            final(self).wf(),
            final(self)@ == (MailboxView {
                rates: counted(old(self)@.rates, "lkp:"@ + client@, LOOKUP_RATE_MAX, now),
                ..old(self)@
            }),
            ({
                let c = text::trimmed(code@);
                let allowed = within_rate(
                    old(self)@.rates,
                    "lkp:"@ + client@,
                    LOOKUP_RATE_MAX,
                    now,
                );
                match r {
                    Ok(peer) => allowed && is_valid_code(c) && old(self)@.live(c, now)
                        && peer.endpoint_id@ == old(self)@.entries[c].endpoint_id && text::opt_text(
                        peer.device_name,
                    ) == old(self)@.entries[c].device_name,
                    Err(LookupError::RateExceeded) => !allowed,
                    Err(LookupError::InvalidCode) => allowed && !is_valid_code(c),
                    Err(LookupError::NotRegistered) => allowed && is_valid_code(c) && !old(
                        self,
                    )@.live(c, now),
                }
            }),
            r == Err::<Peer, LookupError>(LookupError::RateExceeded) <==> !within_rate(
                old(self)@.rates,
                "lkp:"@ + client@,
                120,
                now,
            ),
    {
        let key = text::concat("lkp:", client);
        if !self.allow_rate(key.as_str(), LOOKUP_RATE_MAX, now) {
            return Err(LookupError::RateExceeded);
        }
        let code = normalize_code(code);
        if !valid_code(code.as_str()) {
            return Err(LookupError::InvalidCode);
        }
        match self.entries.get(code.as_str()) {
            Some(entry) => if entry.expires_at > now {
                Ok(
                    Peer {
                        endpoint_id: entry.endpoint_id.clone(),
                        device_name: match &entry.device_name {
                            Some(n) => Some(n.clone()),
                            None => None,
                        },
                    },
                )
            } else {
                Err(LookupError::NotRegistered)
            },
            None => Err(LookupError::NotRegistered),
        }
    }

    /// Remove a code's registration. Only the token that registration gave
    /// allows it.
    pub fn unregister(&mut self, code: &str, authorization: Option<&str>) -> (status: Status)
        requires
            old(self).wf(),
        ensures
            final(self).wf(),
            ({
                let c = text::trimmed(code@);
                let allowed = is_valid_code(c) && old(self)@.entries.contains_key(c) && bearer(
                    text::opt_str(authorization),
                ) == Some(old(self)@.entries[c].token);
                &&& status == (if !is_valid_code(c) {
                    Status::BadRequest
                } else if allowed {
                    Status::NoContent
                } else {
                    Status::Unauthorized
                })
                &&& final(self)@ == (if allowed {
                    MailboxView { entries: old(self)@.entries.remove(c), ..old(self)@ }
                } else {
                    old(self)@
                })
            }),
    {
        let code = normalize_code(code);
        if !valid_code(code.as_str()) {
            return Status::BadRequest;
        }
        let token = match authorization {
            Some(h) => match text::strip_prefix(h, "Bearer ") {
                Some(t) => text::trim(t.as_str()),
                None => return Status::Unauthorized,
            },
            None => return Status::Unauthorized,
        };
        let ghost before = self@.entries;
        let matching = match self.entries.get(code.as_str()) {
            Some(entry) => text::same_text(entry.token.as_str(), token.as_str()),
            None => false,
        };
        if matching {
            self.entries.remove(code.as_str());
            assert(self@.entries =~= before.remove(code@));
            Status::NoContent
        } else {
            Status::Unauthorized
        }
    }

    /// Forget expired registrations and windows that are over.
    pub fn sweep(&mut self, now: u64)
        requires
            old(self).wf(),
        ensures
            final(self).wf(),
            final(self)@ == old(self)@.swept(now),
    {
        let ghost before = self@;
        let live = |e: &Entry| -> (b: bool)
            ensures
                b == (e.expires_at > now),
            { e.expires_at > now };
        self.entries.retain(live, Ghost(|e: Entry| e.expires_at > now));
        let current = |r: &(u32, u64)| -> (b: bool)
            ensures
                b == (elapsed(now, r.1) <= RATE_WINDOW),
            {
                if now >= r.1 {
                    now - r.1 <= RATE_WINDOW
                } else {
                    true
                }
            };
        self.rates.retain(current, Ghost(|r: (u32, u64)| elapsed(now, r.1) <= RATE_WINDOW));
        assert(self@.entries =~= before.swept(now).entries);
        assert(self@.rates =~= before.swept(now).rates);
    }
}

/// The first registration of a code wins: while the code is registered, another
/// registration changes no entry.
pub proof fn law_first_registration_wins(
    m: MailboxView,
    client: Seq<char>,
    code: Seq<char>,
    endpoint_id: Seq<char>,
    device_name: Option<Seq<char>>,
    token: Seq<char>,
    now: u64,
)
    requires
        m.entries.contains_key(text::trimmed(code)),
    ensures
        m.registered(client, code, endpoint_id, device_name, token, now).entries == m.entries,
        m.register_status(code, endpoint_id) != Status::Created,
{
}

/// A registered code is found until it expires, with what it was registered
/// with, and no longer.
pub proof fn law_registered_code_is_found_until_it_expires(
    m: MailboxView,
    client: Seq<char>,
    code: Seq<char>,
    endpoint_id: Seq<char>,
    device_name: Option<Seq<char>>,
    token: Seq<char>,
    now: u64,
    later: u64,
)
    requires
        now + TTL <= u64::MAX,
        within_rate(m.rates, "reg:"@ + client, REGISTER_RATE_MAX, now),
        m.register_status(code, endpoint_id) == Status::Created,
    ensures
        ({
            let after = m.registered(client, code, endpoint_id, device_name, token, now);
            let c = text::trimmed(code);
            &&& after.live(c, later) <==> later < now + TTL
            &&& after.entries[c].endpoint_id == text::trimmed(endpoint_id)
            &&& after.entries[c].device_name == kept_name(device_name)
            &&& after.entries[c].token == token
        }),
{
}

/// Sweeping changes no lookup: a registration is found after it exactly where
/// it was found before, and an expired one frees its code.
pub proof fn law_sweep_keeps_what_is_live(m: MailboxView, code: Seq<char>, now: u64, later: u64)
    requires
        now <= later,
    ensures
        m.swept(now).live(code, later) == m.live(code, later),
        m.live(code, later) ==> m.swept(now).entries[code] == m.entries[code],
        !m.live(code, now) ==> !m.swept(now).entries.contains_key(code),
{
}

/// A text that neither begins nor ends with white space is trimmed to itself.
proof fn lemma_trimmed_alone(s: Seq<char>)
    requires
        s.len() > 0,
        !text::is_whitespace(s[0]),
        !text::is_whitespace(s.last()),
    ensures
        text::trimmed(s) == s,
{
}

/// The token that a registration gave, in an `Authorization` header, removes
/// the registration; no other header does.
pub proof fn law_only_the_token_removes(m: MailboxView, code: Seq<char>, token: Seq<char>)
    requires
        token.len() > 0,
        forall|i: int| 0 <= i < token.len() ==> is_token_char(#[trigger] token[i]),
        m.entries.contains_key(code),
        m.entries[code].token == token,
    ensures
        bearer(Some("Bearer "@ + token)) == Some(m.entries[code].token),
        forall|h: Option<Seq<char>>|
            #[trigger] bearer(h) == Some(m.entries[code].token) ==> h is Some && "Bearer "@.is_prefix_of(
                h->0,
            ) && text::trimmed(h->0.skip("Bearer "@.len() as int)) == token,
{
    reveal_strlit("Bearer ");
    let h = "Bearer "@ + token;
    assert("Bearer "@ =~= h.subrange(0, "Bearer "@.len() as int));
    assert(h.skip("Bearer "@.len() as int) =~= token);
    assert(is_token_char(token[0]) && is_token_char(token[token.len() - 1]));
    lemma_trimmed_alone(token);
}

/// The counts after requests of one client, one at each of the given times.
pub open spec fn after_requests(
    rates: Map<Seq<char>, (u32, u64)>,
    key: Seq<char>,
    max: u32,
    times: Seq<u64>,
) -> Map<Seq<char>, (u32, u64)>
    decreases times.len(),
{
    if times.len() == 0 {
        rates
    } else {
        counted(after_requests(rates, key, max, times.drop_last()), key, max, times.last())
    }
}

/// Within one window a client is allowed exactly `max` requests: the window
/// begins with the first of them, and every further one until it is over is
/// refused.
pub proof fn law_rate_limit(
    rates: Map<Seq<char>, (u32, u64)>,
    key: Seq<char>,
    max: u32,
    times: Seq<u64>,
    now: u64,
)
    requires
        !rates.contains_key(key),
        forall|i: int| 0 <= i < times.len() ==> times[0] <= #[trigger] times[i] <= now,
        times.len() > 0 ==> now - times[0] <= RATE_WINDOW,
    ensures
        within_rate(after_requests(rates, key, max, times), key, max, now) <==> times.len() < max,
{
    lemma_requests_counted(rates, key, max, times);
}

proof fn lemma_requests_counted(
    rates: Map<Seq<char>, (u32, u64)>,
    key: Seq<char>,
    max: u32,
    times: Seq<u64>,
)
    requires
        !rates.contains_key(key),
        forall|i: int|
            0 <= i < times.len() ==> times[0] <= #[trigger] times[i] <= times[0] + RATE_WINDOW,
    ensures
        times.len() > 0 ==> rate_of(after_requests(rates, key, max, times), key) == Some(
            (
                if times.len() < max {
                    times.len() as u32
                } else {
                    max
                },
                times[0],
            ),
        ),
    decreases times.len(),
{
    if times.len() > 0 {
        let front = times.drop_last();
        assert forall|i: int| 0 <= i < front.len() implies front[0] <= #[trigger] front[i]
            <= front[0] + RATE_WINDOW by {
            assert(front[i] == times[i]);
        }
        lemma_requests_counted(rates, key, max, front);
        assert(times.last() == times[times.len() - 1]);
    }
}

/// The codes that the mailbox takes are exactly those that a host can generate:
/// the numbers below a million in six digits.
pub proof fn law_valid_codes_are_the_pairing_codes(n: nat, code: Seq<char>)
    ensures
        n < 1_000_000 ==> is_valid_code(text::padded(n, 6)),
        is_valid_code(code) <==> text::number(code) < 1_000_000 && text::padded(
            text::number(code),
            6,
        ) == code,
{
    reveal_with_fuel(text::tens, 7);
    if n < 1_000_000 {
        text::law_padded_stands_for_its_number(n, 6);
        let p = text::padded(n, 6);
        assert forall|i: int| 0 <= i < 6 implies text::is_digit(#[trigger] p[i]) by {
            assert('0' <= p[i] <= '9');
        }
    }
    if is_valid_code(code) {
        assert forall|i: int| 0 <= i < code.len() implies '0' <= #[trigger] code[i] <= '9' by {
            assert(text::is_digit(code[i]));
        }
        text::law_digits_are_a_padded_number(code);
    }
    if text::number(code) < 1_000_000 && text::padded(text::number(code), 6) == code {
        text::law_padded_stands_for_its_number(text::number(code), 6);
        assert forall|i: int| 0 <= i < 6 implies text::is_digit(#[trigger] code[i]) by {
            assert('0' <= code[i] <= '9');
        }
    }
}

/// An endpoint identifier is taken exactly where something is left of it without
/// the white space around it, and that has at most 256 bytes.
pub proof fn law_endpoint_ids(id: Seq<char>)
    ensures
        is_valid_endpoint_id(id) <==> text::trimmed(id).len() >= 1 && encode_utf8(
            text::trimmed(id),
        ).len() <= 256,
{
}

/// A registration is taken exactly where the code is six digits, the identifier
/// is good, the code is free and the client has had fewer than thirty in its
/// minute; it then changes the entry of this code alone, for ten minutes.
pub proof fn law_registration(
    m: MailboxView,
    client: Seq<char>,
    code: Seq<char>,
    endpoint_id: Seq<char>,
    device_name: Option<Seq<char>>,
    token: Seq<char>,
    now: u64,
)
    requires
        now + 600_000_000_000 <= u64::MAX,
    ensures
        ({
            let c = text::trimmed(code);
            let after = m.registered(client, code, endpoint_id, device_name, token, now);
            let taken = is_valid_code(c) && is_valid_endpoint_id(endpoint_id)
                && !m.entries.contains_key(c) && within_rate(m.rates, "reg:"@ + client, 30, now);
            &&& m.register_status(code, endpoint_id) == (if !is_valid_code(c)
                || !is_valid_endpoint_id(endpoint_id) {
                Status::BadRequest
            } else if m.entries.contains_key(c) {
                Status::Conflict
            } else {
                Status::Created
            })
            &&& taken ==> after.entries.contains_key(c) && after.entries[c].endpoint_id
                == text::trimmed(endpoint_id) && after.entries[c].token == token
                && after.entries[c].expires_at == now + 600_000_000_000
            &&& taken ==> after.entries[c].device_name == (match device_name {
                Some(n) => if text::trimmed(n).len() == 0 {
                    None
                } else {
                    Some(text::trimmed(n))
                },
                None => None,
            })
            &&& !taken ==> after.entries == m.entries
            &&& forall|d: Seq<char>|
                d != c ==> (#[trigger] after.entries.contains_key(d) <==> m.entries.contains_key(d))
                    && (m.entries.contains_key(d) ==> after.entries[d] == m.entries[d])
        }),
{
}

/// A registration is live exactly while its ten minutes last.
pub proof fn law_registration_lives_ten_minutes(
    m: MailboxView,
    client: Seq<char>,
    code: Seq<char>,
    endpoint_id: Seq<char>,
    device_name: Option<Seq<char>>,
    token: Seq<char>,
    now: u64,
    later: u64,
)
    requires
        now + 600_000_000_000 <= u64::MAX,
        m.register_status(code, endpoint_id) == Status::Created,
        within_rate(m.rates, "reg:"@ + client, 30, now),
    ensures
        m.registered(client, code, endpoint_id, device_name, token, now).live(
            text::trimmed(code),
            later,
        ) <==> later < now + 600_000_000_000,
{
}

/// One client's requests cost no other client anything, and registrations and
/// lookups are counted apart.
pub proof fn law_requests_are_counted_apart(
    rates: Map<Seq<char>, (u32, u64)>,
    key: Seq<char>,
    other: Seq<char>,
    max: u32,
    now: u64,
    a: Seq<char>,
    b: Seq<char>,
)
    requires
        key != other,
    ensures
        rate_of(counted(rates, key, max, now), other) == rate_of(rates, other),
        "reg:"@ + a != "lkp:"@ + b,
        a != b ==> "reg:"@ + a != "reg:"@ + b && "lkp:"@ + a != "lkp:"@ + b,
{
    reveal_strlit("reg:");
    reveal_strlit("lkp:");
    assert(("reg:"@ + a)[0] == 'r' && ("lkp:"@ + b)[0] == 'l');
    assert(("reg:"@ + a).skip(4) =~= a && ("reg:"@ + b).skip(4) =~= b);
    assert(("lkp:"@ + a).skip(4) =~= a && ("lkp:"@ + b).skip(4) =~= b);
}

/// A request opens a window of one minute or falls into the one that is open: it
/// is allowed where the window has had fewer than `max`, and counts then. A
/// client that has been silent for more than a minute starts afresh.
pub proof fn law_one_request(
    rates: Map<Seq<char>, (u32, u64)>,
    key: Seq<char>,
    max: u32,
    now: u64,
)
    requires
        max > 0,
    ensures
        ({
            let open = rates.contains_key(key) && now <= rates[key].1 + 60_000_000_000;
            let after = counted(rates, key, max, now);
            &&& within_rate(rates, key, max, now) <==> !open || rates[key].0 < max
            &&& after.contains_key(key)
            &&& !open ==> after[key] == (1u32, now)
            &&& open ==> after[key].1 == rates[key].1 && after[key].0 == (if rates[key].0 < max {
                rates[key].0 + 1
            } else {
                rates[key].0 as int
            })
        }),
{
}

/// Sweeping keeps what has not expired as it is, forgets the rest, and adds
/// nothing; a window is forgotten once its minute is over.
pub proof fn law_sweeping(m: MailboxView, now: u64)
    ensures
        forall|c: Seq<char>| #[trigger]
            m.swept(now).entries.contains_key(c) <==> m.entries.contains_key(c)
                && m.entries[c].expires_at > now,
        forall|c: Seq<char>|
            m.swept(now).entries.contains_key(c) ==> #[trigger] m.swept(now).entries[c]
                == m.entries[c],
        forall|k: Seq<char>| #[trigger]
            m.swept(now).rates.contains_key(k) <==> m.rates.contains_key(k) && now
                <= m.rates[k].1 + 60_000_000_000,
        forall|k: Seq<char>|
            m.swept(now).rates.contains_key(k) ==> #[trigger] m.swept(now).rates[k] == m.rates[k],
{
}

/// A code is found exactly while it is registered and its registration has not
/// expired.
pub proof fn law_found_while_registered(m: MailboxView, code: Seq<char>, now: u64)
    ensures
        m.live(code, now) <==> m.entries.contains_key(code) && now < m.entries[code].expires_at,
{
}

/// How long things last, and how many requests a client has in a minute.
pub proof fn law_limits()
    ensures
        TTL == 10 * 60 * 1_000_000_000,
        RATE_WINDOW == 60 * 1_000_000_000,
        SWEEP_INTERVAL == 60 * 1_000_000_000,
        REGISTER_RATE_MAX == 30,
        LOOKUP_RATE_MAX == 120,
        MAX_ENDPOINT_ID_LEN == 256,
{
}

} // verus!
