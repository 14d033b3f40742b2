//! Sessions across networks: the client's side of the mailbox rendezvous
//! service. The requests and their answers travel over HTTP; what they say and
//! what follows from them is decided here.
use crate::mailbox::Peer;
use crate::text;
use vstd::prelude::*;

verus! {

/// The protocol that both ends of a connection name.
pub const ALPN: &'static str = "frostwall-beam/1";

/// Seconds to wait for the local endpoint to come up.
pub const BIND_TIMEOUT_SECS: u64 = 20;

/// Seconds the host waits for a joiner to dial in.
pub const ACCEPT_TIMEOUT_SECS: u64 = 300;

/// Seconds the joiner waits for the connection to the peer.
pub const CONNECT_TIMEOUT_SECS: u64 = 30;

/// Milliseconds the joiner polls the mailbox for the host's address.
pub const LOOKUP_TIMEOUT_MILLIS: u64 = 20_000;

/// Milliseconds between two polls of the mailbox.
pub const LOOKUP_POLL_MILLIS: u64 = 700;

/// Seconds to wait for both streams of a connection.
pub const STREAM_PAIR_TIMEOUT_SECS: u64 = 30;

/// Where the mailbox service is.
pub struct Mailbox {
    base_url: String,
}

/// Why the mailbox service could not be used.
#[derive(Debug, Clone, PartialEq, Eq)]
pub enum MailboxError {
    /// The service cannot be reached, as the text tells.
    Unreachable(String),
    /// The answer cannot be read, as the text tells.
    Malformed(String),
    /// The pairing code is taken.
    AlreadyRegistered,
    /// The service refused with this status, as it is shown.
    Rejected(String),
    /// No host registered the code in time.
    NoPeer,
}

/// Whether an HTTP status means success.
pub open spec fn is_success(status: u16) -> bool {
    200 <= status < 300
}

/// The answer to a registration.
#[derive(Debug, PartialEq, Eq)]
pub enum RegisterReply {
    /// No answer came, as the text tells.
    Failed(String),
    /// The status, the status as it is shown, and the token in the answer, or why
    /// it cannot be read.
    Answered(u16, String, Result<String, String>),
}

/// What a registration's answer means: the token, or why there is none.
pub fn register_outcome(reply: RegisterReply) -> (r: Result<String, MailboxError>)
    ensures
        r == (match reply {
            RegisterReply::Failed(t) => Err::<String, MailboxError>(MailboxError::Unreachable(t)),
            RegisterReply::Answered(status, shown, token) => if is_success(status) {
                match token {
                    Ok(t) => Ok::<String, MailboxError>(t),
                    Err(why) => Err::<String, MailboxError>(MailboxError::Malformed(why)),
                }
            } else if status == 409 {
                Err::<String, MailboxError>(MailboxError::AlreadyRegistered)
            } else {
                Err::<String, MailboxError>(MailboxError::Rejected(shown))
            },
        }),
{
    match reply {
        RegisterReply::Failed(t) => Err(MailboxError::Unreachable(t)),
        RegisterReply::Answered(status, shown, token) => if 200 <= status && status < 300 {
            match token {
                Ok(t) => Ok(t),
                Err(why) => Err(MailboxError::Malformed(why)),
            }
        } else if status == 409 {
            Err(MailboxError::AlreadyRegistered)
        } else {
            Err(MailboxError::Rejected(shown))
        },
    }
}

/// The answer to one lookup.
#[derive(Debug, PartialEq, Eq)]
pub enum LookupReply {
    /// No answer came.
    Failed,
    /// The status, and the peer in the answer, or why it cannot be read.
    Answered(u16, Result<Peer, String>),
}

/// What follows a lookup.
#[derive(Debug, Clone, PartialEq, Eq)]
pub enum LookupStep {
    /// The host is found.
    Found(Peer),
    /// Ask again after `LOOKUP_POLL_MILLIS`.
    AskAgain,
    /// Give up.
    Stop(MailboxError),
}

/// What follows a lookup that was begun at `started` and answered at `now`, in
/// milliseconds. A host that has not registered yet is waited for until the
/// time is up; an answer that cannot be read is not.
pub fn lookup_step(reply: LookupReply, started: u64, now: u64) -> (step: LookupStep)
    requires
        started + LOOKUP_TIMEOUT_MILLIS <= u64::MAX,
    ensures
        step == (match reply {
            LookupReply::Answered(status, peer) if is_success(status) => match peer {
                Ok(p) => LookupStep::Found(p),
                Err(why) => LookupStep::Stop(MailboxError::Malformed(why)),
            },
            _ => if now >= started + LOOKUP_TIMEOUT_MILLIS {
                LookupStep::Stop(MailboxError::NoPeer)
            } else {
                LookupStep::AskAgain
            },
        }),
        step is AskAgain ==> now < started + 20_000,
        step matches LookupStep::Stop(MailboxError::NoPeer) ==> now >= started + 20_000,
        step is Found ==> (reply matches LookupReply::Answered(status, _) && 200 <= status <= 299),
{
    if let LookupReply::Answered(status, peer) = reply {
        if 200 <= status && status < 300 {
            return match peer {
                Ok(p) => LookupStep::Found(p),
                Err(why) => LookupStep::Stop(MailboxError::Malformed(why)),
            };
        }
    }
    if now >= started + LOOKUP_TIMEOUT_MILLIS {
        LookupStep::Stop(MailboxError::NoPeer)
    } else {
        LookupStep::AskAgain
    }
}

/// The key that an endpoint identifier names, where it names one.
pub uninterp spec fn endpoint_key(id: Seq<char>) -> Option<Seq<u8>>;

/// A key that may be missing, by its bytes.
pub open spec fn key_view(key: Option<[u8; 32]>) -> Option<Seq<u8>> {
    match key {
        Some(k) => Some(k@),
        None => None,
    }
}

/// `iroh::PublicKey::from_str` and `PublicKey::as_bytes`: the key is a function of
/// the text. Texts that are no key in hexadecimal or base 32 name none.
#[verifier::external_body]
fn parse_endpoint_id(id: &str) -> (key: Option<[u8; 32]>)
    ensures
        key_view(key) == endpoint_key(id@),
{
    match id.parse::<iroh::PublicKey>() {
        Ok(key) => Some(*key.as_bytes()),
        Err(_) => None,
    }
}

/// The key of the host that published an endpoint identifier; white space around
/// it does not count.
pub fn peer_key(endpoint_id: &str) -> (key: Option<[u8; 32]>)
    ensures
        key_view(key) == endpoint_key(text::trimmed(endpoint_id@)),
{
    parse_endpoint_id(text::trim(endpoint_id).as_str())
}

impl Mailbox {
    /// The service's base URL.
    pub closed spec fn spec_base_url(&self) -> Seq<char> {
        self.base_url@
    }

    /// The service at a URL, whose trailing slashes do not count.
    pub fn new(base_url: &str) -> (m: Mailbox)
        ensures
            m.spec_base_url() == text::trim_end(base_url@, text::Class::Only('/')),
    {
        Mailbox { base_url: text::trim_end_matches(base_url, '/') }
    }

    /// The service's base URL.
    pub fn base_url(&self) -> (url: &str)
        ensures
            url@ == self.spec_base_url(),
    {
        self.base_url.as_str()
    }

    /// Where registrations are posted to.
    pub fn register_url(&self) -> (url: String)
        ensures
            url@ == self.spec_base_url() + "/register"@,
    {
        text::concat(self.base_url.as_str(), "/register")
    }

    /// Where a code is looked up.
    pub fn lookup_url(&self, code: &str) -> (url: String)
        ensures
            url@ == self.spec_base_url() + "/lookup/"@ + code@,
    {
        text::concat(text::concat(self.base_url.as_str(), "/lookup/").as_str(), code)
    }

    /// Where a code's registration is deleted.
    pub fn unregister_url(&self, code: &str) -> (url: String)
        ensures
            url@ == self.spec_base_url() + "/register/"@ + code@,
    {
        text::concat(text::concat(self.base_url.as_str(), "/register/").as_str(), code)
    }
}

/// The `Authorization` header that carries a token.
pub fn authorization(token: &str) -> (header: String)
    ensures
        header@ == "Bearer "@ + token@,
{
    text::concat("Bearer ", token)
}

/// The header that carries a registration's token is the one that removes the
/// registration from the mailbox.
pub proof fn law_authorization_carries_the_token(token: Seq<char>)
    requires
        token.len() > 0,
        forall|i: int|
            0 <= i < token.len() ==> crate::mailbox::is_token_char(#[trigger] token[i]),
    ensures
        crate::mailbox::bearer(Some("Bearer "@ + token)) == Some(token),
{
    let entry = crate::mailbox::EntryView {
        endpoint_id: Seq::empty(),
        device_name: None,
        token,
        expires_at: 0,
    };
    let m = crate::mailbox::MailboxView {
        entries: Map::empty().insert(token, entry),
        rates: Map::empty(),
    };
    crate::mailbox::law_only_the_token_removes(m, token, token);
}

/// A status means success exactly from 200 to 299.
pub proof fn law_success(status: u16)
    ensures
        is_success(status) <==> 200 <= status <= 299,
{
}

/// A key that may be missing is seen as it is.
pub proof fn law_keys_are_seen_whole(key: Option<[u8; 32]>)
    ensures
        key_view(key) is Some <==> key is Some,
        key matches Some(k) ==> key_view(key) == Some(k@),
{
}

/// How long each step towards a session across networks may take.
pub proof fn law_patience()
    ensures
        BIND_TIMEOUT_SECS == 20,
        ACCEPT_TIMEOUT_SECS == 300,
        CONNECT_TIMEOUT_SECS == 30,
        STREAM_PAIR_TIMEOUT_SECS == 30,
        LOOKUP_TIMEOUT_MILLIS == 20_000,
        LOOKUP_POLL_MILLIS == 700,
{
}

} // verus!
