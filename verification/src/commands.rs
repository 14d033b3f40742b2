//! What the user can do, and the state that it leaves behind: sessions,
//! transfers and settings.
use crate::config;
use crate::config::UserConfig;
use crate::crypto::MAC_LEN;
use crate::discovery::DiscoveredPeer;
use crate::liveness;
use crate::path;
use crate::text;
use vstd::prelude::*;
use vstd::utf8::*;

verus! {

/// Most bytes of a device name in an advertised name.
pub const MAX_SLUG_LEN: usize = 48;

/// Why a command was refused.
#[derive(Debug, Clone, Copy, PartialEq, Eq, Structural)]
pub enum CommandError {
    TransferInProgress,
    NotConnected,
    NoTransfer,
    NoPendingTransfer,
    EmptyDeviceName,
    MailboxUrlScheme,
    MailboxNotConfigured,
    DownloadDirSymlink,
    DownloadDirNotADirectory,
    DownloadDirSystem,
    NoPeerFound,
}

/// What the user is told.
pub open spec fn message_of(e: CommandError) -> Seq<char> {
    match e {
        CommandError::TransferInProgress => "a transfer is already in progress"@,
        CommandError::NotConnected => "not connected"@,
        CommandError::NoTransfer => "no transfer in progress"@,
        CommandError::NoPendingTransfer => "no pending transfer"@,
        CommandError::EmptyDeviceName => "device name must not be empty"@,
        CommandError::MailboxUrlScheme => "mailbox URL must start with http:// or https://"@,
        CommandError::MailboxNotConfigured => "mailbox server is not configured"@,
        CommandError::DownloadDirSymlink => "download directory must not be a symlink"@,
        CommandError::DownloadDirNotADirectory => "path is not a directory"@,
        CommandError::DownloadDirSystem => "refusing a system directory as the download location"@,
        CommandError::NoPeerFound => "no peer found on the LAN"@,
    }
}

impl CommandError {
    /// What the user is told.
    pub fn message(&self) -> (m: String)
        ensures
            m@ == message_of(*self),
    {
        let m = match self {
            CommandError::TransferInProgress => "a transfer is already in progress",
            CommandError::NotConnected => "not connected",
            CommandError::NoTransfer => "no transfer in progress",
            CommandError::NoPendingTransfer => "no pending transfer",
            CommandError::EmptyDeviceName => "device name must not be empty",
            CommandError::MailboxUrlScheme => "mailbox URL must start with http:// or https://",
            CommandError::MailboxNotConfigured => "mailbox server is not configured",
            CommandError::DownloadDirSymlink => "download directory must not be a symlink",
            CommandError::DownloadDirNotADirectory => "path is not a directory",
            CommandError::DownloadDirSystem => "refusing a system directory as the download location",
            CommandError::NoPeerFound => "no peer found on the LAN",
        };
        m.to_owned()
    }
}

/// A host's registration at the mailbox service.
#[derive(Debug, Clone, PartialEq, Eq)]
pub struct Registration {
    pub mailbox_url: String,
    pub code: String,
    pub token: String,
}

/// Snapshot of the settings.
#[derive(Debug, Clone, PartialEq, Eq)]
pub struct ConfigPayload {
    pub download_dir: Option<String>,
    pub device_name: Option<String>,
    pub mailbox_url: Option<String>,
}

/// The names that a fresh session is shown with.
#[derive(Debug, Clone, PartialEq, Eq)]
pub struct Paired {
    pub peer_name: Option<String>,
    pub local_name: Option<String>,
}

/// What is to be torn down.
#[derive(Debug, Clone, PartialEq, Eq)]
pub enum Teardown {
    /// Abort the pairing task.
    AbortPairing,
    /// Raise the cancel flag of the running transfer.
    RaiseCancel,
    /// Decline the incoming transfer that waits for the user.
    DeclinePending,
    /// Close the session's command queue.
    CloseCommands,
    /// Remove the registration from the mailbox service.
    Unregister(Registration),
}

/// The state behind the commands.
pub struct AppState {
    /// A session is established and takes commands.
    pub connected: bool,
    /// The key of the rotating code, while connected.
    pub liveness_key: Option<[u8; MAC_LEN]>,
    pub download_dir: Option<String>,
    pub device_name: Option<String>,
    /// Base URL of the mailbox service, once the user has configured one.
    pub mailbox_url: Option<String>,
    /// A transfer is in flight.
    pub in_flight: bool,
    /// A host or join task is under way.
    pub pairing: bool,
    /// An incoming transfer waits for the user's decision.
    pub decision_pending: bool,
    /// The cancel flag of the running transfer, while there is one.
    pub cancel: Option<bool>,
    /// The name of the peer that is being joined.
    pub peer_display_name: Option<String>,
    /// The registration of a host that waits on the internet.
    pub registration: Option<Registration>,
}

/// What tearing a state down amounts to, in order.
pub open spec fn teardown(s: AppState) -> Seq<Teardown> {
    (if s.pairing {
        seq![Teardown::AbortPairing]
    } else {
        Seq::empty()
    }) + (if s.cancel is Some {
        seq![Teardown::RaiseCancel]
    } else {
        Seq::empty()
    }) + (if s.decision_pending {
        seq![Teardown::DeclinePending]
    } else {
        Seq::empty()
    }) + (if s.connected {
        seq![Teardown::CloseCommands]
    } else {
        Seq::empty()
    }) + (match s.registration {
        Some(r) => seq![Teardown::Unregister(r)],
        None => Seq::empty(),
    })
}

/// A state without a session, with the same settings.
pub open spec fn cleared(s: AppState) -> AppState {
    AppState {
        connected: false,
        liveness_key: None,
        in_flight: false,
        pairing: false,
        decision_pending: false,
        cancel: None,
        registration: None,
        ..s
    }
}

/// After a teardown nothing is left to tear down, and the settings are as they
/// were.
pub proof fn law_teardown_is_complete(s: AppState)
    ensures
        teardown(cleared(s)) == Seq::<Teardown>::empty(),
        cleared(cleared(s)) == cleared(s),
        cleared(s).download_dir == s.download_dir,
        cleared(s).device_name == s.device_name,
        cleared(s).mailbox_url == s.mailbox_url,
{
    assert(teardown(cleared(s)) =~= Seq::<Teardown>::empty());
}

fn copy_text(t: &Option<String>) -> (c: Option<String>)
    ensures
        text::opt_text(c) == text::opt_text(*t),
{
    match t {
        Some(t) => Some(t.clone()),
        None => None,
    }
}

impl AppState {
    /// The state at the start: no session, and the stored settings.
    pub fn new(cfg: UserConfig) -> (s: AppState)
        ensures
            s == cleared(s),
            s.download_dir == cfg.download_dir,
            s.device_name == cfg.device_name,
            s.mailbox_url == cfg.mailbox_url,
            s.peer_display_name is None,
    {
        AppState {
            connected: false,
            liveness_key: None,
            download_dir: cfg.download_dir,
            device_name: cfg.device_name,
            mailbox_url: cfg.mailbox_url,
            in_flight: false,
            pairing: false,
            decision_pending: false,
            cancel: None,
            peer_display_name: None,
            registration: None,
        }
    }

    /// End what is under way, session, pairing or transfer, and keep the
    /// settings.
    pub fn clear(&mut self) -> (steps: Vec<Teardown>)
        ensures
            *final(self) == cleared(*old(self)),
            steps@ == teardown(*old(self)),
    {
        let mut steps: Vec<Teardown> = Vec::new();
        if self.pairing {
            steps.push(Teardown::AbortPairing);
        }
        if self.cancel.is_some() {
            steps.push(Teardown::RaiseCancel);
        }
        if self.decision_pending {
            steps.push(Teardown::DeclinePending);
        }
        if self.connected {
            steps.push(Teardown::CloseCommands);
        }
        if let Some(r) = self.registration.take() {
            steps.push(Teardown::Unregister(r));
        }
        assert(steps@ =~= teardown(*old(self)));
        self.connected = false;
        self.liveness_key = None;
        self.in_flight = false;
        self.pairing = false;
        self.decision_pending = false;
        self.cancel = None;
        steps
    }

    /// Disconnect and tear down the current session, or cancel a pairing that
    /// has not connected yet.
    pub fn disconnect(&mut self) -> (steps: Vec<Teardown>)
        ensures
            *final(self) == cleared(*old(self)),
            steps@ == teardown(*old(self)),
    {
        self.clear()
    }

    /// A freshly paired session takes over: its liveness key is kept, commands
    /// are taken, and the pairing is over.
    pub fn establish_session(&mut self, liveness_key: [u8; MAC_LEN]) -> (shown: Paired)
        ensures
            text::opt_text(shown.peer_name) == text::opt_text(old(self).peer_display_name),
            text::opt_text(shown.local_name) == text::opt_text(old(self).device_name),
            *final(self) == (AppState {
                connected: true,
                liveness_key: Some(liveness_key),
                pairing: false,
                peer_display_name: None,
                ..*old(self)
            }),
    {
        let peer_name = self.peer_display_name.take();
        let local_name = copy_text(&self.device_name);
        self.liveness_key = Some(liveness_key);
        self.connected = true;
        self.pairing = false;
        Paired { peer_name, local_name }
    }

    /// Whether files may be sent now: a session is there and nothing is in
    /// flight.
    pub fn send_files(&self) -> (r: Result<(), CommandError>)
        ensures
            r == (if self.in_flight {
                Err::<(), CommandError>(CommandError::TransferInProgress)
            } else if !self.connected {
                Err::<(), CommandError>(CommandError::NotConnected)
            } else {
                Ok::<(), CommandError>(())
            }),
    {
        if self.in_flight {
            Err(CommandError::TransferInProgress)
        } else if !self.connected {
            Err(CommandError::NotConnected)
        } else {
            Ok(())
        }
    }

    /// Raise the cancel flag of the transfer in flight, without disconnecting
    /// the session.
    pub fn cancel_transfer(&mut self) -> (r: Result<(), CommandError>)
        ensures
            if old(self).in_flight && old(self).cancel is Some {
                r is Ok && *final(self) == (AppState { cancel: Some(true), ..*old(self) })
            } else {
                r == Err::<(), CommandError>(CommandError::NoTransfer) && *final(self) == *old(self)
            },
    {
        if self.in_flight && self.cancel.is_some() {
            self.cancel = Some(true);
            Ok(())
        } else {
            Err(CommandError::NoTransfer)
        }
    }

    /// Put a fresh cancel flag in place.
    pub fn install_cancel(&mut self)
        ensures
            *final(self) == (AppState { cancel: Some(false), ..*old(self) }),
    {
        self.cancel = Some(false);
    }

    /// Take the cancel flag away.
    pub fn clear_cancel(&mut self)
        ensures
            *final(self) == (AppState { cancel: None, ..*old(self) }),
    {
        self.cancel = None;
    }

    /// Answer the incoming transfer that waits for the user; each is answered
    /// once. Gives the decision to hand on.
    pub fn respond_incoming_transfer(&mut self, accept: bool) -> (r: Result<bool, CommandError>)
        ensures
            r == (if old(self).decision_pending {
                Ok::<bool, CommandError>(accept)
            } else {
                Err::<bool, CommandError>(CommandError::NoPendingTransfer)
            }),
            *final(self) == (AppState { decision_pending: false, ..*old(self) }),
    {
        if self.decision_pending {
            self.decision_pending = false;
            Ok(accept)
        } else {
            Err(CommandError::NoPendingTransfer)
        }
    }

    /// Current rotating liveness code, or nothing while not connected.
    pub fn current_liveness_code(&self, now_unix: u64) -> (code: Option<String>)
        ensures
            match self.liveness_key {
                Some(k) => code matches Some(c) && c@ == liveness::code_at(k@, now_unix),
                None => code is None,
            },
    {
        match &self.liveness_key {
            Some(k) => Some(liveness::current_code(k, now_unix)),
            None => None,
        }
    }

    /// The settings as they are.
    pub fn get_config(&self) -> (c: ConfigPayload)
        ensures
            text::opt_text(c.download_dir) == text::opt_text(self.download_dir),
            text::opt_text(c.device_name) == text::opt_text(self.device_name),
            text::opt_text(c.mailbox_url) == text::opt_text(self.mailbox_url),
    {
        ConfigPayload {
            download_dir: copy_text(&self.download_dir),
            device_name: copy_text(&self.device_name),
            mailbox_url: copy_text(&self.mailbox_url),
        }
    }

    /// The mailbox service, which internet sessions need.
    pub fn mailbox(&self) -> (r: Result<String, CommandError>)
        ensures
            match self.mailbox_url {
                Some(u) => r matches Ok(v) && v@ == u@,
                None => r == Err::<String, CommandError>(CommandError::MailboxNotConfigured),
            },
    {
        match &self.mailbox_url {
            Some(u) => Ok(u.clone()),
            None => Err(CommandError::MailboxNotConfigured),
        }
    }

    /// The directory incoming files land in: the configured one, or the
    /// default, or the current directory where there is no default.
    pub fn effective_download_dir(&self, default_root: Option<String>) -> (dir: String)
        ensures
            dir@ == (match self.download_dir {
                Some(d) => d@,
                None => match default_root {
                    Some(d) => d@,
                    None => "."@,
                },
            }),
    {
        match &self.download_dir {
            Some(d) => d.clone(),
            None => match default_root {
                Some(d) => d,
                None => ".".to_owned(),
            },
        }
    }
}

/// The default download directory, below the system's one or else the home
/// directory.
pub fn downloads_root(download_dir: Option<&str>, home_dir: Option<&str>) -> (root: Option<String>)
    ensures
        match (download_dir, home_dir) {
            (Some(d), _) => root matches Some(r) && r@ == path::joined(d@, "Frostwall Beam"@),
            (None, Some(h)) => root matches Some(r) && r@ == path::joined(h@, "Frostwall Beam"@),
            (None, None) => root is None,
        },
{
    match download_dir {
        Some(d) => Some(path::join(d, "Frostwall Beam")),
        None => match home_dir {
            Some(h) => Some(path::join(h, "Frostwall Beam")),
            None => None,
        },
    }
}

/// The host that a joiner dials when it names none: the first that was found.
pub fn first_peer(peers: Vec<DiscoveredPeer>) -> (r: Result<DiscoveredPeer, CommandError>)
    ensures
        r == (if peers@.len() == 0 {
            Err::<DiscoveredPeer, CommandError>(CommandError::NoPeerFound)
        } else {
            Ok::<DiscoveredPeer, CommandError>(peers@[0])
        }),
{
    let mut peers = peers;
    if peers.len() == 0 {
        Err(CommandError::NoPeerFound)
    } else {
        Ok(peers.remove(0))
    }
}

/// What a download directory turned out to be.
#[derive(Debug, Clone, PartialEq, Eq)]
pub struct DirFacts {
    pub is_symlink: bool,
    pub is_dir: bool,
    /// The path with all symlinks resolved, or the path itself where that
    /// failed.
    pub canonical: String,
    /// The path is one of Windows.
    pub windows: bool,
}

/// The system directories that files are never received into.
pub open spec fn system_dirs() -> Seq<Seq<char>> {
    seq![
        "/etc"@,
        "/usr"@,
        "/bin"@,
        "/sbin"@,
        "/var"@,
        "/tmp"@,
        "/private/etc"@,
        "/private/var"@,
        "/private/tmp"@,
        "/dev"@,
        "/System"@,
        "/Library"@,
        "/boot"@,
        "/proc"@,
        "/sys"@,
    ]
}

/// Whether a path is the root, or a system directory or below one.
pub open spec fn is_system(p: Seq<char>) -> bool {
    ||| path::is_absolute(p) && path::segments(p).len() == 0
    ||| exists|k: int| 0 <= k < system_dirs().len() && #[trigger] path::begins_with(
        p,
        system_dirs()[k],
    )
}

/// Reject obviously dangerous system targets for the download directory.
pub fn is_system_path(canonical: &str) -> (yes: bool)
    ensures
        yes == is_system(canonical@),
{
    let (absolute, segs) = path::split(canonical);
    assert(path::texts(segs@).len() == segs@.len());
    if absolute && segs.len() == 0 {
        return true;
    }
    let dirs = vec![
        "/etc",
        "/usr",
        "/bin",
        "/sbin",
        "/var",
        "/tmp",
        "/private/etc",
        "/private/var",
        "/private/tmp",
        "/dev",
        "/System",
        "/Library",
        "/boot",
        "/proc",
        "/sys",
    ];
    assert(dirs@.len() == system_dirs().len());
    for i in 0..dirs.len()
        invariant
            dirs@.len() == system_dirs().len(),
            forall|k: int| 0 <= k < dirs@.len() ==> (#[trigger] dirs@[k])@ == system_dirs()[k],
            !(path::is_absolute(canonical@) && path::segments(canonical@).len() == 0),
            forall|k: int|
                0 <= k < i ==> !#[trigger] path::begins_with(canonical@, system_dirs()[k]),
    {
        if path::starts_with(canonical, dirs[i]) {
            assert(path::begins_with(canonical@, system_dirs()[i as int]));
            return true;
        }
    }
    false
}

/// What the system directories of Windows begin with, in capitals.
pub open spec fn windows_prefixes() -> Seq<Seq<char>> {
    seq![
        "C:\\WINDOWS"@,
        "C:\\PROGRAM FILES"@,
        "C:\\PROGRAM FILES (X86)"@,
        "C:\\PROGRAMDATA"@,
        "C:\\SYSTEM VOLUME INFORMATION"@,
    ]
}

/// A path of Windows without the prefix that a resolved one begins with.
pub open spec fn unprefixed(p: Seq<char>) -> Seq<char> {
    if "\\\\?\\"@.is_prefix_of(p) {
        p.skip("\\\\?\\"@.len() as int)
    } else {
        p
    }
}

/// Whether a path begins like a system directory of Windows, in capitals or not,
/// with the prefix of a resolved path or not.
pub open spec fn is_windows_system(p: Seq<char>) -> bool {
    exists|k: int|
        0 <= k < windows_prefixes().len() && (#[trigger] windows_prefixes()[k]).is_prefix_of(
            text::uppered(unprefixed(p)),
        )
}

/// Reject the system directories of Windows as the download directory.
pub fn is_windows_system_path(canonical: &str) -> (yes: bool)
    ensures
        yes == is_windows_system(canonical@),
{
    let upper = match text::strip_prefix(canonical, "\\\\?\\") {
        Some(rest) => text::to_upper(rest.as_str()),
        None => text::to_upper(canonical),
    };
    let prefixes = vec![
        "C:\\WINDOWS",
        "C:\\PROGRAM FILES",
        "C:\\PROGRAM FILES (X86)",
        "C:\\PROGRAMDATA",
        "C:\\SYSTEM VOLUME INFORMATION",
    ];
    assert(prefixes@.len() == windows_prefixes().len());
    for i in 0..prefixes.len()
        invariant
            upper@ == text::uppered(unprefixed(canonical@)),
            prefixes@.len() == windows_prefixes().len(),
            forall|k: int|
                0 <= k < prefixes@.len() ==> (#[trigger] prefixes@[k])@ == windows_prefixes()[k],
            forall|k: int|
                0 <= k < i ==> !(#[trigger] windows_prefixes()[k]).is_prefix_of(upper@),
    {
        assert(prefixes@[i as int]@ == windows_prefixes()[i as int]);
        if text::starts_with(upper.as_str(), prefixes[i]) {
            return true;
        }
    }
    false
}

/// Whether a directory may be the download directory.
pub open spec fn download_dir_outcome(facts: DirFacts) -> Result<(), CommandError> {
    if facts.is_symlink {
        Err(CommandError::DownloadDirSymlink)
    } else if !facts.is_dir {
        Err(CommandError::DownloadDirNotADirectory)
    } else if is_system(facts.canonical@) || (facts.windows && is_windows_system(
        facts.canonical@,
    )) {
        Err(CommandError::DownloadDirSystem)
    } else {
        Ok(())
    }
}

/// Whether a text begins with the scheme of an `http(s)://` URL.
pub open spec fn has_scheme(t: Seq<char>) -> bool {
    "http://"@.is_prefix_of(t) || "https://"@.is_prefix_of(t)
}

/// A mailbox URL as it is kept: blank clears it; anything else loses its trailing
/// slashes and must then still look like an `http(s)://` URL, so that a scheme
/// with nothing behind it is refused.
pub open spec fn mailbox_url_outcome(url: Seq<char>) -> Result<Option<Seq<char>>, CommandError> {
    let t = text::trimmed(url);
    let kept = text::trim_end(t, text::Class::Only('/'));
    if t.len() == 0 {
        Ok(None)
    } else if !has_scheme(kept) {
        Err(CommandError::MailboxUrlScheme)
    } else {
        Ok(Some(kept))
    }
}

/// A mailbox URL that is kept begins with its scheme, has something behind it,
/// and does not end in a slash.
pub proof fn law_kept_mailbox_url_is_a_url(url: Seq<char>)
    ensures
        mailbox_url_outcome(url) matches Ok(Some(u)) ==> has_scheme(u) && u != "http://"@ && u
            != "https://"@ && u.last() != '/',
{
    reveal_strlit("http://");
    reveal_strlit("https://");
    text::lemma_trim_end_last(text::trimmed(url), text::Class::Only('/'));
}

impl AppState {
    /// Set the download directory, which must be a real directory, not a
    /// symlink and not a system directory. Gives the settings to store: those
    /// stored before, with this one replaced.
    pub fn set_download_dir(&mut self, path: &str, facts: &DirFacts, stored: UserConfig) -> (r:
        Result<UserConfig, CommandError>)
        ensures
            match download_dir_outcome(*facts) {
                Ok(_) => r matches Ok(c) && c@ == (config::ConfigView {
                    download_dir: Some(path@),
                    ..stored@
                }) && text::opt_text(final(self).download_dir) == Some(path@) && *final(self)
                    == (AppState { download_dir: final(self).download_dir, ..*old(self) }),
                Err(e) => r == Err::<UserConfig, CommandError>(e) && *final(self) == *old(self),
            },
    {
        if facts.is_symlink {
            return Err(CommandError::DownloadDirSymlink);
        }
        if !facts.is_dir {
            return Err(CommandError::DownloadDirNotADirectory);
        }
        if is_system_path(facts.canonical.as_str()) {
            return Err(CommandError::DownloadDirSystem);
        }
        if facts.windows && is_windows_system_path(facts.canonical.as_str()) {
            return Err(CommandError::DownloadDirSystem);
        }
        self.download_dir = Some(path.to_owned());
        let mut cfg = stored;
        cfg.download_dir = Some(path.to_owned());
        Ok(cfg)
    }

    /// Set the device name, which must not be blank. Gives the settings to
    /// store: those stored before, with this one replaced.
    pub fn set_device_name(&mut self, name: &str, stored: UserConfig) -> (r: Result<
        UserConfig,
        CommandError,
    >)
        ensures
            if text::trimmed(name@).len() == 0 {
                r == Err::<UserConfig, CommandError>(CommandError::EmptyDeviceName) && *final(self)
                    == *old(self)
            } else {
                r matches Ok(c) && c@ == (config::ConfigView {
                    device_name: Some(text::trimmed(name@)),
                    ..stored@
                }) && text::opt_text(final(self).device_name) == Some(
                    text::trimmed(name@),
                ) && *final(self) == (AppState {
                    device_name: final(self).device_name,
                    ..*old(self)
                })
            },
    {
        let value = text::trim(name);
        if value.as_str().is_empty() {
            return Err(CommandError::EmptyDeviceName);
        }
        self.device_name = Some(value.clone());
        let mut cfg = stored;
        cfg.device_name = Some(value);
        Ok(cfg)
    }

    /// Set or, if blank, clear the mailbox URL. Gives the settings to store:
    /// those stored before, with this one replaced.
    pub fn set_mailbox_url(&mut self, url: &str, stored: UserConfig) -> (r: Result<
        UserConfig,
        CommandError,
    >)
        ensures
            match mailbox_url_outcome(url@) {
                Ok(value) => r matches Ok(c) && c@ == (config::ConfigView {
                    mailbox_url: value,
                    ..stored@
                }) && text::opt_text(final(self).mailbox_url) == value && *final(self)
                    == (AppState { mailbox_url: final(self).mailbox_url, ..*old(self) }),
                Err(e) => r == Err::<UserConfig, CommandError>(e) && *final(self) == *old(self),
            },
    {
        let t = text::trim(url);
        let value = if t.as_str().is_empty() {
            None
        } else {
            let kept = text::trim_end_matches(t.as_str(), '/');
            let plain = text::starts_with(kept.as_str(), "http://");
            if !plain && !text::starts_with(kept.as_str(), "https://") {
                return Err(CommandError::MailboxUrlScheme);
            }
            Some(kept)
        };
        self.mailbox_url = copy_text(&value);
        let mut cfg = stored;
        cfg.mailbox_url = value;
        Ok(cfg)
    }
}

/// Whether `c` is an ASCII letter or digit.
pub open spec fn is_alphanumeric(c: char) -> bool {
    'a' <= c <= 'z' || 'A' <= c <= 'Z' || '0' <= c <= '9'
}

/// A character of a device name as it is advertised: a lower-case letter or a
/// digit, or a hyphen.
pub open spec fn slug_char(c: char) -> char {
    if 'A' <= c <= 'Z' {
        (c as u32 + 32) as char
    } else if is_alphanumeric(c) {
        c
    } else {
        '-'
    }
}

/// A device name as it is advertised, without hyphens at its ends.
pub open spec fn slug_of(name: Seq<char>) -> Seq<char> {
    text::trim_both(name.map_values(|c: char| slug_char(c)), text::Class::Only('-'))
}

/// The name that a host is advertised under: after its device name where that
/// gives a slug that is neither empty nor too long, else a number.
pub open spec fn advertised(device_name: Option<Seq<char>>, n: u16) -> Seq<char> {
    match device_name {
        Some(name) if 0 < slug_of(name).len() && encode_utf8(slug_of(name)).len()
            <= MAX_SLUG_LEN => "frostwall-"@ + slug_of(name),
        _ => "frostwall-"@ + text::padded(n as nat, 4),
    }
}

/// The name that a host is advertised under, with the number to use where its
/// device name gives none.
pub fn advertised_name(device_name: Option<&str>, n: u16) -> (name: String)
    ensures
        name@ == advertised(text::opt_str(device_name), n),
{
    if let Some(d) = device_name {
        let cs = text::chars_of(d);
        let mut raw = String::new();
        for i in 0..cs.len()
            invariant
                cs@ == d@,
                raw@ == d@.take(i as int).map_values(|c: char| slug_char(c)),
        {
            let c = cs[i];
            assert(d@.take(i as int + 1).map_values(|c: char| slug_char(c)) =~= d@.take(
                i as int,
            ).map_values(|c: char| slug_char(c)).push(slug_char(d@[i as int])));
            if 'A' <= c && c <= 'Z' {
                raw.push((c as u8 + 32) as char);
            } else if ('a' <= c && c <= 'z') || ('0' <= c && c <= '9') {
                raw.push(c);
            } else {
                raw.push('-');
            }
        }
        assert(d@.take(d@.len() as int) =~= d@);
        let slug = text::trim_matches(raw.as_str(), '-');
        let slug = slug.as_str();
        if !slug.is_empty() && slug.as_bytes().len() <= MAX_SLUG_LEN {
            return text::concat("frostwall-", slug);
        }
    }
    text::concat("frostwall-", text::padded_text(n as u64, 4).as_str())
}

/// `rand::random` of a `u16`. Nothing is known of the number.
#[verifier::external_body]
fn random_u16() -> (n: u16) {
    rand::random()
}

/// The name that a host is advertised under: after its device name, else with a
/// random number.
pub fn mdns_instance_name(device_name: Option<&str>) -> (name: String)
    ensures
        exists|n: u16|
            n < 10_000 && name@ == #[trigger] advertised(text::opt_str(device_name), n),
{
    let n: u16 = random_u16() % 10_000;
    advertised_name(device_name, n)
}

proof fn lemma_top_directory(p: Seq<char>, d: Seq<char>, name: Seq<char>)
    requires
        d == seq!['/'] + name,
        name.len() > 1,
        !name.contains('/'),
    ensures
        path::begins_with(p, d) <==> path::is_absolute(p) && path::segments(p).len() >= 1
            && path::segments(p)[0] == name,
{
    let none = Seq::<char>::empty();
    assert(d =~= none + seq!['/'] + name);
    path::law_segments_of_a_longer_path(none, name);
    path::law_segments_of_a_longer_path(none, none);
    assert(path::segments(d) =~= seq![name]);
    let s = path::segments(p);
    if s.len() >= 1 && s[0] == name {
        assert(seq![name] =~= s.subrange(0, 1));
    }
    if seq![name].is_prefix_of(s) {
        assert(seq![name] == s.subrange(0, 1));
        assert(s.subrange(0, 1)[0] == s[0]);
        assert(seq![name][0] == name);
    }
}

proof fn lemma_second_directory(p: Seq<char>, d: Seq<char>, top: Seq<char>, name: Seq<char>)
    requires
        d == seq!['/'] + top + seq!['/'] + name,
        top.len() > 1,
        name.len() > 1,
        !top.contains('/'),
        !name.contains('/'),
    ensures
        path::begins_with(p, d) <==> path::is_absolute(p) && path::segments(p).len() >= 2
            && path::segments(p)[0] == top && path::segments(p)[1] == name,
{
    let none = Seq::<char>::empty();
    let front = seq!['/'] + top;
    assert(front =~= none + seq!['/'] + top);
    path::law_segments_of_a_longer_path(none, top);
    path::law_segments_of_a_longer_path(none, none);
    path::law_segments_of_a_longer_path(front, name);
    assert(path::segments(d) =~= seq![top, name]);
    let s = path::segments(p);
    if s.len() >= 2 && s[0] == top && s[1] == name {
        assert(seq![top, name] =~= s.subrange(0, 2));
    }
    if seq![top, name].is_prefix_of(s) {
        assert(seq![top, name] == s.subrange(0, 2));
        assert(s.subrange(0, 2)[0] == s[0] && s.subrange(0, 2)[1] == s[1]);
        assert(seq![top, name][0] == top && seq![top, name][1] == name);
    }
}

/// The system directories are the root itself, the well-known directories directly
/// below it, and those that macOS resolves some of them to, with all that lies in
/// them; no other directory is one.
#[verifier::rlimit(40)]
pub proof fn law_system_directories(p: Seq<char>)
    ensures
        is_system(p) <==> path::is_absolute(p) && ({
            let s = path::segments(p);
            ||| s.len() == 0
            ||| s.len() >= 1 && (s[0] == "etc"@ || s[0] == "usr"@ || s[0] == "bin"@ || s[0] == "sbin"@ || s[0] == "var"@ || s[0] == "tmp"@ || s[0] == "dev"@ || s[0] == "System"@ || s[0] == "Library"@ || s[0] == "boot"@ || s[0] == "proc"@ || s[0] == "sys"@)
            ||| s.len() >= 2 && s[0] == "private"@ && (s[1] == "etc"@ || s[1] == "var"@ || s[1] == "tmp"@)
        }),
{
    reveal_strlit("etc");
    reveal_strlit("usr");
    reveal_strlit("bin");
    reveal_strlit("sbin");
    reveal_strlit("var");
    reveal_strlit("tmp");
    reveal_strlit("dev");
    reveal_strlit("System");
    reveal_strlit("Library");
    reveal_strlit("boot");
    reveal_strlit("proc");
    reveal_strlit("sys");
    reveal_strlit("private");
    reveal_strlit("/etc");
    reveal_strlit("/usr");
    reveal_strlit("/bin");
    reveal_strlit("/sbin");
    reveal_strlit("/var");
    reveal_strlit("/tmp");
    reveal_strlit("/dev");
    reveal_strlit("/System");
    reveal_strlit("/Library");
    reveal_strlit("/boot");
    reveal_strlit("/proc");
    reveal_strlit("/sys");
    reveal_strlit("/private/etc");
    reveal_strlit("/private/var");
    reveal_strlit("/private/tmp");
    assert(!"etc"@.contains('/'));
    assert(!"usr"@.contains('/'));
    assert(!"bin"@.contains('/'));
    assert(!"sbin"@.contains('/'));
    assert(!"var"@.contains('/'));
    assert(!"tmp"@.contains('/'));
    assert(!"dev"@.contains('/'));
    assert(!"System"@.contains('/'));
    assert(!"Library"@.contains('/'));
    assert(!"boot"@.contains('/'));
    assert(!"proc"@.contains('/'));
    assert(!"sys"@.contains('/'));
    assert(!"private"@.contains('/'));
    assert("/etc"@ =~= seq!['/'] + "etc"@);
    lemma_top_directory(p, "/etc"@, "etc"@);
    assert("/usr"@ =~= seq!['/'] + "usr"@);
    lemma_top_directory(p, "/usr"@, "usr"@);
    assert("/bin"@ =~= seq!['/'] + "bin"@);
    lemma_top_directory(p, "/bin"@, "bin"@);
    assert("/sbin"@ =~= seq!['/'] + "sbin"@);
    lemma_top_directory(p, "/sbin"@, "sbin"@);
    assert("/var"@ =~= seq!['/'] + "var"@);
    lemma_top_directory(p, "/var"@, "var"@);
    assert("/tmp"@ =~= seq!['/'] + "tmp"@);
    lemma_top_directory(p, "/tmp"@, "tmp"@);
    assert("/dev"@ =~= seq!['/'] + "dev"@);
    lemma_top_directory(p, "/dev"@, "dev"@);
    assert("/System"@ =~= seq!['/'] + "System"@);
    lemma_top_directory(p, "/System"@, "System"@);
    assert("/Library"@ =~= seq!['/'] + "Library"@);
    lemma_top_directory(p, "/Library"@, "Library"@);
    assert("/boot"@ =~= seq!['/'] + "boot"@);
    lemma_top_directory(p, "/boot"@, "boot"@);
    assert("/proc"@ =~= seq!['/'] + "proc"@);
    lemma_top_directory(p, "/proc"@, "proc"@);
    assert("/sys"@ =~= seq!['/'] + "sys"@);
    lemma_top_directory(p, "/sys"@, "sys"@);
    assert("/private/etc"@ =~= seq!['/'] + "private"@ + seq!['/'] + "etc"@);
    lemma_second_directory(p, "/private/etc"@, "private"@, "etc"@);
    assert("/private/var"@ =~= seq!['/'] + "private"@ + seq!['/'] + "var"@);
    lemma_second_directory(p, "/private/var"@, "private"@, "var"@);
    assert("/private/tmp"@ =~= seq!['/'] + "private"@ + seq!['/'] + "tmp"@);
    lemma_second_directory(p, "/private/tmp"@, "private"@, "tmp"@);
    assert(system_dirs()[0] == "/etc"@);
    assert(system_dirs()[1] == "/usr"@);
    assert(system_dirs()[2] == "/bin"@);
    assert(system_dirs()[3] == "/sbin"@);
    assert(system_dirs()[4] == "/var"@);
    assert(system_dirs()[5] == "/tmp"@);
    assert(system_dirs()[6] == "/private/etc"@);
    assert(system_dirs()[7] == "/private/var"@);
    assert(system_dirs()[8] == "/private/tmp"@);
    assert(system_dirs()[9] == "/dev"@);
    assert(system_dirs()[10] == "/System"@);
    assert(system_dirs()[11] == "/Library"@);
    assert(system_dirs()[12] == "/boot"@);
    assert(system_dirs()[13] == "/proc"@);
    assert(system_dirs()[14] == "/sys"@);
}

/// A path of Windows is in a system directory exactly where it begins like one,
/// in capitals or not, behind the prefix of a resolved path or not.
pub proof fn law_system_directories_of_windows(p: Seq<char>)
    ensures
        ({
            let resolved = p.len() >= 4 && p[0] == '\\' && p[1] == '\\' && p[2] == '?' && p[3]
                == '\\';
            let u = text::uppered(
                if resolved {
                    p.skip(4)
                } else {
                    p
                },
            );
            is_windows_system(p) <==> "C:\\WINDOWS"@.is_prefix_of(u)
                || "C:\\PROGRAM FILES"@.is_prefix_of(u) || "C:\\PROGRAMDATA"@.is_prefix_of(u)
                || "C:\\SYSTEM VOLUME INFORMATION"@.is_prefix_of(u)
        }),
{
    reveal_strlit("\\\\?\\");
    reveal_strlit("C:\\PROGRAM FILES");
    reveal_strlit("C:\\PROGRAM FILES (X86)");
    let resolved = p.len() >= 4 && p[0] == '\\' && p[1] == '\\' && p[2] == '?' && p[3] == '\\';
    let lead = "\\\\?\\"@;
    if resolved {
        assert(lead =~= p.subrange(0, 4));
    }
    if lead.is_prefix_of(p) {
        let q = p.subrange(0, 4);
        assert(lead == q);
        assert(q[0] == p[0] && q[1] == p[1] && q[2] == p[2] && q[3] == p[3]);
    }
    let u = text::uppered(unprefixed(p));
    let w = windows_prefixes();
    assert(w[0] == "C:\\WINDOWS"@);
    assert(w[1] == "C:\\PROGRAM FILES"@);
    assert(w[2] == "C:\\PROGRAM FILES (X86)"@);
    assert(w[3] == "C:\\PROGRAMDATA"@);
    assert(w[4] == "C:\\SYSTEM VOLUME INFORMATION"@);
    if w[2].is_prefix_of(u) {
        let q = u.subrange(0, w[2].len() as int);
        assert(w[2] == q);
        assert(w[1] =~= u.subrange(0, w[1].len() as int)) by {
            assert forall|k: int| 0 <= k < w[1].len() implies w[1][k] == u[k] by {
                assert(w[2][k] == q[k]);
                assert(w[1][k] == w[2][k]);
            }
        }
    }
}

/// A download directory is taken exactly where it is a directory, no symlink and
/// no system directory.
pub proof fn law_download_directories(facts: DirFacts)
    ensures
        download_dir_outcome(facts) is Ok <==> !facts.is_symlink && facts.is_dir && !is_system(
            facts.canonical@,
        ) && !(facts.windows && is_windows_system(facts.canonical@)),
        facts.is_symlink ==> download_dir_outcome(facts) == Err::<(), CommandError>(
            CommandError::DownloadDirSymlink,
        ),
        !facts.is_symlink && !facts.is_dir ==> download_dir_outcome(facts) == Err::<
            (),
            CommandError,
        >(CommandError::DownloadDirNotADirectory),
{
}

/// A mailbox URL that is blank clears the setting; any text with a scheme and
/// something other than slashes behind it is kept, up to its trailing slashes;
/// everything else is refused.
pub proof fn law_mailbox_urls(url: Seq<char>) -> (n: int)
    ensures
        ({
            let t = text::trimmed(url);
            let kept = t.take(n);
            &&& 0 <= n <= t.len()
            &&& forall|k: int| n <= k < t.len() ==> #[trigger] t[k] == '/'
            &&& n > 0 ==> t[n - 1] != '/'
            &&& t.len() == 0 ==> mailbox_url_outcome(url) == Ok::<Option<Seq<char>>, CommandError>(
                None,
            )
            &&& t.len() > 0 && ("http://"@.is_prefix_of(kept) || "https://"@.is_prefix_of(kept))
                ==> mailbox_url_outcome(url) == Ok::<Option<Seq<char>>, CommandError>(Some(kept))
            &&& t.len() > 0 && !("http://"@.is_prefix_of(kept) || "https://"@.is_prefix_of(kept))
                ==> mailbox_url_outcome(url) == Err::<Option<Seq<char>>, CommandError>(
                CommandError::MailboxUrlScheme,
            )
        }),
{
    let t = text::trimmed(url);
    let n = text::law_trim_end_takes_all_at_the_end(t, text::Class::Only('/'));
    assert forall|k: int| n <= k < t.len() implies #[trigger] t[k] == '/' by {
        assert(text::Class::Only('/').has(t[k]));
    }
    n
}

/// A device name is advertised letter by letter: ASCII letters in lower case and
/// digits as they are, a hyphen for anything else, and no hyphen at either end.
pub proof fn law_slugs(name: Seq<char>, c: char) -> (ends: (int, int))
    ensures
        'a' <= c <= 'z' || '0' <= c <= '9' ==> slug_char(c) == c,
        'A' <= c <= 'Z' ==> slug_char(c) as u32 == c as u32 + ('a' as u32 - 'A' as u32),
        !('a' <= c <= 'z' || 'A' <= c <= 'Z' || '0' <= c <= '9') ==> slug_char(c) == '-',
        0 <= ends.0 <= ends.1 <= name.len(),
        slug_of(name).len() == ends.1 - ends.0,
        forall|k: int|
            0 <= k < slug_of(name).len() ==> #[trigger] slug_of(name)[k] == slug_char(
                name[ends.0 + k],
            ),
        forall|k: int| 0 <= k < ends.0 ==> slug_char(#[trigger] name[k]) == '-',
        forall|k: int| ends.1 <= k < name.len() ==> slug_char(#[trigger] name[k]) == '-',
        ends.0 < ends.1 ==> slug_char(name[ends.0]) != '-' && slug_char(name[ends.1 - 1]) != '-',
{
    let raw = name.map_values(|c: char| slug_char(c));
    let (i, j) = text::law_trimming_keeps_the_middle(raw, text::Class::Only('-'));
    assert forall|k: int| 0 <= k < i implies slug_char(#[trigger] name[k]) == '-' by {
        assert(text::Class::Only('-').has(raw[k]));
    }
    assert forall|k: int| j <= k < name.len() implies slug_char(#[trigger] name[k]) == '-' by {
        assert(text::Class::Only('-').has(raw[k]));
    }
    (i, j)
}

/// A host is advertised after its device name wherever that leaves between one and
/// 48 bytes, and else with four digits; behind the service's name in either case.
pub proof fn law_advertised_names(name: Option<Seq<char>>, n: u16)
    requires
        n < 10_000,
    ensures
        ({
            let named = name is Some && slug_of(name->0).len() > 0 && encode_utf8(
                slug_of(name->0),
            ).len() <= 48;
            &&& named ==> advertised(name, n) == "frostwall-"@ + slug_of(name->0)
            &&& !named ==> exists|digits: Seq<char>|
                advertised(name, n) == "frostwall-"@ + digits && digits.len() == 4
                    && #[trigger] text::number(digits) == n
        }),
{
    reveal_with_fuel(text::tens, 5);
    text::law_padded_stands_for_its_number(n as nat, 4);
    assert(text::number(text::padded(n as nat, 4)) == n);
}

/// Tearing down ends each thing that is under way, and nothing that is not.
pub proof fn law_teardown_ends_what_is_under_way(s: AppState)
    ensures
        teardown(s).contains(Teardown::AbortPairing) <==> s.pairing,
        teardown(s).contains(Teardown::RaiseCancel) <==> s.cancel is Some,
        teardown(s).contains(Teardown::DeclinePending) <==> s.decision_pending,
        teardown(s).contains(Teardown::CloseCommands) <==> s.connected,
        forall|r: Registration| #[trigger]
            teardown(s).contains(Teardown::Unregister(r)) <==> s.registration == Some(r),
        !cleared(s).connected,
        !cleared(s).in_flight,
        !cleared(s).pairing,
        !cleared(s).decision_pending,
        cleared(s).liveness_key is None,
        cleared(s).cancel is None,
        cleared(s).registration is None,
        cleared(s).peer_display_name == s.peer_display_name,
{
    let a = if s.pairing {
        1int
    } else {
        0
    };
    let b = a + if s.cancel is Some {
        1int
    } else {
        0
    };
    let c = b + if s.decision_pending {
        1int
    } else {
        0
    };
    let d = c + if s.connected {
        1int
    } else {
        0
    };
    if s.pairing {
        assert(teardown(s)[0] == Teardown::AbortPairing);
    }
    if s.cancel is Some {
        assert(teardown(s)[a] == Teardown::RaiseCancel);
    }
    if s.decision_pending {
        assert(teardown(s)[b] == Teardown::DeclinePending);
    }
    if s.connected {
        assert(teardown(s)[c] == Teardown::CloseCommands);
    }
    if let Some(r) = s.registration {
        assert(teardown(s)[d] == Teardown::Unregister(r));
    }
}

/// What the user is told when a command is refused.
pub proof fn law_texts_of_commands()
    ensures
        message_of(CommandError::TransferInProgress) == "a transfer is already in progress"@,
        message_of(CommandError::NotConnected) == "not connected"@,
        message_of(CommandError::NoTransfer) == "no transfer in progress"@,
        message_of(CommandError::NoPendingTransfer) == "no pending transfer"@,
        message_of(CommandError::EmptyDeviceName) == "device name must not be empty"@,
        message_of(CommandError::MailboxUrlScheme)
            == "mailbox URL must start with http:// or https://"@,
        message_of(CommandError::MailboxNotConfigured) == "mailbox server is not configured"@,
        message_of(CommandError::DownloadDirSymlink)
            == "download directory must not be a symlink"@,
        message_of(CommandError::DownloadDirNotADirectory) == "path is not a directory"@,
        message_of(CommandError::DownloadDirSystem)
            == "refusing a system directory as the download location"@,
        message_of(CommandError::NoPeerFound) == "no peer found on the LAN"@,
{
}

} // verus!
