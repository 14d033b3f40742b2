//! Persisted user configuration: download directory, device name and mailbox
//! URL, as JSON at `<config dir>/frostwall/config.json`. Missing or malformed
//! files degrade gracefully to defaults.
use crate::path;
use crate::text;
use vstd::prelude::*;

verus! {

/// User-tunable settings. Unset means "use defaults".
#[derive(Debug, Clone, PartialEq, Eq)]
pub struct UserConfig {
    pub download_dir: Option<String>,
    pub device_name: Option<String>,
    pub mailbox_url: Option<String>,
}

/// User-tunable settings, by contents.
pub ghost struct ConfigView {
    pub download_dir: Option<Seq<char>>,
    pub device_name: Option<Seq<char>>,
    pub mailbox_url: Option<Seq<char>>,
}

impl View for UserConfig {
    type V = ConfigView;

    open spec fn view(&self) -> ConfigView {
        ConfigView {
            download_dir: text::opt_text(self.download_dir),
            device_name: text::opt_text(self.device_name),
            mailbox_url: text::opt_text(self.mailbox_url),
        }
    }
}

impl Default for UserConfig {
    fn default() -> (c: UserConfig)
        ensures
            c.download_dir is None,
            c.device_name is None,
            c.mailbox_url is None,
    {
        UserConfig { download_dir: None, device_name: None, mailbox_url: None }
    }
}

/// What was found where the configuration should be.
#[derive(Debug, Clone, PartialEq, Eq)]
pub enum ConfigFile {
    /// There is no configuration directory.
    NoDirectory,
    /// The file is a symlink, which is never followed.
    Symlink,
    /// The file is missing or cannot be read.
    Unreadable,
    /// The file does not hold a configuration.
    Malformed,
    /// The file holds this configuration.
    Parsed(UserConfig),
}

/// The configuration in what was found, or the default.
pub fn load(file: ConfigFile) -> (c: UserConfig)
    ensures
        match file {
            ConfigFile::Parsed(stored) => c == stored,
            _ => c@ == (ConfigView { download_dir: None, device_name: None, mailbox_url: None }),
        },
{
    match file {
        ConfigFile::Parsed(stored) => stored,
        _ => UserConfig::default(),
    }
}

/// The configuration's directory.
pub open spec fn dir_of(config_dir: Seq<char>) -> Seq<char> {
    path::joined(config_dir, "frostwall"@)
}

/// The configuration file.
pub open spec fn file_of(config_dir: Seq<char>) -> Seq<char> {
    path::joined(dir_of(config_dir), "config.json"@)
}

/// The file that a new configuration is written to first.
pub open spec fn temp_of(config_dir: Seq<char>) -> Seq<char> {
    path::joined(dir_of(config_dir), "config.json.tmp"@)
}

/// Where the configuration file is.
pub fn config_path(config_dir: Option<&str>) -> (p: Option<String>)
    ensures
        match config_dir {
            Some(d) => p matches Some(f) && f@ == file_of(d@),
            None => p is None,
        },
{
    match config_dir {
        Some(d) => Some(path::join(path::join(d, "frostwall").as_str(), "config.json")),
        None => None,
    }
}

/// One step of saving the configuration.
#[derive(Debug, Clone, PartialEq, Eq)]
pub enum SaveStep {
    /// Create a directory and what it lies in.
    CreateDir(String),
    /// Remove a file that is a symlink; leave any other.
    RemoveSymlink(String),
    /// Write a file from scratch and flush it to disk.
    Write(String, Vec<u8>),
    /// Let only the owner read and write a file.
    MakePrivate(String),
    /// Flush a directory to disk.
    SyncDir(String),
    /// Give a file another name, in place of the file that has it.
    Rename(String, String),
}

/// One step of saving the configuration, by contents.
pub ghost enum StepView {
    CreateDir(Seq<char>),
    RemoveSymlink(Seq<char>),
    Write(Seq<char>, Seq<u8>),
    MakePrivate(Seq<char>),
    SyncDir(Seq<char>),
    Rename(Seq<char>, Seq<char>),
}

impl View for SaveStep {
    type V = StepView;

    open spec fn view(&self) -> StepView {
        match self {
            SaveStep::CreateDir(p) => StepView::CreateDir(p@),
            SaveStep::RemoveSymlink(p) => StepView::RemoveSymlink(p@),
            SaveStep::Write(p, bytes) => StepView::Write(p@, bytes@),
            SaveStep::MakePrivate(p) => StepView::MakePrivate(p@),
            SaveStep::SyncDir(p) => StepView::SyncDir(p@),
            SaveStep::Rename(p, q) => StepView::Rename(p@, q@),
        }
    }
}

impl SaveStep {
    /// Whether saving fails where this step fails. The others are done as far
    /// as they can be.
    pub fn is_essential(&self) -> (yes: bool)
        ensures
            yes == (*self is CreateDir || *self is Write || *self is Rename),
    {
        matches!(self, SaveStep::CreateDir(_) | SaveStep::Write(_, _) | SaveStep::Rename(_, _))
    }
}

/// The steps that save `bytes`, in order.
pub open spec fn steps_of(config_dir: Seq<char>, bytes: Seq<u8>) -> Seq<StepView> {
    seq![
        StepView::CreateDir(dir_of(config_dir)),
        StepView::RemoveSymlink(temp_of(config_dir)),
        StepView::Write(temp_of(config_dir), bytes),
        StepView::MakePrivate(temp_of(config_dir)),
        StepView::SyncDir(dir_of(config_dir)),
        StepView::Rename(temp_of(config_dir), file_of(config_dir)),
        StepView::SyncDir(dir_of(config_dir)),
    ]
}

/// Why a configuration cannot be saved at all.
#[derive(Debug, Clone, Copy, PartialEq, Eq, Structural)]
pub enum ConfigError {
    /// There is no configuration directory.
    NoDirectory,
}

/// The steps that save a configuration, given as JSON. Fails exactly where
/// there is no configuration directory. The file itself is replaced only by the
/// renaming, once all of its bytes are on disk under another name; the directory
/// is flushed before it and after it, so that the renaming lasts.
pub fn save(config_dir: Option<&str>, bytes: Vec<u8>) -> (r: Result<Vec<SaveStep>, ConfigError>)
    ensures
        match config_dir {
            Some(d) => r matches Ok(steps) && steps@.map_values(|s: SaveStep| s@) == steps_of(
                d@,
                bytes@,
            ),
            None => r == Err::<Vec<SaveStep>, ConfigError>(ConfigError::NoDirectory),
        },
{
    let config_dir = match config_dir {
        Some(d) => d,
        None => return Err(ConfigError::NoDirectory),
    };
    let dir = path::join(config_dir, "frostwall");
    let file = path::join(dir.as_str(), "config.json");
    let temp = path::join(dir.as_str(), "config.json.tmp");
    let steps = vec![
        SaveStep::CreateDir(dir.clone()),
        SaveStep::RemoveSymlink(temp.clone()),
        SaveStep::Write(temp.clone(), bytes),
        SaveStep::MakePrivate(temp.clone()),
        SaveStep::SyncDir(dir.clone()),
        SaveStep::Rename(temp, file),
        SaveStep::SyncDir(dir),
    ];
    assert(steps@.map_values(|s: SaveStep| s@) =~= steps_of(config_dir@, bytes@));
    Ok(steps)
}

/// A crash cannot leave a torn configuration: no step but one touches the
/// configuration file, and what that one puts in its place was written
/// completely before. After it the directory is flushed, so that it lasts.
pub proof fn law_config_is_replaced_at_once(config_dir: Seq<char>, bytes: Seq<u8>)
    ensures
        ({
            let steps = steps_of(config_dir, bytes);
            let file = file_of(config_dir);
            &&& temp_of(config_dir) != file
            &&& exists|w: int, r: int|
                0 <= w < r < steps.len() - 1 && #[trigger] steps[w] == StepView::Write(
                    temp_of(config_dir),
                    bytes,
                ) && #[trigger] steps[r] == StepView::Rename(temp_of(config_dir), file) && forall|
                    i: int,
                |
                    0 <= i < steps.len() && i != r ==> #[trigger] steps[i]
                        != StepView::RemoveSymlink(file) && (steps[i] matches StepView::Write(p, _)
                        ==> p != file) && !(steps[i] is Rename)
            &&& steps.last() == StepView::SyncDir(dir_of(config_dir))
        }),
{
    let steps = steps_of(config_dir, bytes);
    let file = file_of(config_dir);
    reveal_strlit("config.json");
    reveal_strlit("config.json.tmp");
    assert(temp_of(config_dir).len() == file.len() + 4);
    assert(steps[2] == StepView::Write(temp_of(config_dir), bytes));
    assert(steps[5] == StepView::Rename(temp_of(config_dir), file));
    assert forall|i: int| 0 <= i < steps.len() && i != 5 implies #[trigger] steps[i]
        != StepView::RemoveSymlink(file) && (steps[i] matches StepView::Write(p, _) ==> p != file)
        && !(steps[i] is Rename) by {}
}

/// The configuration lies in `frostwall/config.json` below the configuration
/// directory, and is written under another name beside it first.
pub proof fn law_where_the_configuration_lies(dir: Seq<char>)
    requires
        dir.len() > 0,
        dir.last() != '/',
    ensures
        dir_of(dir) == dir + "/frostwall"@,
        file_of(dir) == dir + "/frostwall/config.json"@,
        temp_of(dir) == dir + "/frostwall/config.json.tmp"@,
{
    reveal_strlit("frostwall");
    reveal_strlit("/frostwall");
    reveal_strlit("config.json");
    reveal_strlit("config.json.tmp");
    reveal_strlit("/frostwall/config.json");
    reveal_strlit("/frostwall/config.json.tmp");
    assert(dir_of(dir) =~= dir + "/frostwall"@);
    assert(file_of(dir) =~= dir + "/frostwall/config.json"@);
    assert(temp_of(dir) =~= dir + "/frostwall/config.json.tmp"@);
}

/// Saving creates the directory first, writes through no symlink, and lets only
/// the owner read the new file before it takes its name.
pub proof fn law_saving_is_careful(dir: Seq<char>, bytes: Seq<u8>)
    ensures
        ({
            let steps = steps_of(dir, bytes);
            let temp = temp_of(dir);
            &&& steps.len() == 7
            &&& steps[0] == StepView::CreateDir(dir_of(dir))
            &&& steps[4] == StepView::SyncDir(dir_of(dir))
            &&& steps[6] == StepView::SyncDir(dir_of(dir))
            &&& exists|a: int, b: int, c: int, d: int|
                0 < a < b < c < d < steps.len() && #[trigger] steps[a] == StepView::RemoveSymlink(
                    temp,
                ) && #[trigger] steps[b] == StepView::Write(temp, bytes) && #[trigger] steps[c]
                    == StepView::MakePrivate(temp) && #[trigger] steps[d] == StepView::Rename(
                    temp,
                    file_of(dir),
                )
        }),
{
    let steps = steps_of(dir, bytes);
    let temp = temp_of(dir);
    assert(steps[1] == StepView::RemoveSymlink(temp));
    assert(steps[2] == StepView::Write(temp, bytes));
    assert(steps[3] == StepView::MakePrivate(temp));
    assert(steps[5] == StepView::Rename(temp, file_of(dir)));
}

/// Settings are seen with all that they hold.
pub proof fn law_settings_are_seen_whole(c: UserConfig)
    ensures
        c.download_dir is None <==> c@.download_dir is None,
        c.device_name is None <==> c@.device_name is None,
        c.mailbox_url is None <==> c@.mailbox_url is None,
        c.download_dir matches Some(t) ==> c@.download_dir == Some(t@),
        c.device_name matches Some(t) ==> c@.device_name == Some(t@),
        c.mailbox_url matches Some(t) ==> c@.mailbox_url == Some(t@),
{
}

} // verus!
