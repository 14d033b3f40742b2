use frostwall::config::{config_path, load, save, ConfigError, ConfigFile, SaveStep, UserConfig};
use serde_json::Value;
use std::collections::{HashMap, HashSet};

/// A disk in memory that carries out saving steps.
#[derive(Default)]
struct Disk {
    dirs: HashSet<String>,
    files: HashMap<String, Vec<u8>>,
    symlinks: HashSet<String>,
}

impl Disk {
    fn run(&mut self, steps: Vec<SaveStep>) {
        for step in steps {
            match step {
                SaveStep::CreateDir(p) => {
                    self.dirs.insert(p);
                }
                SaveStep::RemoveSymlink(p) => {
                    self.symlinks.remove(&p);
                }
                SaveStep::Write(p, bytes) => {
                    assert!(!self.symlinks.contains(&p));
                    self.files.insert(p, bytes);
                }
                SaveStep::MakePrivate(p) => assert!(self.files.contains_key(&p)),
                SaveStep::SyncDir(p) => assert!(self.dirs.contains(&p)),
                SaveStep::Rename(p, q) => {
                    let bytes = self.files.remove(&p).unwrap();
                    self.files.insert(q, bytes);
                }
            }
        }
    }

    fn load(&self, path: &str) -> UserConfig {
        load(if self.symlinks.contains(path) {
            ConfigFile::Symlink
        } else {
            match self.files.get(path) {
                None => ConfigFile::Unreadable,
                Some(bytes) => match serde_json::from_slice::<Value>(bytes) {
                    Ok(v) if v.is_object() => ConfigFile::Parsed(UserConfig {
                        download_dir: field(&v, "download_dir"),
                        device_name: field(&v, "device_name"),
                        mailbox_url: field(&v, "mailbox_url"),
                    }),
                    _ => ConfigFile::Malformed,
                },
            }
        })
    }
}

fn field(v: &Value, name: &str) -> Option<String> {
    v.get(name).and_then(|f| f.as_str()).map(|s| s.to_string())
}

fn to_json(c: &UserConfig) -> Vec<u8> {
    let mut m = serde_json::Map::new();
    let value = |f: &Option<String>| match f {
        Some(s) => Value::String(s.clone()),
        None => Value::Null,
    };
    m.insert("download_dir".to_string(), value(&c.download_dir));
    m.insert("device_name".to_string(), value(&c.device_name));
    m.insert("mailbox_url".to_string(), value(&c.mailbox_url));
    serde_json::to_vec_pretty(&Value::Object(m)).unwrap()
}

#[test]
fn load_missing_returns_default() {
    let disk = Disk::default();
    let cfg = disk.load("missing.json");
    assert_eq!(cfg, UserConfig::default());
    assert!(cfg.download_dir.is_none());
    assert!(cfg.device_name.is_none());
}

#[test]
fn save_then_load_roundtrip() {
    let mut disk = Disk::default();
    let cfg = UserConfig {
        download_dir: Some("/some/where".to_string()),
        device_name: Some("laptop".to_string()),
        mailbox_url: Some("https://mailbox.example.com".to_string()),
    };
    disk.run(save(Some("/home/u/.config"), to_json(&cfg)).unwrap());
    let loaded = disk.load("/home/u/.config/frostwall/config.json");
    assert_eq!(loaded, cfg);
}

#[test]
fn save_creates_parent_dir() {
    let mut disk = Disk::default();
    let cfg = UserConfig { download_dir: Some("/x".to_string()), ..UserConfig::default() };
    disk.run(save(Some("nested/deep"), to_json(&cfg)).unwrap());
    assert!(
        disk.files.contains_key("nested/deep/frostwall/config.json"),
        "config file should exist after save"
    );
    assert!(disk.dirs.contains("nested/deep/frostwall"), "parent dir created");
}

#[test]
fn load_refuses_symlinked_config() {
    let mut disk = Disk::default();
    let cfg = UserConfig { download_dir: Some("/attacker".to_string()), ..UserConfig::default() };
    disk.run(save(Some("d"), to_json(&cfg)).unwrap());
    disk.symlinks.insert("d/frostwall/config.json".to_string());
    // A symlinked config must be ignored (default), not followed.
    assert_eq!(disk.load("d/frostwall/config.json"), UserConfig::default());
}

#[test]
fn load_degrades_to_defaults() {
    assert_eq!(load(ConfigFile::NoDirectory), UserConfig::default());
    assert_eq!(load(ConfigFile::Malformed), UserConfig::default());
}

#[test]
fn save_never_writes_through_a_planted_symlink() {
    let mut disk = Disk::default();
    disk.symlinks.insert("d/frostwall/config.json.tmp".to_string());
    disk.run(save(Some("d"), b"{}".to_vec()).unwrap());
    assert_eq!(disk.files["d/frostwall/config.json"], b"{}");
}

#[test]
fn save_needs_a_directory() {
    assert_eq!(save(None, Vec::new()), Err(ConfigError::NoDirectory));
    assert_eq!(config_path(None), None);
    assert_eq!(config_path(Some("/c")), Some("/c/frostwall/config.json".to_string()));
}

#[test]
fn only_some_steps_are_essential() {
    let steps = save(Some("d"), Vec::new()).unwrap();
    let essential: Vec<bool> = steps.iter().map(|s| s.is_essential()).collect();
    assert_eq!(essential, [true, false, true, false, false, true, false]);
    // the directory is flushed once more when the new name stands in it
    assert!(matches!(steps[6], SaveStep::SyncDir(_)));
}
