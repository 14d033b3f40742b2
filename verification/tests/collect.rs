use frostwall::collect::{Collector, Kind, Want};
use frostwall::transfer::{SendItem, TransferError};
use std::collections::BTreeMap;

/// A file system in memory: what each path is.
struct Tree {
    nodes: BTreeMap<String, Kind>,
    identities: BTreeMap<String, (u64, u64)>,
}

impl Tree {
    fn new(nodes: &[(&str, Kind)]) -> Tree {
        let identities = nodes
            .iter()
            .enumerate()
            .map(|(i, (p, _))| (p.to_string(), (1, i as u64)))
            .collect();
        let nodes = nodes.iter().map(|(p, k)| (p.to_string(), *k)).collect();
        Tree { nodes, identities }
    }

    fn children(&self, dir: &str) -> Vec<String> {
        let prefix = format!("{dir}/");
        self.nodes
            .keys()
            .filter(|p| p.starts_with(&prefix) && !p[prefix.len()..].contains('/'))
            .cloned()
            .collect()
    }

    fn collect(&self, roots: &[&str]) -> Result<Vec<SendItem>, TransferError> {
        let mut c = Collector::new(false);
        for root in roots {
            c.add_root(root, self.nodes[*root])?;
            loop {
                match c.next() {
                    Want::Nothing => break,
                    Want::Listing(dir) => c.on_listing(self.children(&dir)),
                    Want::Entry(p) => {
                        c.on_entry(self.nodes[&p], self.identities.get(&p).copied())?
                    }
                }
            }
        }
        Ok(c.into_items())
    }
}

fn rels(items: &[SendItem]) -> Vec<&str> {
    items.iter().map(|i| i.rel_path.as_str()).collect()
}

#[test]
fn collect_items_skips_symlinks() {
    let tree = Tree::new(&[
        ("/t/share", Kind::Dir),
        ("/t/share/sub", Kind::Dir),
        ("/t/share/real.txt", Kind::File),
        ("/t/share/leak", Kind::Symlink),
    ]);
    let items = tree.collect(&["/t/share"]).unwrap();
    assert!(rels(&items).contains(&"share/real.txt"));
    assert!(!rels(&items).iter().any(|r| r.contains("leak")));
}

#[test]
fn collect_items_rejects_symlink_root() {
    let tree = Tree::new(&[("/t/link", Kind::Symlink)]);
    assert_eq!(tree.collect(&["/t/link"]), Err(TransferError::SymlinkRoot("/t/link".into())));
}

#[test]
fn collect_items_file_and_folder() {
    let tree = Tree::new(&[
        ("/t/single.txt", Kind::File),
        ("/t/f", Kind::Dir),
        ("/t/f/nested", Kind::Dir),
        ("/t/f/one.txt", Kind::File),
        ("/t/f/nested/two.txt", Kind::File),
    ]);
    let items = tree.collect(&["/t/single.txt", "/t/f"]).unwrap();
    let rels = rels(&items);
    assert!(rels.contains(&"single.txt"));
    assert!(rels.contains(&"f/one.txt"));
    assert!(rels.contains(&"f/nested/two.txt"));
    assert_eq!(rels, ["single.txt", "f/nested/two.txt", "f/one.txt"]);
    assert_eq!(items[1].source, "/t/f/nested/two.txt");
}

#[test]
fn collect_items_passes_over_special_files() {
    let tree = Tree::new(&[("/t/pipe", Kind::Other), ("/t/d", Kind::Dir), ("/t/d/p", Kind::Other)]);
    assert_eq!(tree.collect(&["/t/pipe", "/t/d"]), Ok(vec![]));
}

#[test]
fn collect_items_replaces_backslashes() {
    let tree = Tree::new(&[
        ("/t/a\\b.txt", Kind::File),
        ("/t/d", Kind::Dir),
        ("/t/d/c\\d.txt", Kind::File),
    ]);
    let items = tree.collect(&["/t/a\\b.txt", "/t/d"]).unwrap();
    assert_eq!(rels(&items), ["a/b.txt", "d/c/d.txt"]);
}

#[test]
fn collect_items_enters_a_directory_once() {
    let mut tree = Tree::new(&[
        ("/t/d", Kind::Dir),
        ("/t/d/a", Kind::Dir),
        ("/t/d/b", Kind::Dir),
        ("/t/d/a/x", Kind::File),
        ("/t/d/b/x", Kind::File),
    ]);
    let id = tree.identities["/t/d/a"];
    tree.identities.insert("/t/d/b".into(), id);
    let items = tree.collect(&["/t/d"]).unwrap();
    assert_eq!(rels(&items), ["d/a/x"]);
}

#[test]
fn collect_items_bounds_the_depth() {
    let mut paths = vec!["/t/d".to_string()];
    for _ in 0..64 {
        let next = format!("{}/d", paths.last().unwrap());
        paths.push(next);
    }
    let mut nodes: Vec<(&str, Kind)> = paths.iter().map(|p| (p.as_str(), Kind::Dir)).collect();
    let file = format!("{}/f", paths.last().unwrap());
    nodes.push((file.as_str(), Kind::File));
    assert_eq!(Tree::new(&nodes).collect(&["/t/d"]).unwrap().len(), 1);
    let deeper = format!("{}/d", paths.last().unwrap());
    nodes.push((deeper.as_str(), Kind::Dir));
    assert_eq!(Tree::new(&nodes).collect(&["/t/d"]), Err(TransferError::TooDeep));
}

#[test]
fn collect_items_needs_a_file_name() {
    let mut c = Collector::new(false);
    assert_eq!(c.add_root("/t/..", Kind::File), Err(TransferError::InvalidFileName));
    c.add_root("/", Kind::Dir).unwrap();
    assert_eq!(c.next(), Want::Listing("/".to_string()));
    c.on_listing(vec!["/x".to_string()]);
    assert_eq!(c.on_entry(Kind::File, None), Err(TransferError::OutsideRoot));
}

#[test]
fn collect_items_knows_the_separators_of_windows() {
    let mut c = Collector::new(true);
    c.add_root("C:\\u\\a.txt", Kind::File).unwrap();
    c.add_root("C:\\u\\docs", Kind::Dir).unwrap();
    assert_eq!(c.next(), Want::Listing("C:\\u\\docs".into()));
    c.on_listing(vec!["C:\\u\\docs\\b.txt".into()]);
    c.on_entry(Kind::File, None).unwrap();
    let items = c.into_items();
    assert_eq!(items[0].source, "C:\\u\\a.txt");
    assert_eq!(items[0].rel_path, "a.txt");
    assert_eq!(items[1].source, "C:\\u\\docs\\b.txt");
    assert_eq!(items[1].rel_path, "docs/b.txt");

    let mut c = Collector::new(true);
    c.add_root("C:\\", Kind::Dir).unwrap();
    c.on_listing(vec!["C:\\x".into()]);
    assert!(c.on_entry(Kind::File, None).is_err());
}

/// What is announced of one file below a root folder of Windows.
fn below(root: &str, file: &str) -> Result<String, TransferError> {
    let mut c = Collector::new(true);
    c.add_root(root, Kind::Dir)?;
    c.on_listing(vec![file.to_string()]);
    c.on_entry(Kind::File, None)?;
    Ok(c.into_items()[0].rel_path.clone())
}

#[test]
fn collect_items_knows_drives_shares_and_devices() {
    assert_eq!(below("C:foo", "C:foo\\x").unwrap(), "foo/x");
    assert_eq!(below("C:\\foo", "C:\\foo\\x").unwrap(), "foo/x");
    assert_eq!(below("\\\\srv\\share\\foo", "\\\\srv\\share\\foo\\x").unwrap(), "foo/x");
    assert_eq!(below("\\\\?\\C:\\foo", "\\\\?\\C:\\foo\\x").unwrap(), "foo/x");
    let unc = "\\\\?\\UNC\\srv\\share";
    assert_eq!(below(&format!("{unc}\\foo"), &format!("{unc}\\foo\\x")).unwrap(), "foo/x");
    assert_eq!(below("foo", "foo\\x").unwrap(), "foo/x");
    for (root, file) in [
        ("C:", "C:x"),
        ("C:\\", "C:\\x"),
        ("\\\\srv\\share", "\\\\srv\\share\\x"),
        ("\\\\srv\\share\\", "\\\\srv\\share\\x"),
        ("\\\\?\\C:\\", "\\\\?\\C:\\x"),
        ("\\\\.\\dev", "\\\\.\\dev\\x"),
        (unc, "\\\\?\\UNC\\srv\\share\\x"),
    ] {
        assert_eq!(below(root, file), Err(TransferError::OutsideRoot), "{root}");
        let mut c = Collector::new(true);
        assert_eq!(c.add_root(root, Kind::File), Err(TransferError::InvalidFileName), "{root}");
    }
    for root in ["C:foo.txt", "C:\\foo.txt", "\\\\srv\\share\\foo.txt", "\\\\?\\C:\\foo.txt"] {
        let mut c = Collector::new(true);
        c.add_root(root, Kind::File).unwrap();
        assert_eq!(c.into_items()[0].rel_path, "foo.txt", "{root}");
    }
}
