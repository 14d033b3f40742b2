//! Expanding files and folders into a flat send list, step by step: the caller
//! looks at the file system, the collector decides. Symlinks are never
//! followed: a symlink among the roots is refused, and symlinks inside a folder
//! are skipped.
use crate::path;
use crate::path::{Place, PlaceView};
use crate::text;
use crate::transfer;
use crate::transfer::{ErrorView, SendItem, TransferError};
use vstd::prelude::*;

verus! {

/// Deepest level of folders below a root folder.
pub const MAX_DEPTH: usize = 64;

/// What a path names, without following a symlink.
#[derive(Debug, Clone, Copy, PartialEq, Eq, Structural)]
pub enum Kind {
    Symlink,
    File,
    Dir,
    Other,
}

/// What the collector wants next.
#[derive(Debug, Clone, PartialEq, Eq)]
pub enum Want {
    /// The kind of a path, and for a directory its identity.
    Entry(String),
    /// The paths in a directory.
    Listing(String),
    /// Nothing: the root is done.
    Nothing,
}

/// What a collector stands for.
pub ghost struct CollectorView {
    /// Sources and announced paths, in the order in which they were found.
    pub items: Seq<(Seq<char>, Seq<char>)>,
    /// Paths still to be looked at, the next one last, each with the level of
    /// the folder it was found in.
    pub pending: Seq<(Seq<char>, nat)>,
    /// The folder whose listing is wanted, with its level.
    pub listing: Option<(Seq<char>, nat)>,
    /// The identities of the folders below the root that were entered.
    pub seen: Set<(u64, u64)>,
    /// What announced paths are relative to.
    pub base: PlaceView,
    /// Paths are those of Windows.
    pub windows: bool,
}

/// What the paths below a root folder are announced relative to: what holds the
/// folder.
pub open spec fn base_of(root: Seq<char>, windows: bool) -> PlaceView {
    path::place(root, windows).parent()
}

/// The path of a file as it is announced: its segments below `base`, with `/`
/// for every backslash.
pub open spec fn announced(base: PlaceView, p: PlaceView) -> Seq<char> {
    text::replaced(p.below(base), '\\', '/')
}

impl CollectorView {
    /// The collector after a root of some kind, or why the root is refused.
    pub open spec fn with_root(self, root: Seq<char>, kind: Kind) -> Result<
        CollectorView,
        ErrorView,
    > {
        match kind {
            Kind::Symlink => Err(ErrorView::SymlinkRoot(root)),
            Kind::File => match path::place(root, self.windows).file_name() {
                Some(name) => Ok(
                    CollectorView {
                        items: self.items.push((root, text::replaced(name, '\\', '/'))),
                        ..self
                    },
                ),
                None => Err(ErrorView::InvalidFileName),
            },
            Kind::Dir => Ok(
                CollectorView {
                    listing: Some((root, 0)),
                    seen: Set::empty(),
                    base: base_of(root, self.windows),
                    ..self
                },
            ),
            Kind::Other => Ok(self),
        }
    }

    /// The collector after the next pending path turned out to be of some kind,
    /// or why collecting ends.
    pub open spec fn with_entry(self, kind: Kind, identity: Option<(u64, u64)>) -> Result<
        CollectorView,
        ErrorView,
    > {
        let (p, level) = self.pending.last();
        let q = path::place(p, self.windows);
        let rest = CollectorView { pending: self.pending.drop_last(), ..self };
        match kind {
            Kind::Symlink => Ok(rest),
            Kind::Other => Ok(rest),
            Kind::File => if q.lies_below(self.base) {
                Ok(CollectorView { items: self.items.push((p, announced(self.base, q))), ..rest })
            } else {
                Err(ErrorView::OutsideRoot)
            },
            Kind::Dir => if identity matches Some(id) && self.seen.contains(id) {
                Ok(rest)
            } else if level + 1 > MAX_DEPTH {
                Err(ErrorView::TooDeep)
            } else {
                Ok(
                    CollectorView {
                        listing: Some((p, level + 1)),
                        seen: match identity {
                            Some(id) => self.seen.insert(id),
                            None => self.seen,
                        },
                        ..rest
                    },
                )
            },
        }
    }

    /// The collector after the wanted folder turned out to hold `paths`.
    pub open spec fn with_listing(self, paths: Seq<Seq<char>>) -> CollectorView {
        let level: nat = match self.listing {
            Some((_, level)) => level,
            None => 0,
        };
        CollectorView {
            listing: None,
            pending: self.pending + paths.reverse().map_values(|p: Seq<char>| (p, level)),
            ..self
        }
    }

    /// Nothing is pending below a level deeper than the deepest.
    pub open spec fn bounded(self) -> bool {
        &&& forall|k: int| 0 <= k < self.pending.len() ==> (#[trigger] self.pending[k]).1 <= MAX_DEPTH
        &&& self.listing matches Some((_, level)) ==> level <= MAX_DEPTH
    }
}

/// Expands roots into a flat send list.
pub struct Collector {
    items: Vec<SendItem>,
    pending: Vec<(String, usize)>,
    listing: Option<(String, usize)>,
    seen: Vec<(u64, u64)>,
    base: Place,
    windows: bool,
}

impl View for Collector {
    type V = CollectorView;

    closed spec fn view(&self) -> CollectorView {
        CollectorView {
            items: transfer::items_view(self.items@),
            pending: self.pending@.map_values(|e: (String, usize)| (e.0@, e.1 as nat)),
            listing: match self.listing {
                Some((p, level)) => Some((p@, level as nat)),
                None => None,
            },
            seen: self.seen@.to_set(),
            base: self.base@,
            windows: self.windows,
        }
    }
}

fn has_identity(seen: &Vec<(u64, u64)>, id: (u64, u64)) -> (found: bool)
    ensures
        found == seen@.contains(id),
{
    for i in 0..seen.len()
        invariant
            forall|k: int| 0 <= k < i ==> #[trigger] seen@[k] != id,
    {
        if seen[i].0 == id.0 && seen[i].1 == id.1 {
            assert(seen@[i as int] == id);
            return true;
        }
    }
    false
}

fn announce(base: &Place, p: &str, windows: bool) -> (rel: Option<String>)
    ensures
        ({
            let q = path::place(p@, windows);
            match rel {
                Some(r) => q.lies_below(base@) && r@ == announced(base@, q),
                None => !q.lies_below(base@),
            }
        }),
{
    match Place::of(p, windows).below(base) {
        Some(r) => Some(text::replace(r.as_str(), '\\', '/')),
        None => None,
    }
}

impl Collector {
    /// A collector of paths, those of Windows or not, that has found nothing and
    /// entered no folder.
    pub fn new(windows: bool) -> (c: Collector)
        ensures
            c@ == (CollectorView {
                items: Seq::empty(),
                pending: Seq::empty(),
                listing: None,
                seen: Set::empty(),
                base: (PlaceView {
                    prefix: Seq::empty(),
                    rooted: false,
                    segments: Seq::empty(),
                }),
                windows,
            }),
            c@.bounded(),
    {
        let c = Collector {
            items: Vec::new(),
            pending: Vec::new(),
            listing: None,
            seen: Vec::new(),
            base: Place::here(),
            windows,
        };
        assert(c@.items =~= Seq::empty());
        assert(c@.pending =~= Seq::empty());
        assert(c@.seen =~= Set::empty());
        c
    }

    /// Take a root and its kind. A folder is to be walked; a file is listed; a
    /// symlink is refused; anything else is passed over.
    pub fn add_root(&mut self, root: &str, kind: Kind) -> (r: Result<(), TransferError>)
        requires
            old(self)@.bounded(),
            old(self)@.pending.len() == 0,
            old(self)@.listing is None,
        ensures
            final(self)@.bounded(),
            match old(self)@.with_root(root@, kind) {
                Ok(next) => r is Ok && final(self)@ == next,
                Err(e) => (r matches Err(x) && x@ == e) && final(self)@ == old(self)@,
            },
    {
        match kind {
            Kind::Symlink => Err(TransferError::SymlinkRoot(root.to_owned())),
            Kind::File => match Place::of(root, self.windows).file_name() {
                Some(name) => {
                    let ghost before = self.items@;
                    let rel_path = text::replace(name.as_str(), '\\', '/');
                    self.items.push(SendItem { source: root.to_owned(), rel_path });
                    assert(transfer::items_view(self.items@) =~= transfer::items_view(before).push(
                        (root@, rel_path@),
                    ));
                    Ok(())
                },
                None => Err(TransferError::InvalidFileName),
            },
            Kind::Dir => {
                self.listing = Some((root.to_owned(), 0));
                self.seen = Vec::new();
                self.base = Place::of(root, self.windows).parent();
                assert(self.seen@.to_set() =~= Set::empty());
                Ok(())
            },
            Kind::Other => Ok(()),
        }
    }

    /// What the collector wants next.
    pub fn next(&self) -> (want: Want)
        ensures
            match want {
                Want::Listing(p) => self@.listing matches Some((q, _)) && p@ == q,
                Want::Entry(p) => self@.listing is None && self@.pending.len() > 0 && p@
                    == self@.pending.last().0,
                Want::Nothing => self@.listing is None && self@.pending.len() == 0,
            },
    {
        match &self.listing {
            Some((p, _)) => Want::Listing(p.clone()),
            None => if self.pending.len() > 0 {
                Want::Entry(self.pending[self.pending.len() - 1].0.clone())
            } else {
                Want::Nothing
            },
        }
    }

    /// Take the paths in the folder whose listing was wanted.
    pub fn on_listing(&mut self, paths: Vec<String>)
        requires
            old(self)@.bounded(),
            old(self)@.listing is Some,
        ensures
            final(self)@.bounded(),
            final(self)@ == old(self)@.with_listing(path::texts(paths@)),
    {
        let level: usize = match &self.listing {
            Some((_, level)) => *level,
            None => 0,
        };
        let ghost before = self.pending@;
        let n: usize = paths.len();
        let mut i: usize = n;
        while i > 0
            invariant
                i <= n,
                n == paths@.len(),
                self.pending@.len() == before.len() + (n - i),
                forall|k: int| 0 <= k < before.len() ==> #[trigger] self.pending@[k] == before[k],
                forall|k: int|
                    before.len() <= k < self.pending@.len() ==> (#[trigger] self.pending@[k]).0@
                        == paths@[n - 1 - (k - before.len())]@ && self.pending@[k].1 == level,
                self.items == old(self).items,
                self.listing == old(self).listing,
                self.seen == old(self).seen,
                self.base == old(self).base,
                self.windows == old(self).windows,
            decreases i,
        {
            i -= 1;
            self.pending.push((paths[i].clone(), level));
        }
        self.listing = None;
        proof {
            let want = old(self)@.with_listing(path::texts(paths@)).pending;
            assert(path::texts(paths@).reverse().len() == n);
            assert(self@.pending =~= want);
        }
    }

    /// Take the kind of the next pending path, and for a directory its
    /// identity where it has one. A directory is entered once, and not too
    /// deep; a file is listed; a symlink or anything else is skipped.
    pub fn on_entry(&mut self, kind: Kind, identity: Option<(u64, u64)>) -> (r: Result<
        (),
        TransferError,
    >)
        requires
            old(self)@.bounded(),
            old(self)@.listing is None,
            old(self)@.pending.len() > 0,
        ensures
            final(self)@.bounded(),
            match old(self)@.with_entry(kind, identity) {
                Ok(next) => r is Ok && final(self)@ == next,
                Err(e) => (r matches Err(x) && x@ == e) && final(self)@ == old(self)@,
            },
    {
        let ghost before = self@;
        let last: usize = self.pending.len() - 1;
        let p = self.pending[last].0.clone();
        let level: usize = self.pending[last].1;
        assert(before.pending.last() == (p@, level as nat));
        match kind {
            Kind::Symlink | Kind::Other => {
                let _ = self.pending.pop();
                assert(self@.pending =~= before.pending.drop_last());
                Ok(())
            },
            Kind::File => match announce(&self.base, p.as_str(), self.windows) {
                Some(rel_path) => {
                    let ghost old_items = self.items@;
                    let _ = self.pending.pop();
                    self.items.push(SendItem { source: p, rel_path });
                    assert(self@.pending =~= before.pending.drop_last());
                    assert(self@.items =~= before.items.push((p@, rel_path@)));
                    Ok(())
                },
                None => Err(TransferError::OutsideRoot),
            },
            Kind::Dir => {
                let known = match identity {
                    Some(id) => has_identity(&self.seen, id),
                    None => false,
                };
                if known {
                    let _ = self.pending.pop();
                    assert(self@.pending =~= before.pending.drop_last());
                    return Ok(());
                }
                if level + 1 > MAX_DEPTH {
                    return Err(TransferError::TooDeep);
                }
                let ghost old_seen = self.seen@;
                if let Some(id) = identity {
                    self.seen.push(id);
                    assert(self.seen@.to_set() =~= old_seen.to_set().insert(id)) by {
                        assert(self.seen@[old_seen.len() as int] == id);
                        assert forall|x: (u64, u64)| old_seen.contains(x) implies self.seen@.contains(
                            x,
                        ) by {
                            let k = choose|k: int| 0 <= k < old_seen.len() && old_seen[k] == x;
                            assert(self.seen@[k] == x);
                        }
                    }
                }
                let _ = self.pending.pop();
                self.listing = Some((p, level + 1));
                assert(self@.pending =~= before.pending.drop_last());
                Ok(())
            },
        }
    }

    /// What was found, in order.
    pub fn into_items(self) -> (items: Vec<SendItem>)
        ensures
            transfer::items_view(items@) == self@.items,
    {
        self.items
    }
}

/// What a path names: its kind, its identity where it has one, and for a
/// directory the paths in it.
pub ghost struct Facts {
    pub kind: Kind,
    pub identity: Option<(u64, u64)>,
    pub children: Seq<Seq<char>>,
}

/// A file system that does not change.
pub type FileSystem = spec_fn(Seq<char>) -> Facts;

/// Walking paths of one level in order, and each folder among them to its end:
/// the files found so far with those below the paths, and the folders entered so
/// far with those entered below the paths.
pub open spec fn walked(
    fs: FileSystem,
    windows: bool,
    base: PlaceView,
    paths: Seq<Seq<char>>,
    level: nat,
    items: Seq<(Seq<char>, Seq<char>)>,
    seen: Set<(u64, u64)>,
) -> Result<(Seq<(Seq<char>, Seq<char>)>, Set<(u64, u64)>), ErrorView>
    decreases MAX_DEPTH + 1 - level, paths.len(),
{
    if paths.len() == 0 {
        Ok((items, seen))
    } else {
        let p = paths[0];
        let rest = paths.drop_first();
        match fs(p).kind {
            Kind::Symlink => walked(fs, windows, base, rest, level, items, seen),
            Kind::Other => walked(fs, windows, base, rest, level, items, seen),
            Kind::File => if path::place(p, windows).lies_below(base) {
                walked(
                    fs,
                    windows,
                    base,
                    rest,
                    level,
                    items.push((p, announced(base, path::place(p, windows)))),
                    seen,
                )
            } else {
                Err(ErrorView::OutsideRoot)
            },
            Kind::Dir => if fs(p).identity matches Some(id) && seen.contains(id) {
                walked(fs, windows, base, rest, level, items, seen)
            } else if level + 1 > MAX_DEPTH {
                Err(ErrorView::TooDeep)
            } else {
                let entered = match fs(p).identity {
                    Some(id) => seen.insert(id),
                    None => seen,
                };
                match walked(fs, windows, base, fs(p).children, level + 1, items, entered) {
                    Ok((items, seen)) => walked(fs, windows, base, rest, level, items, seen),
                    Err(e) => Err(e),
                }
            },
        }
    }
}

/// The collector after it got what it wants next from a file system.
pub open spec fn one_answer(fs: FileSystem, v: CollectorView) -> Result<
    CollectorView,
    ErrorView,
> {
    match v.listing {
        Some((dir, _)) => Ok(v.with_listing(fs(dir).children)),
        None => if v.pending.len() > 0 {
            let p = v.pending.last().0;
            v.with_entry(fs(p).kind, fs(p).identity)
        } else {
            Ok(v)
        },
    }
}

/// The collector after `n` answers from a file system.
pub open spec fn answered(fs: FileSystem, v: CollectorView, n: nat) -> Result<
    CollectorView,
    ErrorView,
>
    decreases n,
{
    if n == 0 {
        Ok(v)
    } else {
        match one_answer(fs, v) {
            Ok(w) => answered(fs, w, (n - 1) as nat),
            Err(e) => Err(e),
        }
    }
}

proof fn lemma_answered_on(fs: FileSystem, v: CollectorView, w: CollectorView, m: nat, n: nat)
    requires
        answered(fs, v, m) == Ok::<CollectorView, ErrorView>(w),
    ensures
        answered(fs, v, m + n) == answered(fs, w, n),
    decreases m,
{
    if m > 0 {
        let x = one_answer(fs, v)->Ok_0;
        lemma_answered_on(fs, x, w, (m - 1) as nat, n);
    }
}

/// Paths of one level as they are pending: the first one last.
pub open spec fn queued(paths: Seq<Seq<char>>, level: nat) -> Seq<(Seq<char>, nat)> {
    paths.reverse().map_values(|p: Seq<char>| (p, level))
}

proof fn lemma_walk(
    fs: FileSystem,
    v: CollectorView,
    below: Seq<(Seq<char>, nat)>,
    paths: Seq<Seq<char>>,
    level: nat,
) -> (n: nat)
    requires
        v.listing is None,
        v.pending == below + queued(paths, level),
        level <= MAX_DEPTH,
    ensures
        answered(fs, v, n) == match walked(fs, v.windows, v.base, paths, level, v.items, v.seen) {
            Ok((items, seen)) => Ok::<CollectorView, ErrorView>(
                CollectorView { items, seen, pending: below, ..v },
            ),
            Err(e) => Err::<CollectorView, ErrorView>(e),
        },
    decreases MAX_DEPTH + 1 - level, paths.len(),
{
    if paths.len() == 0 {
        assert(v.pending =~= below);
        0
    } else {
        let p = paths[0];
        let rest = paths.drop_first();
        assert(paths.reverse().last() == p);
        assert(v.pending.last() == (p, level));
        assert(queued(paths, level).drop_last() =~= queued(rest, level));
        assert(v.pending.drop_last() =~= below + queued(rest, level));
        match one_answer(fs, v) {
            Err(_) => 1,
            Ok(w) => {
                assert(answered(fs, v, 1) == Ok::<CollectorView, ErrorView>(w)) by {
                    assert(answered(fs, w, 0) == Ok::<CollectorView, ErrorView>(w));
                }
                if w.listing is None {
                    let n = lemma_walk(fs, w, below, rest, level);
                    lemma_answered_on(fs, v, w, 1, n);
                    1 + n
                } else {
                    let x = w.with_listing(fs(p).children);
                    let under = below + queued(rest, level);
                    assert(x.pending =~= under + queued(fs(p).children, level + 1));
                    assert(answered(fs, w, 1) == Ok::<CollectorView, ErrorView>(x)) by {
                        assert(answered(fs, x, 0) == Ok::<CollectorView, ErrorView>(x));
                    }
                    lemma_answered_on(fs, v, w, 1, 1);
                    let m = lemma_walk(fs, x, under, fs(p).children, level + 1);
                    lemma_answered_on(fs, v, x, 2, m);
                    match walked(fs, x.windows, x.base, fs(p).children, level + 1, x.items, x.seen) {
                        Err(_) => 2 + m,
                        Ok((items, seen)) => {
                            let y = CollectorView { items, seen, pending: under, ..x };
                            let n = lemma_walk(fs, y, below, rest, level);
                            lemma_answered_on(fs, v, y, 2 + m, n);
                            2 + m + n
                        },
                    }
                }
            },
        }
    }
}

/// Walking a root folder of an unchanging file system ends, and finds exactly
/// the files below it, each folder once and in order, without following a
/// symlink; or it is refused with the first problem on the way.
pub proof fn law_folder_is_walked(fs: FileSystem, v: CollectorView, root: Seq<char>) -> (n: nat)
    requires
        v.listing is None,
        v.pending.len() == 0,
    ensures
        ({
            let base = base_of(root, v.windows);
            let windows = v.windows;
            let start = v.with_root(root, Kind::Dir)->Ok_0;
            answered(fs, start, n) == match walked(
                fs,
                windows,
                base,
                fs(root).children,
                0,
                v.items,
                Set::empty(),
            ) {
                Ok((items, seen)) => Ok::<CollectorView, ErrorView>(
                    CollectorView { items, seen, base, ..v },
                ),
                Err(e) => Err::<CollectorView, ErrorView>(e),
            }
        }),
{
    let start = v.with_root(root, Kind::Dir)->Ok_0;
    let x = start.with_listing(fs(root).children);
    assert(x.pending =~= v.pending + queued(fs(root).children, 0));
    assert(answered(fs, start, 1) == Ok::<CollectorView, ErrorView>(x)) by {
        assert(answered(fs, x, 0) == Ok::<CollectorView, ErrorView>(x));
    }
    let n = lemma_walk(fs, x, v.pending, fs(root).children, 0);
    lemma_answered_on(fs, start, x, 1, n);
    1 + n
}

/// Only files are ever listed: nothing that a symlink names, and nothing that is
/// neither a file nor a folder. What was listed before stays, and every announced
/// path is that of its file below `base`.
pub proof fn law_only_files_are_listed(
    fs: FileSystem,
    windows: bool,
    base: PlaceView,
    paths: Seq<Seq<char>>,
    level: nat,
    items: Seq<(Seq<char>, Seq<char>)>,
    seen: Set<(u64, u64)>,
)
    requires
        level <= MAX_DEPTH,
        walked(fs, windows, base, paths, level, items, seen) is Ok,
    ensures
        ({
            let found = walked(fs, windows, base, paths, level, items, seen)->Ok_0.0;
            &&& items.is_prefix_of(found)
            &&& forall|k: int|
                items.len() <= k < found.len() ==> fs((#[trigger] found[k]).0).kind == Kind::File
                    && path::place(found[k].0, windows).lies_below(base) && found[k].1
                    == announced(base, path::place(found[k].0, windows))
        }),
    decreases MAX_DEPTH + 1 - level, paths.len(),
{
    if paths.len() > 0 {
        let p = paths[0];
        let rest = paths.drop_first();
        let found = walked(fs, windows, base, paths, level, items, seen)->Ok_0.0;
        match fs(p).kind {
            Kind::Symlink => law_only_files_are_listed(fs, windows, base, rest, level, items, seen),
            Kind::Other => law_only_files_are_listed(fs, windows, base, rest, level, items, seen),
            Kind::File => {
                let more = items.push((p, announced(base, path::place(p, windows))));
                law_only_files_are_listed(fs, windows, base, rest, level, more, seen);
                assert(found[items.len() as int] == more[items.len() as int]);
                assert(items =~= found.subrange(0, items.len() as int)) by {
                    assert forall|k: int| 0 <= k < items.len() implies items[k] == found[k] by {
                        assert(more[k] == found.subrange(0, more.len() as int)[k]);
                    }
                }
            },
            Kind::Dir => if fs(p).identity matches Some(id) && seen.contains(id) {
                law_only_files_are_listed(fs, windows, base, rest, level, items, seen);
            } else {
                let entered = match fs(p).identity {
                    Some(id) => seen.insert(id),
                    None => seen,
                };
                let (inner, after) = walked(
                    fs,
                    windows,
                    base,
                    fs(p).children,
                    level + 1,
                    items,
                    entered,
                )->Ok_0;
                law_only_files_are_listed(fs, windows, base, fs(p).children, level + 1, items, entered);
                law_only_files_are_listed(fs, windows, base, rest, level, inner, after);
                assert forall|k: int| 0 <= k < inner.len() implies inner[k] == found[k] by {
                    assert(inner[k] == found.subrange(0, inner.len() as int)[k]);
                }
                assert(items =~= found.subrange(0, items.len() as int)) by {
                    assert forall|k: int| 0 <= k < items.len() implies items[k] == found[k] by {
                        assert(items[k] == inner.subrange(0, items.len() as int)[k]);
                    }
                }
            },
        }
    } else {
        assert(items =~= items.subrange(0, items.len() as int));
    }
}

proof fn lemma_slashed_has_no_backslash(segs: Seq<Seq<char>>)
    requires
        forall|k: int| 0 <= k < segs.len() ==> !(#[trigger] segs[k]).contains('\\'),
    ensures
        !path::slashed(segs).contains('\\'),
    decreases segs.len(),
{
    if segs.len() == 1 {
        assert(!segs[0].contains('\\'));
    } else if segs.len() > 1 {
        let front = segs.drop_last();
        assert forall|k: int| 0 <= k < front.len() implies !(#[trigger] front[k]).contains('\\') by {
            assert(front[k] == segs[k]);
        }
        lemma_slashed_has_no_backslash(front);
        let t = path::slashed(front);
        let s = path::slashed(segs);
        assert(!segs.last().contains('\\'));
        assert forall|k: int| 0 <= k < s.len() implies s[k] != '\\' by {
            if k < t.len() {
                assert(s[k] == t[k]);
            } else if k > t.len() {
                assert(s[k] == segs.last()[k - t.len() - 1]);
            }
        }
    }
}

/// The structure of a folder is preserved: a file of it that the receiver takes
/// lands below the receiver's directory just as it lies below what holds the
/// folder, unless a name in it has a backslash.
pub proof fn law_structure_is_preserved(
    base: PlaceView,
    p: Seq<char>,
    dest_dir: Seq<char>,
    windows: bool,
)
    requires
        path::place(p, windows).lies_below(base),
        transfer::path_problem(announced(base, path::place(p, windows)), windows) is None,
        ({
            let segs = path::place(p, windows).segments;
            forall|k: int|
                base.segments.len() <= k < segs.len() ==> !(#[trigger] segs[k]).contains('\\')
        }),
    ensures
        path::segments(path::joined(dest_dir, announced(base, path::place(p, windows))))
            == path::segments(dest_dir) + path::place(p, windows).segments.skip(
            base.segments.len() as int,
        ),
{
    let q = path::place(p, windows);
    let n = base.segments.len() as int;
    let below = q.segments.skip(n);
    path::lemma_place_plain(p, windows);
    assert forall|k: int| 0 <= k < below.len() implies (#[trigger] below[k]).len() > 0
        && !below[k].contains('/') && (below[k] == seq!['.'] ==> k == 0) && !below[k].contains(
        '\\',
    ) by {
        assert(below[k] == q.segments[k + n]);
    }
    lemma_slashed_has_no_backslash(below);
    let t = path::slashed(below);
    assert(announced(base, q) =~= t) by {
        assert forall|k: int| 0 <= k < t.len() implies t[k] != '\\' by {
            assert(t.contains(t[k]));
        }
    }
    path::lemma_rendered_segments(false, below);
    transfer::law_confined_path_lies_in_dir(dest_dir, announced(base, q), windows);
}

/// Whether an identity was known before, or is that of one of the folders.
pub open spec fn is_known(
    fs: FileSystem,
    folders: Set<Seq<char>>,
    seen: Set<(u64, u64)>,
    id: (u64, u64),
) -> bool {
    seen.contains(id) || exists|d: Seq<char>| #[trigger]
        folders.contains(d) && fs(d).identity == Some(id)
}

/// Whether a path is not left out: a file is among the found ones, and a folder is
/// among those that were entered, or is the same as one that was.
pub open spec fn is_accounted_for(
    fs: FileSystem,
    found: Seq<(Seq<char>, Seq<char>)>,
    folders: Set<Seq<char>>,
    seen: Set<(u64, u64)>,
    p: Seq<char>,
) -> bool {
    match fs(p).kind {
        Kind::File => exists|k: int| 0 <= k < found.len() && (#[trigger] found[k]).0 == p,
        Kind::Dir => folders.contains(p) || (fs(p).identity matches Some(id) && is_known(
            fs,
            folders,
            seen,
            id,
        )),
        _ => true,
    }
}

/// Whether every path of a list is accounted for.
pub open spec fn all_accounted_for(
    fs: FileSystem,
    found: Seq<(Seq<char>, Seq<char>)>,
    folders: Set<Seq<char>>,
    seen: Set<(u64, u64)>,
    paths: Seq<Seq<char>>,
) -> bool {
    forall|i: int|
        0 <= i < paths.len() ==> is_accounted_for(fs, found, folders, seen, #[trigger] paths[i])
}

/// Whether a path is one of a list, or lies directly in one of the folders.
pub open spec fn comes_from(
    fs: FileSystem,
    folders: Set<Seq<char>>,
    paths: Seq<Seq<char>>,
    p: Seq<char>,
) -> bool {
    paths.contains(p) || exists|d: Seq<char>| #[trigger]
        folders.contains(d) && fs(d).children.contains(p)
}

/// What holds of the folders that a walk entered: all that lies in them is
/// accounted for, and they come from the paths that were walked.
pub open spec fn walked_whole(
    fs: FileSystem,
    found: Seq<(Seq<char>, Seq<char>)>,
    folders: Set<Seq<char>>,
    seen: Set<(u64, u64)>,
    paths: Seq<Seq<char>>,
) -> bool {
    &&& all_accounted_for(fs, found, folders, seen, paths)
    &&& forall|d: Seq<char>| #[trigger]
        folders.contains(d) ==> fs(d).kind == Kind::Dir && comes_from(fs, folders, paths, d)
            && all_accounted_for(fs, found, folders, seen, fs(d).children)
}

proof fn lemma_more_accounts_too(
    fs: FileSystem,
    found: Seq<(Seq<char>, Seq<char>)>,
    folders: Set<Seq<char>>,
    seen: Set<(u64, u64)>,
    more_found: Seq<(Seq<char>, Seq<char>)>,
    more_folders: Set<Seq<char>>,
    first_seen: Set<(u64, u64)>,
    paths: Seq<Seq<char>>,
)
    requires
        all_accounted_for(fs, found, folders, seen, paths),
        found.is_prefix_of(more_found),
        folders.subset_of(more_folders),
        forall|id: (u64, u64)| #[trigger]
            seen.contains(id) ==> is_known(fs, more_folders, first_seen, id),
    ensures
        all_accounted_for(fs, more_found, more_folders, first_seen, paths),
{
    assert forall|i: int| 0 <= i < paths.len() implies is_accounted_for(
        fs,
        more_found,
        more_folders,
        first_seen,
        #[trigger] paths[i],
    ) by {
        let p = paths[i];
        assert(is_accounted_for(fs, found, folders, seen, p));
        match fs(p).kind {
            Kind::File => {
                let k = choose|k: int| 0 <= k < found.len() && (#[trigger] found[k]).0 == p;
                assert(found == more_found.subrange(0, found.len() as int));
                assert(more_found[k] == found[k]);
            },
            Kind::Dir => if !folders.contains(p) {
                let id = fs(p).identity->0;
                if !seen.contains(id) {
                    let d = choose|d: Seq<char>| #[trigger]
                        folders.contains(d) && fs(d).identity == Some(id);
                    assert(more_folders.contains(d));
                }
            },
            _ => {},
        }
    }
}

/// A walk that succeeds leaves nothing out: every regular file among the walked
/// paths, and every one that lies in a folder that was entered, is found; and a
/// folder is passed by only where the same folder was entered before. Nothing else
/// is found. The result is the set of the folders that were entered.
pub proof fn law_walk_is_complete(
    fs: FileSystem,
    windows: bool,
    base: PlaceView,
    paths: Seq<Seq<char>>,
    level: nat,
    items: Seq<(Seq<char>, Seq<char>)>,
    seen: Set<(u64, u64)>,
) -> (folders: Set<Seq<char>>)
    requires
        level <= MAX_DEPTH,
        walked(fs, windows, base, paths, level, items, seen) is Ok,
    ensures
        ({
            let (found, after) = walked(fs, windows, base, paths, level, items, seen)->Ok_0;
            &&& items.is_prefix_of(found)
            &&& walked_whole(fs, found, folders, seen, paths)
            &&& forall|id: (u64, u64)| #[trigger]
                after.contains(id) ==> is_known(fs, folders, seen, id)
            &&& forall|id: (u64, u64)| #[trigger] seen.contains(id) ==> after.contains(id)
            &&& forall|k: int|
                items.len() <= k < found.len() ==> comes_from(
                    fs,
                    folders,
                    paths,
                    (#[trigger] found[k]).0,
                )
        }),
    decreases MAX_DEPTH + 1 - level, paths.len(),
{
    let (found, after) = walked(fs, windows, base, paths, level, items, seen)->Ok_0;
    law_only_files_are_listed(fs, windows, base, paths, level, items, seen);
    if paths.len() == 0 {
        Set::empty()
    } else {
        let p = paths[0];
        let rest = paths.drop_first();
        assert forall|i: int| 0 <= i < paths.len() implies (i == 0 && paths[i] == p) || (i > 0
            && paths[i] == rest[i - 1]) by {}
        assert forall|q: Seq<char>| #[trigger] rest.contains(q) implies paths.contains(q) by {
            let i = choose|i: int| 0 <= i < rest.len() && rest[i] == q;
            assert(paths[i + 1] == q);
        }
        assert(paths.contains(p)) by {
            assert(paths[0] == p);
        }
        let enters = fs(p).kind == Kind::Dir && !(fs(p).identity matches Some(id) && seen.contains(
            id,
        ));
        if !enters {
            let more = if fs(p).kind == Kind::File {
                items.push((p, announced(base, path::place(p, windows))))
            } else {
                items
            };
            let folders = law_walk_is_complete(fs, windows, base, rest, level, more, seen);
            lemma_first_is_accounted_for(fs, found, folders, seen, paths, more);
            assert forall|d: Seq<char>| #[trigger] folders.contains(d) implies comes_from(
                fs,
                folders,
                paths,
                d,
            ) by {
                assert(comes_from(fs, folders, rest, d));
            }
            assert forall|k: int| items.len() <= k < found.len() implies comes_from(
                fs,
                folders,
                paths,
                (#[trigger] found[k]).0,
            ) by {
                if k < more.len() {
                    assert(more == found.subrange(0, more.len() as int));
                    assert(found[k] == more[k]);
                } else {
                    assert(comes_from(fs, folders, rest, found[k].0));
                }
            }
            folders
        } else {
            let children = fs(p).children;
            let entered = match fs(p).identity {
                Some(id) => seen.insert(id),
                None => seen,
            };
            let (inner, between) = walked(
                fs,
                windows,
                base,
                children,
                level + 1,
                items,
                entered,
            )->Ok_0;
            let below = law_walk_is_complete(
                fs,
                windows,
                base,
                children,
                level + 1,
                items,
                entered,
            );
            let beside = law_walk_is_complete(fs, windows, base, rest, level, inner, between);
            let folders = below.union(beside).insert(p);
            assert(below.subset_of(folders) && beside.subset_of(folders) && folders.contains(p));
            assert forall|id: (u64, u64)| #[trigger] entered.contains(id) implies is_known(
                fs,
                folders,
                seen,
                id,
            ) by {
                if !seen.contains(id) {
                    assert(folders.contains(p) && fs(p).identity == Some(id));
                }
            }
            assert forall|id: (u64, u64)| #[trigger] between.contains(id) implies is_known(
                fs,
                folders,
                seen,
                id,
            ) by {
                assert(is_known(fs, below, entered, id));
                if !entered.contains(id) {
                    let d = choose|d: Seq<char>| #[trigger]
                        below.contains(d) && fs(d).identity == Some(id);
                    assert(folders.contains(d));
                }
            }
            assert forall|id: (u64, u64)| #[trigger] after.contains(id) implies is_known(
                fs,
                folders,
                seen,
                id,
            ) by {
                assert(is_known(fs, beside, between, id));
                if !between.contains(id) {
                    let d = choose|d: Seq<char>| #[trigger]
                        beside.contains(d) && fs(d).identity == Some(id);
                    assert(folders.contains(d));
                }
            }
            assert forall|id: (u64, u64)| #[trigger] seen.contains(id) implies after.contains(
                id,
            ) by {
                assert(entered.contains(id));
                assert(between.contains(id));
            }
            lemma_prefix(items, inner, found);
            lemma_more_accounts_too(fs, inner, below, entered, found, folders, seen, children);
            lemma_more_accounts_too(fs, found, beside, between, found, folders, seen, rest);
            assert forall|d: Seq<char>| #[trigger] folders.contains(d) implies fs(d).kind
                == Kind::Dir && comes_from(fs, folders, paths, d) && all_accounted_for(
                fs,
                found,
                folders,
                seen,
                fs(d).children,
            ) by {
                if below.contains(d) {
                    lemma_more_accounts_too(
                        fs,
                        inner,
                        below,
                        entered,
                        found,
                        folders,
                        seen,
                        fs(d).children,
                    );
                    lemma_still_comes_from(fs, below, children, folders, paths, p, d);
                } else if beside.contains(d) {
                    lemma_more_accounts_too(
                        fs,
                        found,
                        beside,
                        between,
                        found,
                        folders,
                        seen,
                        fs(d).children,
                    );
                    lemma_still_comes_from(fs, beside, rest, folders, paths, p, d);
                }
            }
            assert forall|i: int| 0 <= i < paths.len() implies is_accounted_for(
                fs,
                found,
                folders,
                seen,
                #[trigger] paths[i],
            ) by {
                if i > 0 {
                    assert(paths[i] == rest[i - 1]);
                    assert(is_accounted_for(fs, found, folders, seen, rest[i - 1]));
                }
            }
            assert forall|k: int| items.len() <= k < found.len() implies comes_from(
                fs,
                folders,
                paths,
                (#[trigger] found[k]).0,
            ) by {
                if k < inner.len() {
                    assert(inner == found.subrange(0, inner.len() as int));
                    assert(found[k] == inner[k]);
                    lemma_still_comes_from(fs, below, children, folders, paths, p, inner[k].0);
                } else {
                    lemma_still_comes_from(fs, beside, rest, folders, paths, p, found[k].0);
                }
            }
            folders
        }
    }
}

proof fn lemma_prefix<A>(a: Seq<A>, b: Seq<A>, c: Seq<A>)
    requires
        a.is_prefix_of(b),
        b.is_prefix_of(c),
    ensures
        a.is_prefix_of(c),
{
    assert(a =~= c.subrange(0, a.len() as int)) by {
        assert(b == c.subrange(0, b.len() as int));
        assert(a == b.subrange(0, a.len() as int));
    }
}

proof fn lemma_still_comes_from(
    fs: FileSystem,
    some: Set<Seq<char>>,
    few: Seq<Seq<char>>,
    folders: Set<Seq<char>>,
    paths: Seq<Seq<char>>,
    p: Seq<char>,
    q: Seq<char>,
)
    requires
        comes_from(fs, some, few, q),
        some.subset_of(folders),
        folders.contains(p),
        few == fs(p).children || (forall|x: Seq<char>| #[trigger]
            few.contains(x) ==> paths.contains(x)),
    ensures
        comes_from(fs, folders, paths, q),
{
    if !few.contains(q) {
        let d = choose|d: Seq<char>| #[trigger] some.contains(d) && fs(d).children.contains(q);
        assert(folders.contains(d));
    } else if !paths.contains(q) {
        assert(folders.contains(p) && fs(p).children.contains(q));
    }
}

proof fn lemma_first_is_accounted_for(
    fs: FileSystem,
    found: Seq<(Seq<char>, Seq<char>)>,
    folders: Set<Seq<char>>,
    seen: Set<(u64, u64)>,
    paths: Seq<Seq<char>>,
    more: Seq<(Seq<char>, Seq<char>)>,
)
    requires
        paths.len() > 0,
        all_accounted_for(fs, found, folders, seen, paths.drop_first()),
        more.is_prefix_of(found),
        fs(paths[0]).kind == Kind::File ==> more.len() > 0 && more.last().0 == paths[0],
        fs(paths[0]).kind == Kind::Dir ==> (fs(paths[0]).identity matches Some(id)
            && seen.contains(id)),
    ensures
        all_accounted_for(fs, found, folders, seen, paths),
{
    let p = paths[0];
    let rest = paths.drop_first();
    assert(is_accounted_for(fs, found, folders, seen, p)) by {
        if fs(p).kind == Kind::File {
            assert(more == found.subrange(0, more.len() as int));
            assert(found[more.len() - 1] == more.last());
        }
    }
    assert forall|i: int| 0 <= i < paths.len() implies is_accounted_for(
        fs,
        found,
        folders,
        seen,
        #[trigger] paths[i],
    ) by {
        if i > 0 {
            assert(paths[i] == rest[i - 1]);
            assert(is_accounted_for(fs, found, folders, seen, rest[i - 1]));
        }
    }
}

/// Paths are walked one after the other: walking two lists is walking the one and
/// then the other, with what the first walk found and entered.
pub proof fn law_walk_goes_in_order(
    fs: FileSystem,
    windows: bool,
    base: PlaceView,
    paths: Seq<Seq<char>>,
    more: Seq<Seq<char>>,
    level: nat,
    items: Seq<(Seq<char>, Seq<char>)>,
    seen: Set<(u64, u64)>,
)
    requires
        level <= MAX_DEPTH,
    ensures
        walked(fs, windows, base, paths + more, level, items, seen) == (match walked(
            fs,
            windows,
            base,
            paths,
            level,
            items,
            seen,
        ) {
            Ok((found, after)) => walked(fs, windows, base, more, level, found, after),
            Err(e) => Err(e),
        }),
    decreases paths.len(),
{
    if paths.len() == 0 {
        assert(paths + more =~= more);
    } else {
        let p = paths[0];
        let rest = paths.drop_first();
        assert((paths + more)[0] == p);
        assert((paths + more).drop_first() =~= rest + more);
        match fs(p).kind {
            Kind::File => {
                let next = items.push((p, announced(base, path::place(p, windows))));
                law_walk_goes_in_order(fs, windows, base, rest, more, level, next, seen);
            },
            Kind::Dir => if fs(p).identity matches Some(id) && seen.contains(id) {
                law_walk_goes_in_order(fs, windows, base, rest, more, level, items, seen);
            } else if level + 1 <= MAX_DEPTH {
                let entered = match fs(p).identity {
                    Some(id) => seen.insert(id),
                    None => seen,
                };
                if let Ok((inner, between)) = walked(
                    fs,
                    windows,
                    base,
                    fs(p).children,
                    level + 1,
                    items,
                    entered,
                ) {
                    law_walk_goes_in_order(fs, windows, base, rest, more, level, inner, between);
                }
            },
            _ => law_walk_goes_in_order(fs, windows, base, rest, more, level, items, seen),
        }
    }
}

/// One path more: a file below the base is listed once, under its own path; a
/// symlink and anything else that is neither file nor folder is passed by; a
/// folder gives what lies in it, unless it was entered before, and not below the
/// sixty-fourth level.
pub proof fn law_walk_of_one_path(
    fs: FileSystem,
    windows: bool,
    base: PlaceView,
    p: Seq<char>,
    level: nat,
    items: Seq<(Seq<char>, Seq<char>)>,
    seen: Set<(u64, u64)>,
)
    requires
        level <= 64,
    ensures
        ({
            let r = walked(fs, windows, base, seq![p], level, items, seen);
            let place = path::place(p, windows);
            &&& fs(p).kind == Kind::Symlink || fs(p).kind == Kind::Other ==> r == Ok::<
                _,
                ErrorView,
            >((items, seen))
            &&& fs(p).kind == Kind::File && place.lies_below(base) ==> r == Ok::<_, ErrorView>(
                (
                    items.push((p, text::replaced(place.below(base), '\\', '/'))),
                    seen,
                ),
            )
            &&& fs(p).kind == Kind::File && !place.lies_below(base) ==> r is Err
            &&& fs(p).kind == Kind::Dir && fs(p).identity is Some && seen.contains(
                fs(p).identity->0,
            ) ==> r == Ok::<_, ErrorView>((items, seen))
            &&& fs(p).kind == Kind::Dir && fs(p).identity is None && level < 64 ==> r == walked(
                fs,
                windows,
                base,
                fs(p).children,
                level + 1,
                items,
                seen,
            )
            &&& fs(p).kind == Kind::Dir && fs(p).identity is Some && !seen.contains(
                fs(p).identity->0,
            ) && level < 64 ==> r == walked(
                fs,
                windows,
                base,
                fs(p).children,
                level + 1,
                items,
                seen.insert(fs(p).identity->0),
            )
            &&& fs(p).kind == Kind::Dir && fs(p).identity is None && level == 64 ==> r is Err
        }),
{
    reveal_with_fuel(walked, 2);
    let one = seq![p];
    assert(one.drop_first() =~= Seq::empty());
}

/// A root that is a file is listed under its own name; a symlink is refused; a
/// folder is walked from what holds it, so that its own name stays in front.
pub proof fn law_roots(v: CollectorView, root: Seq<char>)
    ensures
        v.with_root(root, Kind::Symlink) == Err::<CollectorView, ErrorView>(
            ErrorView::SymlinkRoot(root),
        ),
        v.with_root(root, Kind::Other) == Ok::<CollectorView, ErrorView>(v),
        ({
            let segs = path::place(root, v.windows).segments;
            let named = segs.len() > 0 && segs.last() != seq!['.'] && segs.last() != seq!['.', '.'];
            &&& v.with_root(root, Kind::File) is Ok <==> named
            &&& v.with_root(root, Kind::File) matches Ok(w) ==> w.items == v.items.push(
                (root, text::replaced(segs.last(), '\\', '/')),
            ) && w.pending == v.pending && w.listing == v.listing
            &&& v.with_root(root, Kind::Dir) matches Ok(w) && w.items == v.items && w.listing
                == Some((root, 0nat)) && (segs.len() > 0 ==> w.base.segments.push(segs.last())
                == segs && w.base.prefix == path::place(root, v.windows).prefix && w.base.rooted
                == path::place(root, v.windows).rooted)
        }),
{
    let segs = path::place(root, v.windows).segments;
    if segs.len() > 0 {
        assert(segs.drop_last().push(segs.last()) =~= segs);
    }
}

/// A pending path is taken up once, whatever it is called: a file below the chosen
/// folder is listed behind all that was listed before, a folder not met before is
/// looked into, and everything else is left out. Only a file elsewhere and a folder
/// below sixty-four others end the collecting.
pub proof fn law_one_entry(c: CollectorView, kind: Kind, identity: Option<(u64, u64)>)
    requires
        c.pending.len() > 0,
    ensures
        ({
            let (p, level) = c.pending.last();
            let below = path::place(p, c.windows).lies_below(c.base);
            let met = identity is Some && c.seen.contains(identity->0);
            let after = c.with_entry(kind, identity);
            &&& after is Ok <==> (kind is File ==> below) && (kind is Dir && !met ==> level < 64)
            &&& after matches Ok(n) ==> {
                &&& n.pending.push((p, level)) == c.pending
                &&& n.base == c.base && n.windows == c.windows
                &&& kind is File ==> n.items.len() == c.items.len() + 1 && n.items.last().0 == p
                    && n.items.drop_last() == c.items
                &&& !(kind is File) ==> n.items == c.items
                &&& kind is Dir && !met ==> n.listing == Some((p, level + 1)) && (identity is Some
                    ==> n.seen.contains(identity->0))
                &&& !(kind is Dir) || met ==> n.listing == c.listing && n.seen == c.seen
                &&& forall|id: (u64, u64)| #[trigger]
                    n.seen.contains(id) ==> c.seen.contains(id) || identity == Some(id)
            }
            &&& after matches Err(e) ==> e == (if kind is File {
                ErrorView::OutsideRoot
            } else {
                ErrorView::TooDeep
            })
        }),
{
    assert(c.pending.drop_last().push(c.pending.last()) =~= c.pending);
    if let Ok(n) = c.with_entry(kind, identity) {
        if kind is File {
            assert(n.items.drop_last() =~= c.items);
        }
    }
}

/// What a folder holds is taken up path by path, the first one next, and before all
/// that was pending.
pub proof fn law_one_listing(c: CollectorView, paths: Seq<Seq<char>>, i: int)
    requires
        c.listing is Some,
        0 <= i < paths.len(),
    ensures
        ({
            let n = c.with_listing(paths);
            &&& n.pending.len() == c.pending.len() + paths.len()
            &&& n.pending[n.pending.len() - 1 - i] == (paths[i], (c.listing->0).1)
            &&& n.pending.take(c.pending.len() as int) == c.pending
            &&& n.listing is None && n.items == c.items && n.seen == c.seen && n.base == c.base
        }),
{
    let n = c.with_listing(paths);
    assert(n.pending.take(c.pending.len() as int) =~= c.pending);
}

} // verus!
