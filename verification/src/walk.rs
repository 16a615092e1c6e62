//! The asset tree walker.
//!
//! The walker enumerates every regular file under the asset root, one
//! directory listing at a time, with an explicit work-list of pending
//! directories instead of recursion so that deep trees cannot exhaust the
//! stack. Route paths are relative to the root, forward-slash separated and
//! begin with `'/'` whatever the host filesystem's convention. Exactly one
//! file is skipped: the reserved entry document directly at the root, whose
//! response the server-rendering fallback generates instead. Listing the
//! directories themselves is the caller's part; the walker decides what each
//! listing contributes.

use vstd::prelude::*;

verus! {

/// One entry of a directory listing, as the caller read it: the entry's
/// name, its full filesystem path, and whether it is itself a directory.
pub struct DirEntryInfo {
    pub name: String,
    pub fs_path: String,
    pub is_dir: bool,
}

/// The mathematical image of a `DirEntryInfo`.
#[verifier::ext_equal]
pub struct DirEntryInfoV {
    pub name: Seq<char>,
    pub fs_path: Seq<char>,
    pub is_dir: bool,
}

impl View for DirEntryInfo {
    type V = DirEntryInfoV;

    open spec fn view(&self) -> DirEntryInfoV {
        DirEntryInfoV { name: self.name@, fs_path: self.fs_path@, is_dir: self.is_dir }
    }
}

/// A regular file found under the asset root: its route path and the
/// filesystem path it is served from.
pub struct AssetFile {
    pub route_path: String,
    pub fs_path: String,
}

/// The mathematical image of an `AssetFile`.
#[verifier::ext_equal]
pub struct AssetFileV {
    pub route_path: Seq<char>,
    pub fs_path: Seq<char>,
}

impl View for AssetFile {
    type V = AssetFileV;

    open spec fn view(&self) -> AssetFileV {
        AssetFileV { route_path: self.route_path@, fs_path: self.fs_path@ }
    }
}

/// A directory waiting to be listed: its route path relative to the root
/// (empty for the root itself) and its filesystem path.
pub struct PendingDir {
    pub route_path: String,
    pub fs_path: String,
}

/// The mathematical image of a `PendingDir`.
#[verifier::ext_equal]
pub struct PendingDirV {
    pub route_path: Seq<char>,
    pub fs_path: Seq<char>,
}

impl View for PendingDir {
    type V = PendingDirV;

    open spec fn view(&self) -> PendingDirV {
        PendingDirV { route_path: self.route_path@, fs_path: self.fs_path@ }
    }
}

/// The images of a sequence of directory entries.
pub open spec fn dir_entries_view(s: Seq<DirEntryInfo>) -> Seq<DirEntryInfoV> {
    s.map_values(|e: DirEntryInfo| e@)
}

/// The images of a sequence of asset files.
pub open spec fn files_view(s: Seq<AssetFile>) -> Seq<AssetFileV> {
    s.map_values(|f: AssetFile| f@)
}

/// The images of a sequence of pending directories.
pub open spec fn pending_view(s: Seq<PendingDir>) -> Seq<PendingDirV> {
    s.map_values(|d: PendingDir| d@)
}

/// The route path of an entry named `name` inside the directory whose route
/// path is `dir_route`.
pub open spec fn child_route(dir_route: Seq<char>, name: Seq<char>) -> Seq<char> {
    dir_route + seq!['/'] + name
}

/// The reserved entry document, skipped when it stands directly at the root.
pub open spec fn reserved_entry_name() -> Seq<char> {
    seq!['i', 'n', 'd', 'e', 'x', '.', 'h', 't', 'm', 'l']
}

/// Whether a listed entry becomes an asset file: it must be a regular file,
/// and not the reserved entry document at the root.
pub open spec fn keeps_entry(dir_route: Seq<char>, e: DirEntryInfoV) -> bool {
    &&& !e.is_dir
    &&& !(dir_route.len() == 0 && e.name == reserved_entry_name())
}

/// The asset files that the listing `entries` of the directory at
/// `dir_route` contributes, in listing order.
pub open spec fn kept_files(dir_route: Seq<char>, entries: Seq<DirEntryInfoV>) -> Seq<AssetFileV>
    decreases entries.len(),
{
    if entries.len() == 0 {
        Seq::empty()
    } else {
        kept_files(dir_route, entries.drop_last()) + if keeps_entry(dir_route, entries.last()) {
            seq![
                AssetFileV {
                    route_path: child_route(dir_route, entries.last().name),
                    fs_path: entries.last().fs_path,
                },
            ]
        } else {
            Seq::empty()
        }
    }
}

/// The subdirectories that the listing `entries` of the directory at
/// `dir_route` adds to the work-list, in listing order.
pub open spec fn subdirs(dir_route: Seq<char>, entries: Seq<DirEntryInfoV>) -> Seq<PendingDirV>
    decreases entries.len(),
{
    if entries.len() == 0 {
        Seq::empty()
    } else {
        subdirs(dir_route, entries.drop_last()) + if entries.last().is_dir {
            seq![
                PendingDirV {
                    route_path: child_route(dir_route, entries.last().name),
                    fs_path: entries.last().fs_path,
                },
            ]
        } else {
            Seq::empty()
        }
    }
}

/// The walk in progress: directories still to list, and the asset files
/// found so far.
pub struct AssetWalk {
    pub pending: Vec<PendingDir>,
    pub files: Vec<AssetFile>,
}

impl AssetWalk {
    /// Begins a walk whose single pending directory is the asset root.
    pub fn new(root_fs_path: String) -> (s: Self)
        ensures
            pending_view(s.pending@) == seq![
                PendingDirV { route_path: Seq::empty(), fs_path: root_fs_path@ },
            ],
            s.files@.len() == 0,
    {
        let mut pending: Vec<PendingDir> = Vec::new();
        pending.push(PendingDir { route_path: String::new(), fs_path: root_fs_path });
        let s = AssetWalk { pending, files: Vec::new() };
        proof {
            assert(pending_view(s.pending@) =~= seq![
                PendingDirV { route_path: Seq::<char>::empty(), fs_path: s.pending@[0].fs_path@ },
            ]);
        }
        s
    }

    /// Takes the next directory to list, if any remains. The walk is done
    /// when this returns `None`.
    pub fn next_dir(&mut self) -> (r: Option<PendingDir>)
        ensures
            match r {
                Option::None => {
                    &&& old(self).pending@.len() == 0
                    &&& final(self).pending@ == old(self).pending@
                    &&& final(self).files@ == old(self).files@
                },
                Option::Some(d) => {
                    &&& old(self).pending@.len() > 0
                    &&& d == old(self).pending@.last()
                    &&& final(self).pending@ == old(self).pending@.drop_last()
                    &&& final(self).files@ == old(self).files@
                },
            },
    {
        self.pending.pop()
    }

    /// Records the listing of one directory: regular files become asset
    /// files (except the reserved entry document at the root) and
    /// subdirectories join the work-list, in listing order.
    pub fn visit_dir(&mut self, dir_route: &str, entries: &Vec<DirEntryInfo>)
        ensures
            files_view(final(self).files@) == files_view(old(self).files@) + kept_files(
                dir_route@,
                dir_entries_view(entries@),
            ),
            pending_view(final(self).pending@) == pending_view(old(self).pending@) + subdirs(
                dir_route@,
                dir_entries_view(entries@),
            ),
    {
        let ghost evs = dir_entries_view(entries@);
        let reserved = String::from_str("index.html");
        proof {
            reveal_strlit("index.html");
            assert(reserved@ =~= reserved_entry_name());
        }
        let at_root = dir_route.is_empty();
        let n = entries.len();
        let mut i: usize = 0;
        while i < n
            invariant
                i <= n == entries@.len(),
                evs == dir_entries_view(entries@),
                evs.len() == n,
                reserved@ == reserved_entry_name(),
                at_root == (dir_route@.len() == 0),
                files_view(self.files@) == files_view(old(self).files@) + kept_files(
                    dir_route@,
                    evs.take(i as int),
                ),
                pending_view(self.pending@) == pending_view(old(self).pending@) + subdirs(
                    dir_route@,
                    evs.take(i as int),
                ),
            decreases n - i,
        {
            let ghost prefix = evs.take(i as int);
            let ghost fs0 = self.files@;
            let ghost ps0 = self.pending@;
            let mut child = String::from_str(dir_route);
            child.append("/");
            child.append(entries[i].name.as_str());
            proof {
                reveal_strlit("/");
                assert(child@ =~= child_route(dir_route@, entries@[i as int].name@));
                assert(evs[i as int] == entries@[i as int]@);
            }
            if entries[i].is_dir {
                let fs_path = entries[i].fs_path.clone();
                self.pending.push(PendingDir { route_path: child, fs_path });
                proof {
                    assert(pending_view(self.pending@) =~~= pending_view(ps0).push(
                        PendingDirV {
                            route_path: child_route(dir_route@, evs[i as int].name),
                            fs_path: evs[i as int].fs_path,
                        },
                    ));
                    assert(files_view(self.files@) == files_view(fs0));
                }
            } else if !(at_root && entries[i].name == reserved) {
                let fs_path = entries[i].fs_path.clone();
                self.files.push(AssetFile { route_path: child, fs_path });
                proof {
                    assert(keeps_entry(dir_route@, evs[i as int]));
                    assert(files_view(self.files@) =~~= files_view(fs0).push(
                        AssetFileV {
                            route_path: child_route(dir_route@, evs[i as int].name),
                            fs_path: evs[i as int].fs_path,
                        },
                    ));
                    assert(pending_view(self.pending@) == pending_view(ps0));
                }
            } else {
                proof {
                    assert(!keeps_entry(dir_route@, evs[i as int]));
                    assert(files_view(self.files@) == files_view(fs0));
                    assert(pending_view(self.pending@) == pending_view(ps0));
                }
            }
            proof {
                assert(evs.take(i + 1) =~= prefix.push(evs[i as int]));
                assert(evs.take(i + 1).drop_last() =~= prefix);
                assert(evs.take(i + 1).last() == evs[i as int]);
                assert(kept_files(dir_route@, evs.take(i + 1)) =~~= kept_files(dir_route@, prefix)
                    + (if keeps_entry(dir_route@, evs[i as int]) {
                        seq![
                            AssetFileV {
                                route_path: child_route(dir_route@, evs[i as int].name),
                                fs_path: evs[i as int].fs_path,
                            },
                        ]
                    } else {
                        Seq::empty()
                    }));
                assert(subdirs(dir_route@, evs.take(i + 1)) =~~= subdirs(dir_route@, prefix)
                    + (if evs[i as int].is_dir {
                        seq![
                            PendingDirV {
                                route_path: child_route(dir_route@, evs[i as int].name),
                                fs_path: evs[i as int].fs_path,
                            },
                        ]
                    } else {
                        Seq::empty()
                    }));
                assert(files_view(self.files@) =~~= files_view(old(self).files@) + kept_files(
                    dir_route@,
                    evs.take(i + 1),
                ));
                assert(pending_view(self.pending@) =~~= pending_view(old(self).pending@) + subdirs(
                    dir_route@,
                    evs.take(i + 1),
                ));
            }
            i = i + 1;
        }
        proof {
            assert(evs.take(n as int) =~= evs);
        }
    }
}

} // verus!
