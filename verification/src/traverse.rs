//! The traversal engine: a depth-first walk over a directory-tree
//! snapshot that fingerprints every non-empty regular file and records
//! each (fingerprint, path) pair in the fingerprint index.
//!
//! Error policy: a directory whose listing failed is
//! abandoned with a diagnostic and the walk goes on with its siblings;
//! an error on one entry of a listing (an unreadable file or an entry
//! that could not be examined) abandons the rest of that directory's
//! entries, so later siblings in the same directory are skipped.
//! Subdirectories are entered only when the configuration asks for a
//! recursive walk. Zero-length files are never fingerprinted.

use vstd::prelude::*;

use crate::config::ScanConfig;
use crate::fingerprint::crc16_usb;
use crate::fingerprint::crc16_usb_of;
use crate::fs_model::FsEntry;
use crate::index::FingerprintIndex;
use crate::index::duplicates_of;
use crate::index::groups_view;
use crate::index::idx_insert;
use crate::index::insert_all;
use crate::index::lemma_insert_all_app;

verus! {

/// One diagnostic line of a scan. Nothing is silently discarded: every
/// recoverable error names the affected path or the underlying cause.
#[derive(Debug, PartialEq, Eq)]
pub enum Diagnostic {
    /// A directory is being scanned (verbose only).
    ScanningDir(String),
    /// A directory listing failed: its path and the error.
    UnreadableDir(String, String),
    /// One entry of a listing could not be examined: the error.
    BadEntry(String),
    /// A file read failed: its path and the error.
    UnreadableFile(String, String),
    /// A zero-length file was skipped (verbose only).
    SkippedEmptyFile(String),
}

/// The (fingerprint, path) pairs a walk of `e` inserts, in traversal
/// order. A non-directory node at the root yields nothing.
pub open spec fn entry_pairs(cfg: ScanConfig, e: FsEntry) -> Seq<(u16, Seq<char>)>
    decreases e, 0int,
{
    match e {
        FsEntry::Dir { path: _, listing } => match listing {
            Ok(children) => children_pairs(cfg, children@, 0),
            Err(_) => Seq::empty(),
        },
        _ => Seq::empty(),
    }
}

/// The pairs inserted while walking the children from position `i`
/// onwards. An entry error or a file-read error ends the sequence:
/// later entries of the same listing contribute nothing.
pub open spec fn children_pairs(cfg: ScanConfig, es: Seq<FsEntry>, i: int) -> Seq<
    (u16, Seq<char>),
>
    decreases es, es.len() - i,
{
    if i < 0 || i >= es.len() {
        Seq::empty()
    } else {
        match es[i] {
            FsEntry::Unknown { error: _ } => Seq::empty(),
            FsEntry::Dir { path: _, listing: _ } => (if cfg.recursive {
                entry_pairs(cfg, es[i])
            } else {
                Seq::empty()
            }) + children_pairs(cfg, es, i + 1),
            FsEntry::File { path, content } => match content {
                Err(_) => Seq::empty(),
                Ok(bytes) => (if bytes@.len() == 0 {
                    Seq::empty()
                } else {
                    seq![(crc16_usb_of(bytes@), path@)]
                }) + children_pairs(cfg, es, i + 1),
            },
        }
    }
}

/// The diagnostics a walk of `e` emits, in order.
pub open spec fn entry_diags(cfg: ScanConfig, e: FsEntry) -> Seq<Diagnostic>
    decreases e, 0int,
{
    match e {
        FsEntry::Dir { path, listing } => (if cfg.verbose {
            seq![Diagnostic::ScanningDir(path)]
        } else {
            Seq::empty()
        }) + match listing {
            Ok(children) => children_diags(cfg, children@, 0),
            Err(err) => seq![Diagnostic::UnreadableDir(path, err)],
        },
        _ => Seq::empty(),
    }
}

/// The diagnostics emitted while walking the children from position
/// `i` onwards.
pub open spec fn children_diags(cfg: ScanConfig, es: Seq<FsEntry>, i: int) -> Seq<Diagnostic>
    decreases es, es.len() - i,
{
    if i < 0 || i >= es.len() {
        Seq::empty()
    } else {
        match es[i] {
            FsEntry::Unknown { error } => seq![Diagnostic::BadEntry(error)],
            FsEntry::Dir { path: _, listing: _ } => (if cfg.recursive {
                entry_diags(cfg, es[i])
            } else {
                Seq::empty()
            }) + children_diags(cfg, es, i + 1),
            FsEntry::File { path, content } => match content {
                Err(err) => seq![Diagnostic::UnreadableFile(path, err)],
                Ok(bytes) => (if bytes@.len() == 0 && cfg.verbose {
                    seq![Diagnostic::SkippedEmptyFile(path)]
                } else {
                    Seq::empty()
                }) + children_diags(cfg, es, i + 1),
            },
        }
    }
}

/// The scan state: the configuration and the fingerprint index it
/// populates.
pub struct FileDatabase {
    pub config: ScanConfig,
    pub database: FingerprintIndex,
}

impl FileDatabase {
    /// A database with the given configuration and an empty index.
    pub fn new(config: ScanConfig) -> (db: Self)
        ensures
            db.config == config,
            db.database@ == Seq::<(u16, Seq<Seq<char>>)>::empty(),
    {
        FileDatabase { config, database: FingerprintIndex::new() }
    }

    /// Walk the snapshot rooted at `root` under the configured policy,
    /// inserting every discovered (fingerprint, path) pair into the
    /// index, and return the diagnostics of the walk. A configuration
    /// without a root path never reaches this point: it is rejected
    /// fatally before any scanning.
    pub fn scan(&mut self, root: &FsEntry) -> (diags: Vec<Diagnostic>)
        requires
            old(self).config.path is Some,
        ensures
            final(self).config == old(self).config,
            final(self).database@ == insert_all(
                old(self).database@,
                entry_pairs(old(self).config, *root),
            ),
            diags@ == entry_diags(old(self).config, *root),
    {
        let mut diags: Vec<Diagnostic> = Vec::new();
        self.add_folder_to_database(root, &mut diags);
        proof {
            assert(diags@ =~= Seq::<Diagnostic>::empty() + entry_diags(
                old(self).config,
                *root,
            ));
        }
        diags
    }

    /// Walk one directory node: list it, fingerprint its non-empty
    /// files, recurse into subdirectories when configured to, and stop
    /// at the first failing entry of the listing.
    #[verifier::loop_isolation(false)]
    pub fn add_folder_to_database(&mut self, dir: &FsEntry, diags: &mut Vec<Diagnostic>)
        ensures
            final(self).config == old(self).config,
            final(self).database@ == insert_all(
                old(self).database@,
                entry_pairs(old(self).config, *dir),
            ),
            final(diags)@ == old(diags)@ + entry_diags(old(self).config, *dir),
        decreases *dir,
    {
        let ghost cfg = self.config;
        match dir {
            FsEntry::Dir { path, listing } => {
                let ghost pfx = if cfg.verbose {
                    seq![Diagnostic::ScanningDir(*path)]
                } else {
                    Seq::<Diagnostic>::empty()
                };
                if self.config.verbose {
                    diags.push(Diagnostic::ScanningDir(path.clone()));
                }
                proof {
                    assert(diags@ =~= old(diags)@ + pfx);
                }
                match listing {
                    Err(err) => {
                        diags.push(Diagnostic::UnreadableDir(path.clone(), err.clone()));
                        proof {
                            assert(diags@ =~= old(diags)@ + (pfx + seq![
                                Diagnostic::UnreadableDir(*path, *err),
                            ]));
                            assert(entry_pairs(cfg, *dir) =~= Seq::<(u16, Seq<char>)>::empty());
                        }
                    },
                    Ok(children) => {
                        proof {
                            assert(entry_pairs(cfg, *dir) == children_pairs(cfg, children@, 0));
                            assert(entry_diags(cfg, *dir) == pfx + children_diags(
                                cfg,
                                children@,
                                0,
                            ));
                        }
                        let ghost db0 = self.database@;
                        let ghost pre = diags@;
                        let n = children.len();
                        let mut i: usize = 0;
                        while i < n
                            invariant
                                n == children@.len(),
                                0 <= i <= n,
                                self.config == cfg,
                                insert_all(db0, children_pairs(cfg, children@, 0)) == insert_all(
                                    self.database@,
                                    children_pairs(cfg, children@, i as int),
                                ),
                                pre + children_diags(cfg, children@, 0) == diags@ + children_diags(
                                    cfg,
                                    children@,
                                    i as int,
                                ),
                            decreases n - i,
                        {
                            let ghost db_i = self.database@;
                            let ghost dg_i = diags@;
                            let child = &children[i];
                            match child {
                                FsEntry::Unknown { error } => {
                                    diags.push(Diagnostic::BadEntry(error.clone()));
                                    proof {
                                        assert(children_pairs(cfg, children@, i as int)
                                            =~= Seq::<(u16, Seq<char>)>::empty());
                                        assert(diags@ =~= dg_i + children_diags(
                                            cfg,
                                            children@,
                                            i as int,
                                        ));
                                        assert(diags@ =~= old(diags)@ + (pfx + children_diags(
                                            cfg,
                                            children@,
                                            0,
                                        )));
                                    }
                                    return ;
                                },
                                FsEntry::Dir { path: _, listing: _ } => {
                                    if self.config.recursive {
                                        self.add_folder_to_database(child, diags);
                                        proof {
                                            lemma_insert_all_app(
                                                db_i,
                                                entry_pairs(cfg, *child),
                                                children_pairs(cfg, children@, i + 1),
                                            );
                                            assert(children_pairs(cfg, children@, i as int)
                                                == entry_pairs(cfg, *child) + children_pairs(
                                                cfg,
                                                children@,
                                                i + 1,
                                            ));
                                            assert(dg_i + (entry_diags(cfg, *child)
                                                + children_diags(cfg, children@, i + 1)) =~= (dg_i
                                                + entry_diags(cfg, *child)) + children_diags(
                                                cfg,
                                                children@,
                                                i + 1,
                                            ));
                                        }
                                    } else {
                                        proof {
                                            assert(children_pairs(cfg, children@, i as int)
                                                =~= Seq::<(u16, Seq<char>)>::empty()
                                                + children_pairs(cfg, children@, i + 1));
                                            assert(children_diags(cfg, children@, i as int)
                                                =~= Seq::<Diagnostic>::empty() + children_diags(
                                                cfg,
                                                children@,
                                                i + 1,
                                            ));
                                        }
                                    }
                                },
                                FsEntry::File { path: fpath, content } => {
                                    match content {
                                        Err(err) => {
                                            diags.push(
                                                Diagnostic::UnreadableFile(
                                                    fpath.clone(),
                                                    err.clone(),
                                                ),
                                            );
                                            proof {
                                                assert(children_pairs(cfg, children@, i as int)
                                                    =~= Seq::<(u16, Seq<char>)>::empty());
                                                assert(diags@ =~= dg_i + children_diags(
                                                    cfg,
                                                    children@,
                                                    i as int,
                                                ));
                                                assert(diags@ =~= old(diags)@ + (pfx
                                                    + children_diags(cfg, children@, 0)));
                                            }
                                            return ;
                                        },
                                        Ok(bytes) => {
                                            if bytes.len() == 0 {
                                                if self.config.verbose {
                                                    diags.push(
                                                        Diagnostic::SkippedEmptyFile(
                                                            fpath.clone(),
                                                        ),
                                                    );
                                                }
                                                proof {
                                                    assert(children_pairs(
                                                        cfg,
                                                        children@,
                                                        i as int,
                                                    ) =~= Seq::<(u16, Seq<char>)>::empty()
                                                        + children_pairs(cfg, children@, i + 1));
                                                    assert(diags@ + children_diags(
                                                        cfg,
                                                        children@,
                                                        i + 1,
                                                    ) =~= dg_i + children_diags(
                                                        cfg,
                                                        children@,
                                                        i as int,
                                                    ));
                                                }
                                            } else {
                                                let fp = crc16_usb(bytes.as_slice());
                                                self.database.insert(fp, fpath.clone());
                                                proof {
                                                    let cp = children_pairs(
                                                        cfg,
                                                        children@,
                                                        i as int,
                                                    );
                                                    assert(cp =~= seq![
                                                        (crc16_usb_of(bytes@), fpath@),
                                                    ] + children_pairs(cfg, children@, i + 1));
                                                    assert(cp[0] == (
                                                        crc16_usb_of(bytes@),
                                                        fpath@,
                                                    ));
                                                    assert(cp.drop_first() =~= children_pairs(
                                                        cfg,
                                                        children@,
                                                        i + 1,
                                                    ));
                                                    assert(insert_all(db_i, cp) == insert_all(
                                                        idx_insert(db_i, fp, fpath@),
                                                        children_pairs(cfg, children@, i + 1),
                                                    ));
                                                }
                                            }
                                        },
                                    }
                                },
                            }
                            i = i + 1;
                        }
                        proof {
                            assert(children_pairs(cfg, children@, n as int) =~= Seq::<
                                (u16, Seq<char>),
                            >::empty());
                            assert(children_diags(cfg, children@, n as int)
                                =~= Seq::<Diagnostic>::empty());
                            assert(diags@ + children_diags(cfg, children@, n as int) =~= diags@);
                            assert(diags@ =~= old(diags)@ + (pfx + children_diags(
                                cfg,
                                children@,
                                0,
                            )));
                        }
                    },
                }
            },
            _ => {
                proof {
                    assert(entry_pairs(cfg, *dir) =~= Seq::<(u16, Seq<char>)>::empty());
                    assert(diags@ =~= old(diags)@ + entry_diags(cfg, *dir));
                }
            },
        }
    }

    /// Every duplicate group of the index, in index order, or `None`
    /// when no fingerprint was produced by more than one path: callers
    /// report "no duplicates found" in that case.
    pub fn check_duplicates(&self) -> (r: Option<Vec<(u16, Vec<String>)>>)
        ensures
            r is None <==> duplicates_of(self.database@).len() == 0,
            r is Some ==> groups_view(r->0) == duplicates_of(self.database@),
    {
        let groups = self.database.duplicate_groups();
        if groups.len() == 0 {
            proof {
                assert(groups_view(groups).len() == groups@.len());
            }
            None
        } else {
            proof {
                assert(groups_view(groups).len() == groups@.len());
            }
            Some(groups)
        }
    }
}

} // verus!
