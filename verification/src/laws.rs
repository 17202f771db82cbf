//! The library's laws: what holds of a whole scan, proved once and for
//! all over the spec-level traversal and index.
//!
//! The first half reasons about the index alone: how inserting pairs
//! shapes the groups. The second half ties the traversal of a snapshot
//! to the index: which files reach the index, that files with equal
//! content share a group, and that distinct fingerprints never share
//! one.

use vstd::prelude::*;

use crate::config::ScanConfig;
use crate::fingerprint::crc16_usb_of;
use crate::fs_model::FsEntry;
use crate::fs_model::children_file_paths;
use crate::fs_model::dir_children;
use crate::fs_model::children_ok;
use crate::fs_model::file_in_children;
use crate::fs_model::file_in_tree;
use crate::fs_model::is_hashable_file;
use crate::fs_model::tree_file_paths;
use crate::fs_model::tree_ok;
use crate::index::duplicates_from;
use crate::index::duplicates_of;
use crate::index::group_of;
use crate::index::idx_contains;
use crate::index::idx_insert;
use crate::index::idx_wf;
use crate::index::insert_all;
use crate::index::lemma_idx_insert_absent;
use crate::index::lemma_idx_insert_found;
use crate::index::path_count;
use crate::index::paths_for;
use crate::traverse::children_pairs;
use crate::traverse::entry_pairs;

verus! {

/// How many entries of a path sequence equal `p`.
pub open spec fn occurrences(s: Seq<Seq<char>>, p: Seq<char>) -> nat
    decreases s.len(),
{
    if s.len() == 0 {
        0
    } else {
        (if s[0] == p {
            1nat
        } else {
            0nat
        }) + occurrences(s.drop_first(), p)
    }
}

/// The (fingerprint, path) pair a hashable file node stands for.
pub open spec fn file_pair(e: FsEntry) -> (u16, Seq<char>) {
    match e {
        FsEntry::File { path, content } => match content {
            Ok(bytes) => (crc16_usb_of(bytes@), path@),
            Err(_) => (0u16, Seq::empty()),
        },
        _ => (0u16, Seq::empty()),
    }
}

/// Inserting one pair touches exactly the group of its fingerprint:
/// that group gains the path at its end; every other group is as
/// before.
pub proof fn lemma_group_of_insert(
    s: Seq<(u16, Seq<Seq<char>>)>,
    fp: u16,
    path: Seq<char>,
    fp2: u16,
)
    ensures
        group_of(idx_insert(s, fp, path), fp2) == if fp2 == fp {
            group_of(s, fp2).push(path)
        } else {
            group_of(s, fp2)
        },
    decreases s.len(),
{
    if s.len() == 0 {
        if fp2 == fp {
            assert(group_of(idx_insert(s, fp, path), fp2) =~= group_of(s, fp2).push(path));
        } else {
            assert(idx_insert(s, fp, path)[0].0 == fp);
            assert(group_of(idx_insert(s, fp, path), fp2) == group_of(
                idx_insert(s, fp, path).drop_first(),
                fp2,
            ));
            assert(idx_insert(s, fp, path).drop_first() =~= Seq::<(u16, Seq<Seq<char>>)>::empty());
        }
    } else if s[0].0 == fp {
        let t = idx_insert(s, fp, path);
        assert(t == seq![(fp, s[0].1.push(path))] + s.drop_first());
        assert(t[0] == (fp, s[0].1.push(path)));
        assert(t.drop_first() =~= s.drop_first());
    } else {
        let t = idx_insert(s, fp, path);
        assert(t == seq![s[0]] + idx_insert(s.drop_first(), fp, path));
        assert(t[0] == s[0]);
        assert(t.drop_first() =~= idx_insert(s.drop_first(), fp, path));
        lemma_group_of_insert(s.drop_first(), fp, path, fp2);
    }
}

/// Inserting a pair sequence extends each fingerprint's group by
/// exactly the paths carrying that fingerprint, in order.
pub proof fn lemma_group_of_insert_all(
    s: Seq<(u16, Seq<Seq<char>>)>,
    pairs: Seq<(u16, Seq<char>)>,
    fp: u16,
)
    ensures
        group_of(insert_all(s, pairs), fp) == group_of(s, fp) + paths_for(pairs, fp),
    decreases pairs.len(),
{
    if pairs.len() == 0 {
        assert(group_of(s, fp) + paths_for(pairs, fp) =~= group_of(s, fp));
    } else {
        let s1 = idx_insert(s, pairs[0].0, pairs[0].1);
        lemma_group_of_insert(s, pairs[0].0, pairs[0].1, fp);
        lemma_group_of_insert_all(s1, pairs.drop_first(), fp);
        if pairs[0].0 == fp {
            assert(paths_for(pairs, fp) == seq![pairs[0].1] + paths_for(pairs.drop_first(), fp));
            assert(group_of(s, fp).push(pairs[0].1) + paths_for(pairs.drop_first(), fp)
                =~= group_of(s, fp) + paths_for(pairs, fp));
        } else {
            assert(paths_for(pairs, fp) == paths_for(pairs.drop_first(), fp));
        }
    }
}

/// Which fingerprints the index knows after an insertion.
pub proof fn lemma_contains_insert(
    s: Seq<(u16, Seq<Seq<char>>)>,
    fp: u16,
    path: Seq<char>,
    fp2: u16,
)
    ensures
        idx_contains(idx_insert(s, fp, path), fp2) <==> (fp2 == fp || idx_contains(s, fp2)),
    decreases s.len(),
{
    let t = idx_insert(s, fp, path);
    if s.len() == 0 {
        assert(t[0].0 == fp);
        if idx_contains(t, fp2) {
            let i = choose|i: int| 0 <= i < t.len() && t[i].0 == fp2;
            assert(i == 0);
        }
    } else if s[0].0 == fp {
        assert(t =~= seq![(fp, s[0].1.push(path))] + s.drop_first());
        assert forall|i: int| 0 <= i < t.len() implies t[i].0 == s[i].0 by {
            if i > 0 {
                assert(t[i] == s.drop_first()[i - 1]);
            }
        }
        if idx_contains(s, fp2) {
            let i = choose|i: int| 0 <= i < s.len() && s[i].0 == fp2;
            assert(t[i].0 == fp2);
        }
        if idx_contains(t, fp2) {
            let i = choose|i: int| 0 <= i < t.len() && t[i].0 == fp2;
            assert(s[i].0 == fp2);
        }
    } else {
        lemma_contains_insert(s.drop_first(), fp, path, fp2);
        assert(t == seq![s[0]] + idx_insert(s.drop_first(), fp, path));
        assert(t[0] == s[0]);
        assert(t.drop_first() =~= idx_insert(s.drop_first(), fp, path));
        if fp2 == fp || idx_contains(s, fp2) {
            if fp2 == s[0].0 {
                assert(t[0].0 == fp2);
            } else if idx_contains(s, fp2) {
                let i = choose|i: int| 0 <= i < s.len() && s[i].0 == fp2;
                assert(i > 0);
                assert(s.drop_first()[i - 1].0 == fp2);
                assert(idx_contains(s.drop_first(), fp2));
                let j = choose|j: int|
                    0 <= j < t.drop_first().len() && t.drop_first()[j].0 == fp2;
                assert(t[j + 1].0 == fp2);
            } else {
                assert(fp2 == fp);
                assert(idx_contains(idx_insert(s.drop_first(), fp, path), fp2));
                let j = choose|j: int|
                    0 <= j < t.drop_first().len() && t.drop_first()[j].0 == fp2;
                assert(t[j + 1].0 == fp2);
            }
        }
        if idx_contains(t, fp2) {
            let i = choose|i: int| 0 <= i < t.len() && t[i].0 == fp2;
            if i == 0 {
                assert(s[0].0 == fp2);
            } else {
                assert(t.drop_first()[i - 1].0 == fp2);
                assert(idx_contains(idx_insert(s.drop_first(), fp, path), fp2));
            }
        }
    }
}

/// An insertion keeps the fingerprints of the groups pairwise distinct.
pub proof fn lemma_wf_insert(s: Seq<(u16, Seq<Seq<char>>)>, fp: u16, path: Seq<char>)
    requires
        idx_wf(s),
    ensures
        idx_wf(idx_insert(s, fp, path)),
{
    if idx_contains(s, fp) {
        let i = choose|i: int| 0 <= i < s.len() && s[i].0 == fp;
        assert(forall|j: int| 0 <= j < i ==> s[j].0 != fp);
        lemma_idx_insert_found(s, fp, path, i);
    } else {
        assert(forall|j: int| 0 <= j < s.len() ==> s[j].0 != fp);
        lemma_idx_insert_absent(s, fp, path);
    }
}

/// Inserting every pair keeps the groups' fingerprints pairwise
/// distinct and adds no fingerprint that no pair carries.
pub proof fn lemma_wf_insert_all(s: Seq<(u16, Seq<Seq<char>>)>, pairs: Seq<(u16, Seq<char>)>)
    requires
        idx_wf(s),
    ensures
        idx_wf(insert_all(s, pairs)),
        forall|fp: u16|
            #[trigger] idx_contains(insert_all(s, pairs), fp) <==> (idx_contains(s, fp) || exists|
                k: int,
            | 0 <= k < pairs.len() && (#[trigger] pairs[k]).0 == fp),
    decreases pairs.len(),
{
    if pairs.len() == 0 {
    } else {
        let s1 = idx_insert(s, pairs[0].0, pairs[0].1);
        lemma_wf_insert(s, pairs[0].0, pairs[0].1);
        assert forall|fp: u16| idx_contains(s1, fp) <==> (fp == pairs[0].0 || idx_contains(
            s,
            fp,
        )) by {
            lemma_contains_insert(s, pairs[0].0, pairs[0].1, fp);
        }
        lemma_wf_insert_all(s1, pairs.drop_first());
        assert(insert_all(s, pairs) == insert_all(s1, pairs.drop_first()));
        assert forall|fp: u16|
            idx_contains(insert_all(s, pairs), fp) <==> (idx_contains(s, fp) || exists|k: int|
                0 <= k < pairs.len() && pairs[k].0 == fp) by {
            let rest = pairs.drop_first();
            assert(idx_contains(insert_all(s1, rest), fp) <==> (idx_contains(s1, fp) || exists|
                k: int,
            | 0 <= k < rest.len() && rest[k].0 == fp));
            assert(idx_contains(s1, fp) <==> (fp == pairs[0].0 || idx_contains(s, fp)));
            if exists|k: int| 0 <= k < rest.len() && rest[k].0 == fp {
                let k = choose|k: int| 0 <= k < rest.len() && rest[k].0 == fp;
                assert(pairs[k + 1].0 == fp);
            }
            if exists|k: int| 0 <= k < pairs.len() && pairs[k].0 == fp {
                let k = choose|k: int| 0 <= k < pairs.len() && pairs[k].0 == fp;
                if k > 0 {
                    assert(rest[k - 1].0 == fp);
                }
            }
        }
    }
}

/// In a well-formed index the group at position `i` is the group of
/// its own fingerprint.
pub proof fn lemma_group_of_position(s: Seq<(u16, Seq<Seq<char>>)>, i: int)
    requires
        idx_wf(s),
        0 <= i < s.len(),
    ensures
        group_of(s, s[i].0) == s[i].1,
    decreases i,
{
    if i == 0 {
    } else {
        assert(s[0].0 != s[i].0);
        assert(idx_wf(s.drop_first())) by {
            assert(forall|a: int, b: int|
                0 <= a < b < s.drop_first().len() ==> s.drop_first()[a] == s[a + 1]
                    && s.drop_first()[b] == s[b + 1]);
        }
        assert(s.drop_first()[i - 1] == s[i]);
        lemma_group_of_position(s.drop_first(), i - 1);
    }
}

/// A path stands in the paths of a fingerprint exactly when some pair
/// carries both.
pub proof fn lemma_paths_for_member(pairs: Seq<(u16, Seq<char>)>, fp: u16, p: Seq<char>)
    ensures
        paths_for(pairs, fp).contains(p) <==> exists|k: int|
            0 <= k < pairs.len() && pairs[k] == (fp, p),
    decreases pairs.len(),
{
    if pairs.len() == 0 {
    } else {
        lemma_paths_for_member(pairs.drop_first(), fp, p);
        let rest = paths_for(pairs.drop_first(), fp);
        if pairs[0].0 == fp {
            let whole = paths_for(pairs, fp);
            assert(whole == seq![pairs[0].1] + rest);
            assert(whole[0] == pairs[0].1);
            assert(whole.drop_first() =~= rest);
            if whole.contains(p) {
                let i = choose|i: int| 0 <= i < whole.len() && whole[i] == p;
                if i == 0 {
                    assert(pairs[0] == (fp, p));
                } else {
                    assert(rest[i - 1] == p);
                    assert(rest.contains(p));
                    let k = choose|k: int|
                        0 <= k < pairs.drop_first().len() && pairs.drop_first()[k] == (fp, p);
                    assert(pairs[k + 1] == (fp, p));
                }
            }
            if exists|k: int| 0 <= k < pairs.len() && pairs[k] == (fp, p) {
                let k = choose|k: int| 0 <= k < pairs.len() && pairs[k] == (fp, p);
                if k == 0 {
                    assert(whole[0] == p);
                } else {
                    assert(pairs.drop_first()[k - 1] == (fp, p));
                    let i = choose|i: int| 0 <= i < rest.len() && rest[i] == p;
                    assert(whole[i + 1] == p);
                }
            }
        } else {
            if exists|k: int| 0 <= k < pairs.len() && pairs[k] == (fp, p) {
                let k = choose|k: int| 0 <= k < pairs.len() && pairs[k] == (fp, p);
                assert(k > 0);
                assert(pairs.drop_first()[k - 1] == (fp, p));
            }
            if exists|k: int| 0 <= k < pairs.drop_first().len() && pairs.drop_first()[k] == (
                fp,
                p,
            ) {
                let k = choose|k: int|
                    0 <= k < pairs.drop_first().len() && pairs.drop_first()[k] == (fp, p);
                assert(pairs[k + 1] == (fp, p));
            }
        }
    }
}

/// A sequence contains a path exactly when it occurs at least once.
pub proof fn lemma_occurrences_contains(s: Seq<Seq<char>>, p: Seq<char>)
    ensures
        s.contains(p) <==> occurrences(s, p) >= 1,
    decreases s.len(),
{
    if s.len() == 0 {
    } else {
        lemma_occurrences_contains(s.drop_first(), p);
        if s[0] == p {
            assert(s.contains(p));
        } else {
            if s.contains(p) {
                let i = choose|i: int| 0 <= i < s.len() && s[i] == p;
                assert(i > 0);
                assert(s.drop_first()[i - 1] == p);
                assert(s.drop_first().contains(p));
            }
            if s.drop_first().contains(p) {
                let i = choose|i: int| 0 <= i < s.drop_first().len() && s.drop_first()[i] == p;
                assert(s[i + 1] == p);
            }
        }
    }
}

/// Under two different fingerprints, a path occurs at most as often as
/// it occurs among all pairs together.
pub proof fn lemma_two_fingerprints_bound(
    pairs: Seq<(u16, Seq<char>)>,
    fp1: u16,
    fp2: u16,
    p: Seq<char>,
)
    requires
        fp1 != fp2,
    ensures
        occurrences(paths_for(pairs, fp1), p) + occurrences(paths_for(pairs, fp2), p)
            <= path_count(pairs, p),
    decreases pairs.len(),
{
    if pairs.len() == 0 {
    } else {
        lemma_two_fingerprints_bound(pairs.drop_first(), fp1, fp2, p);
        lemma_occurrences_head(pairs, fp1, p);
        lemma_occurrences_head(pairs, fp2, p);
    }
}

/// Unfolds one step of `occurrences` over `paths_for`: the head pair
/// contributes its path exactly when it carries the fingerprint.
proof fn lemma_occurrences_head(pairs: Seq<(u16, Seq<char>)>, fp: u16, p: Seq<char>)
    requires
        pairs.len() > 0,
    ensures
        occurrences(paths_for(pairs, fp), p) == (if pairs[0].0 == fp && pairs[0].1 == p {
            1nat
        } else {
            0nat
        }) + occurrences(paths_for(pairs.drop_first(), fp), p),
{
    let rest = paths_for(pairs.drop_first(), fp);
    if pairs[0].0 == fp {
        let whole = paths_for(pairs, fp);
        assert(whole == seq![pairs[0].1] + rest);
        assert(whole.len() > 0);
        assert(whole[0] == pairs[0].1);
        assert(whole.drop_first() =~= rest);
    }
}

/// `path_count` distributes over concatenation.
proof fn lemma_path_count_app(a: Seq<(u16, Seq<char>)>, b: Seq<(u16, Seq<char>)>, p: Seq<char>)
    ensures
        path_count(a + b, p) == path_count(a, p) + path_count(b, p),
    decreases a.len(),
{
    if a.len() == 0 {
        assert(a + b =~= b);
    } else {
        assert((a + b)[0] == a[0]);
        assert((a + b).drop_first() =~= a.drop_first() + b);
        lemma_path_count_app(a.drop_first(), b, p);
    }
}

/// `occurrences` distributes over concatenation.
proof fn lemma_occurrences_app(a: Seq<Seq<char>>, b: Seq<Seq<char>>, p: Seq<char>)
    ensures
        occurrences(a + b, p) == occurrences(a, p) + occurrences(b, p),
    decreases a.len(),
{
    if a.len() == 0 {
        assert(a + b =~= b);
    } else {
        assert((a + b)[0] == a[0]);
        assert((a + b).drop_first() =~= a.drop_first() + b);
        lemma_occurrences_app(a.drop_first(), b, p);
    }
}

/// Every pair a walk of `e` produces comes from a non-empty, readable
/// file somewhere in the tree under `e`.
pub proof fn lemma_entry_pairs_sound(cfg: ScanConfig, e: FsEntry, k: int)
    requires
        0 <= k < entry_pairs(cfg, e).len(),
    ensures
        exists|p: Seq<char>, c: Seq<u8>|
            #![trigger file_in_tree(e, p, c)]
            file_in_tree(e, p, c) && c.len() > 0 && entry_pairs(cfg, e)[k] == (
                crc16_usb_of(c),
                p,
            ),
    decreases e, 0int,
{
    match e {
        FsEntry::Dir { path: _, listing } => match listing {
            Ok(children) => {
                lemma_children_pairs_sound(cfg, children@, 0, k);
                let (p, c) = choose|p: Seq<char>, c: Seq<u8>|
                    #![trigger file_in_children(children@, 0, p, c)]
                    file_in_children(children@, 0, p, c) && c.len() > 0 && children_pairs(
                        cfg,
                        children@,
                        0,
                    )[k] == (crc16_usb_of(c), p);
                assert(file_in_tree(e, p, c));
            },
            Err(_) => {},
        },
        _ => {},
    }
}

/// Every pair the walk of children from `i` onwards produces comes
/// from a non-empty, readable file under one of those children.
pub proof fn lemma_children_pairs_sound(cfg: ScanConfig, es: Seq<FsEntry>, i: int, k: int)
    requires
        0 <= i,
        0 <= k < children_pairs(cfg, es, i).len(),
    ensures
        exists|p: Seq<char>, c: Seq<u8>|
            #![trigger file_in_children(es, i, p, c)]
            file_in_children(es, i, p, c) && c.len() > 0 && children_pairs(cfg, es, i)[k] == (
                crc16_usb_of(c),
                p,
            ),
    decreases es, es.len() - i,
{
    let cp = children_pairs(cfg, es, i);
    match es[i] {
        FsEntry::Unknown { error: _ } => {},
        FsEntry::Dir { path: _, listing: _ } => {
            let head = if cfg.recursive {
                entry_pairs(cfg, es[i])
            } else {
                Seq::<(u16, Seq<char>)>::empty()
            };
            assert(cp == head + children_pairs(cfg, es, i + 1));
            if k < head.len() {
                lemma_entry_pairs_sound(cfg, es[i], k);
                let (p, c) = choose|p: Seq<char>, c: Seq<u8>|
                    #![trigger file_in_tree(es[i], p, c)]
                    file_in_tree(es[i], p, c) && c.len() > 0 && entry_pairs(cfg, es[i])[k] == (
                        crc16_usb_of(c),
                        p,
                    );
                assert(cp[k] == head[k]);
                assert(file_in_children(es, i, p, c));
            } else {
                lemma_children_pairs_sound(cfg, es, i + 1, k - head.len());
                let (p, c) = choose|p: Seq<char>, c: Seq<u8>|
                    #![trigger file_in_children(es, i + 1, p, c)]
                    file_in_children(es, i + 1, p, c) && c.len() > 0 && children_pairs(
                        cfg,
                        es,
                        i + 1,
                    )[k - head.len()] == (crc16_usb_of(c), p);
                assert(cp[k] == children_pairs(cfg, es, i + 1)[k - head.len()]);
                assert(file_in_children(es, i, p, c));
            }
        },
        FsEntry::File { path, content } => match content {
            Err(_) => {},
            Ok(bytes) => {
                let head = if bytes@.len() == 0 {
                    Seq::<(u16, Seq<char>)>::empty()
                } else {
                    seq![(crc16_usb_of(bytes@), path@)]
                };
                assert(cp == head + children_pairs(cfg, es, i + 1));
                if k < head.len() {
                    assert(bytes@.len() > 0);
                    assert(cp[k] == head[0]);
                    assert(file_in_tree(es[i], path@, bytes@));
                    assert(file_in_children(es, i, path@, bytes@));
                } else {
                    lemma_children_pairs_sound(cfg, es, i + 1, k - head.len());
                    let (p, c) = choose|p: Seq<char>, c: Seq<u8>|
                        #![trigger file_in_children(es, i + 1, p, c)]
                        file_in_children(es, i + 1, p, c) && c.len() > 0 && children_pairs(
                            cfg,
                            es,
                            i + 1,
                        )[k - head.len()] == (crc16_usb_of(c), p);
                    assert(cp[k] == children_pairs(cfg, es, i + 1)[k - head.len()]);
                    assert(file_in_children(es, i, p, c));
                }
            },
        },
    }
}

/// In a recursive walk of an error-free tree, every non-empty file of
/// the tree contributes its pair to the walk.
pub proof fn lemma_entry_pairs_complete(cfg: ScanConfig, e: FsEntry, p: Seq<char>, c: Seq<u8>)
    requires
        cfg.recursive,
        e is Dir,
        tree_ok(e),
        file_in_tree(e, p, c),
        c.len() > 0,
    ensures
        entry_pairs(cfg, e).contains((crc16_usb_of(c), p)),
    decreases e, 0int,
{
    match e {
        FsEntry::Dir { path: _, listing } => match listing {
            Ok(children) => {
                lemma_children_pairs_complete(cfg, children@, 0, p, c);
            },
            Err(_) => {},
        },
        _ => {},
    }
}

/// The walk of error-free children from `i` onwards picks up every
/// non-empty file under them.
pub proof fn lemma_children_pairs_complete(
    cfg: ScanConfig,
    es: Seq<FsEntry>,
    i: int,
    p: Seq<char>,
    c: Seq<u8>,
)
    requires
        cfg.recursive,
        0 <= i,
        children_ok(es, i),
        file_in_children(es, i, p, c),
        c.len() > 0,
    ensures
        children_pairs(cfg, es, i).contains((crc16_usb_of(c), p)),
    decreases es, es.len() - i,
{
    let cp = children_pairs(cfg, es, i);
    let pair = (crc16_usb_of(c), p);
    assert(i < es.len());
    assert(tree_ok(es[i]) && children_ok(es, i + 1));
    if file_in_tree(es[i], p, c) {
        match es[i] {
            FsEntry::Unknown { error: _ } => {},
            FsEntry::Dir { path: _, listing: _ } => {
                let head = entry_pairs(cfg, es[i]);
                assert(cp == head + children_pairs(cfg, es, i + 1));
                lemma_entry_pairs_complete(cfg, es[i], p, c);
                let j = choose|j: int| 0 <= j < head.len() && head[j] == pair;
                assert(cp[j] == pair);
                assert(cp.contains(pair));
            },
            FsEntry::File { path, content } => match content {
                Err(_) => {},
                Ok(bytes) => {
                    assert(path@ == p && bytes@ == c);
                    let head = seq![(crc16_usb_of(bytes@), path@)];
                    assert(cp == head + children_pairs(cfg, es, i + 1));
                    assert(cp[0] == pair);
                    assert(cp.contains(pair));
                },
            },
        }
    } else {
        assert(file_in_children(es, i + 1, p, c));
        lemma_children_pairs_complete(cfg, es, i + 1, p, c);
        let rest = children_pairs(cfg, es, i + 1);
        let j = choose|j: int| 0 <= j < rest.len() && rest[j] == pair;
        match es[i] {
            FsEntry::Unknown { error: _ } => {},
            FsEntry::Dir { path: _, listing: _ } => {
                let head = if cfg.recursive {
                    entry_pairs(cfg, es[i])
                } else {
                    Seq::<(u16, Seq<char>)>::empty()
                };
                assert(cp == head + rest);
                assert(cp[head.len() + j] == pair);
                assert(cp.contains(pair));
            },
            FsEntry::File { path, content } => match content {
                Err(_) => {},
                Ok(bytes) => {
                    let head = if bytes@.len() == 0 {
                        Seq::<(u16, Seq<char>)>::empty()
                    } else {
                        seq![(crc16_usb_of(bytes@), path@)]
                    };
                    assert(cp == head + rest);
                    assert(cp[head.len() + j] == pair);
                    assert(cp.contains(pair));
                },
            },
        }
    }
}

/// A path occurs among the walk's pairs at most as often as it occurs
/// among the file paths of the tree.
pub proof fn lemma_entry_path_count(cfg: ScanConfig, e: FsEntry, p: Seq<char>)
    ensures
        path_count(entry_pairs(cfg, e), p) <= occurrences(tree_file_paths(e), p),
    decreases e, 0int,
{
    match e {
        FsEntry::Dir { path: _, listing } => match listing {
            Ok(children) => {
                lemma_children_path_count(cfg, children@, 0, p);
            },
            Err(_) => {},
        },
        _ => {},
    }
}

/// The counting bound over the children from `i` onwards.
pub proof fn lemma_children_path_count(cfg: ScanConfig, es: Seq<FsEntry>, i: int, p: Seq<char>)
    requires
        0 <= i,
    ensures
        path_count(children_pairs(cfg, es, i), p) <= occurrences(children_file_paths(es, i), p),
    decreases es, es.len() - i,
{
    if i >= es.len() {
    } else {
        let cp = children_pairs(cfg, es, i);
        let fpaths = children_file_paths(es, i);
        lemma_children_path_count(cfg, es, i + 1, p);
        match es[i] {
            FsEntry::Unknown { error: _ } => {
                assert(fpaths == tree_file_paths(es[i]) + children_file_paths(es, i + 1));
                lemma_occurrences_app(tree_file_paths(es[i]), children_file_paths(es, i + 1), p);
            },
            FsEntry::Dir { path: _, listing: _ } => {
                let head = if cfg.recursive {
                    entry_pairs(cfg, es[i])
                } else {
                    Seq::<(u16, Seq<char>)>::empty()
                };
                lemma_entry_path_count(cfg, es[i], p);
                assert(path_count(head, p) <= occurrences(tree_file_paths(es[i]), p));
                lemma_path_count_app(head, children_pairs(cfg, es, i + 1), p);
                lemma_occurrences_app(tree_file_paths(es[i]), children_file_paths(es, i + 1), p);
            },
            FsEntry::File { path, content } => match content {
                Err(_) => {
                    lemma_occurrences_app(
                        tree_file_paths(es[i]),
                        children_file_paths(es, i + 1),
                        p,
                    );
                },
                Ok(bytes) => {
                    let head = if bytes@.len() == 0 {
                        Seq::<(u16, Seq<char>)>::empty()
                    } else {
                        seq![(crc16_usb_of(bytes@), path@)]
                    };
                    lemma_path_count_app(head, children_pairs(cfg, es, i + 1), p);
                    lemma_occurrences_app(
                        tree_file_paths(es[i]),
                        children_file_paths(es, i + 1),
                        p,
                    );
                    assert(tree_file_paths(es[i]) == seq![path@]);
                    let s = seq![path@];
                    assert(s.len() == 1 && s[0] == path@);
                    assert(s.drop_first() =~= Seq::<Seq<char>>::empty());
                    assert(occurrences(Seq::<Seq<char>>::empty(), p) == 0);
                    assert(occurrences(s, p) == (if s[0] == p {
                        1nat
                    } else {
                        0nat
                    }) + occurrences(s.drop_first(), p));
                    if bytes@.len() > 0 {
                        assert(head.len() == 1 && head[0] == (crc16_usb_of(bytes@), path@));
                        assert(head.drop_first() =~= Seq::<(u16, Seq<char>)>::empty());
                        assert(path_count(Seq::<(u16, Seq<char>)>::empty(), p) == 0);
                        assert(path_count(head, p) == (if head[0].1 == p {
                            1nat
                        } else {
                            0nat
                        }) + path_count(head.drop_first(), p));
                    }
                },
            },
        }
    }
}

/// The index a scan of `root` under `cfg` builds, starting empty.
pub open spec fn scan_index(cfg: ScanConfig, root: FsEntry) -> Seq<(u16, Seq<Seq<char>>)> {
    insert_all(Seq::empty(), entry_pairs(cfg, root))
}

/// Determinism: a fixed snapshot and a fixed configuration always
/// yield the same index and the same duplicate groups, run after run.
pub proof fn lemma_scan_deterministic(
    cfg: ScanConfig,
    root: FsEntry,
    db1: Seq<(u16, Seq<Seq<char>>)>,
    db2: Seq<(u16, Seq<Seq<char>>)>,
)
    requires
        db1 == scan_index(cfg, root),
        db2 == scan_index(cfg, root),
    ensures
        db1 == db2,
        duplicates_of(db1) == duplicates_of(db2),
{
}

/// Non-recursive containment: without recursion, every pair a walk of
/// the root produces is the pair of a non-empty, readable file that is
/// an immediate child of the root.
pub proof fn lemma_nonrecursive_containment(cfg: ScanConfig, root: FsEntry, k: int)
    requires
        !cfg.recursive,
        0 <= k < entry_pairs(cfg, root).len(),
    ensures
        exists|j: int|
            0 <= j < dir_children(root).len() && is_hashable_file(#[trigger] dir_children(root)[j])
                && entry_pairs(cfg, root)[k] == file_pair(dir_children(root)[j]),
{
    match root {
        FsEntry::Dir { path: _, listing } => match listing {
            Ok(children) => {
                lemma_children_nonrecursive(cfg, children@, 0, k);
                assert(dir_children(root) == children@);
                let j = choose|j: int|
                    0 <= j < children@.len() && is_hashable_file(#[trigger] children@[j])
                        && children_pairs(cfg, children@, 0)[k] == file_pair(children@[j]);
                assert(is_hashable_file(dir_children(root)[j]));
                assert(entry_pairs(cfg, root)[k] == file_pair(dir_children(root)[j]));
            },
            Err(_) => {},
        },
        _ => {},
    }
}

/// The containment argument over the children from `i` onwards.
proof fn lemma_children_nonrecursive(cfg: ScanConfig, es: Seq<FsEntry>, i: int, k: int)
    requires
        !cfg.recursive,
        0 <= i,
        0 <= k < children_pairs(cfg, es, i).len(),
    ensures
        exists|j: int|
            i <= j < es.len() && is_hashable_file(#[trigger] es[j]) && children_pairs(cfg, es, i)[k]
                == file_pair(es[j]),
    decreases es.len() - i,
{
    let cp = children_pairs(cfg, es, i);
    match es[i] {
        FsEntry::Unknown { error: _ } => {},
        FsEntry::Dir { path: _, listing: _ } => {
            assert(cp =~= Seq::<(u16, Seq<char>)>::empty() + children_pairs(cfg, es, i + 1));
            lemma_children_nonrecursive(cfg, es, i + 1, k);
        },
        FsEntry::File { path, content } => match content {
            Err(_) => {},
            Ok(bytes) => {
                let head = if bytes@.len() == 0 {
                    Seq::<(u16, Seq<char>)>::empty()
                } else {
                    seq![(crc16_usb_of(bytes@), path@)]
                };
                assert(cp == head + children_pairs(cfg, es, i + 1));
                if k < head.len() {
                    assert(cp[k] == head[0]);
                    assert(is_hashable_file(es[i]));
                    assert(cp[k] == file_pair(es[i]));
                } else {
                    lemma_children_nonrecursive(cfg, es, i + 1, k - head.len());
                    assert(cp[k] == children_pairs(cfg, es, i + 1)[k - head.len()]);
                }
            },
        },
    }
}

/// Recursive completeness: in a recursive scan of an error-free
/// directory snapshot, a non-empty file whose path names only itself
/// appears in exactly one group of the index.
pub proof fn lemma_recursive_completeness(
    cfg: ScanConfig,
    root: FsEntry,
    p: Seq<char>,
    c: Seq<u8>,
)
    requires
        cfg.recursive,
        root is Dir,
        tree_ok(root),
        file_in_tree(root, p, c),
        c.len() > 0,
        occurrences(tree_file_paths(root), p) <= 1,
    ensures
        exists|i: int|
            0 <= i < scan_index(cfg, root).len() && (#[trigger] scan_index(cfg, root)[i]).1.contains(
                p,
            ),
        forall|i1: int, i2: int|
            0 <= i1 < scan_index(cfg, root).len() && 0 <= i2 < scan_index(cfg, root).len() && (
            #[trigger] scan_index(cfg, root)[i1]).1.contains(p) && (#[trigger] scan_index(
                cfg,
                root,
            )[i2]).1.contains(p) ==> i1 == i2,
{
    let pairs = entry_pairs(cfg, root);
    let fp = crc16_usb_of(c);
    let db = scan_index(cfg, root);
    let empty = Seq::<(u16, Seq<Seq<char>>)>::empty();
    lemma_entry_pairs_complete(cfg, root, p, c);
    lemma_wf_insert_all(empty, pairs);
    let k = choose|k: int| 0 <= k < pairs.len() && pairs[k] == (fp, p);
    assert(pairs[k].0 == fp);
    assert(exists|k2: int| 0 <= k2 < pairs.len() && (#[trigger] pairs[k2]).0 == fp);
    assert(idx_contains(insert_all(empty, pairs), fp));
    assert(db == insert_all(empty, pairs));
    assert(idx_contains(db, fp));
    let i = choose|i: int| 0 <= i < db.len() && db[i].0 == fp;
    lemma_group_of_position(db, i);
    lemma_group_of_insert_all(empty, pairs, fp);
    assert(group_of(empty, fp) + paths_for(pairs, fp) =~= paths_for(pairs, fp));
    lemma_paths_for_member(pairs, fp, p);
    assert(db[i].1.contains(p));
    lemma_entry_path_count(cfg, root, p);
    assert forall|i1: int, i2: int|
        0 <= i1 < db.len() && 0 <= i2 < db.len() && (#[trigger] db[i1]).1.contains(p) && (
        #[trigger] db[i2]).1.contains(p) implies i1 == i2 by {
        if i1 != i2 {
            assert(db[i1].0 != db[i2].0);
            lemma_group_of_position(db, i1);
            lemma_group_of_position(db, i2);
            lemma_group_of_insert_all(empty, pairs, db[i1].0);
            lemma_group_of_insert_all(empty, pairs, db[i2].0);
            assert(group_of(empty, db[i1].0) + paths_for(pairs, db[i1].0) =~= paths_for(
                pairs,
                db[i1].0,
            ));
            assert(group_of(empty, db[i2].0) + paths_for(pairs, db[i2].0) =~= paths_for(
                pairs,
                db[i2].0,
            ));
            lemma_occurrences_contains(paths_for(pairs, db[i1].0), p);
            lemma_occurrences_contains(paths_for(pairs, db[i2].0), p);
            lemma_two_fingerprints_bound(pairs, db[i1].0, db[i2].0, p);
            assert(false);
        }
    }
}

/// Empty-file exclusion and soundness: every path in any group of the
/// index is the path of some non-empty file that was read successfully;
/// a zero-length file's content never puts its path into a group.
pub proof fn lemma_groups_sound(cfg: ScanConfig, root: FsEntry, i: int, p: Seq<char>)
    requires
        0 <= i < scan_index(cfg, root).len(),
        scan_index(cfg, root)[i].1.contains(p),
    ensures
        exists|c: Seq<u8>| #[trigger] file_in_tree(root, p, c) && c.len() > 0,
{
    let pairs = entry_pairs(cfg, root);
    let db = scan_index(cfg, root);
    let empty = Seq::<(u16, Seq<Seq<char>>)>::empty();
    lemma_wf_insert_all(empty, pairs);
    lemma_group_of_position(db, i);
    lemma_group_of_insert_all(empty, pairs, db[i].0);
    assert(group_of(empty, db[i].0) + paths_for(pairs, db[i].0) =~= paths_for(pairs, db[i].0));
    lemma_paths_for_member(pairs, db[i].0, p);
    let k = choose|k: int| 0 <= k < pairs.len() && pairs[k] == (db[i].0, p);
    lemma_entry_pairs_sound(cfg, root, k);
    let (p2, c) = choose|p2: Seq<char>, c: Seq<u8>|
        #![trigger file_in_tree(root, p2, c)]
        file_in_tree(root, p2, c) && c.len() > 0 && pairs[k] == (crc16_usb_of(c), p2);
    assert(p2 == p);
}

/// Grouping correctness, first half: two files with identical content
/// land in the same group.
pub proof fn lemma_equal_content_same_group(
    cfg: ScanConfig,
    root: FsEntry,
    p1: Seq<char>,
    p2: Seq<char>,
    c: Seq<u8>,
)
    requires
        cfg.recursive,
        root is Dir,
        tree_ok(root),
        file_in_tree(root, p1, c),
        file_in_tree(root, p2, c),
        c.len() > 0,
    ensures
        exists|i: int|
            0 <= i < scan_index(cfg, root).len() && (#[trigger] scan_index(cfg, root)[i]).1.contains(
                p1,
            ) && scan_index(cfg, root)[i].1.contains(p2),
{
    let pairs = entry_pairs(cfg, root);
    let fp = crc16_usb_of(c);
    let db = scan_index(cfg, root);
    let empty = Seq::<(u16, Seq<Seq<char>>)>::empty();
    lemma_entry_pairs_complete(cfg, root, p1, c);
    lemma_entry_pairs_complete(cfg, root, p2, c);
    lemma_wf_insert_all(empty, pairs);
    let k = choose|k: int| 0 <= k < pairs.len() && pairs[k] == (fp, p1);
    assert(pairs[k].0 == fp);
    assert(exists|k2: int| 0 <= k2 < pairs.len() && (#[trigger] pairs[k2]).0 == fp);
    assert(idx_contains(insert_all(empty, pairs), fp));
    assert(db == insert_all(empty, pairs));
    assert(idx_contains(db, fp));
    let i = choose|i: int| 0 <= i < db.len() && db[i].0 == fp;
    lemma_group_of_position(db, i);
    lemma_group_of_insert_all(empty, pairs, fp);
    assert(group_of(empty, fp) + paths_for(pairs, fp) =~= paths_for(pairs, fp));
    lemma_paths_for_member(pairs, fp, p1);
    lemma_paths_for_member(pairs, fp, p2);
    assert(db[i].1.contains(p1) && db[i].1.contains(p2));
}

/// Grouping correctness, second half: two files with different content
/// and no fingerprint collision never share a group, provided each path
/// names only its own file.
pub proof fn lemma_distinct_content_distinct_groups(
    cfg: ScanConfig,
    root: FsEntry,
    p1: Seq<char>,
    c1: Seq<u8>,
    p2: Seq<char>,
    c2: Seq<u8>,
)
    requires
        cfg.recursive,
        root is Dir,
        tree_ok(root),
        file_in_tree(root, p1, c1),
        file_in_tree(root, p2, c2),
        c1.len() > 0,
        c2.len() > 0,
        crc16_usb_of(c1) != crc16_usb_of(c2),
        occurrences(tree_file_paths(root), p1) <= 1,
        occurrences(tree_file_paths(root), p2) <= 1,
    ensures
        forall|i1: int, i2: int|
            0 <= i1 < scan_index(cfg, root).len() && 0 <= i2 < scan_index(cfg, root).len() && (
            #[trigger] scan_index(cfg, root)[i1]).1.contains(p1) && (#[trigger] scan_index(
                cfg,
                root,
            )[i2]).1.contains(p2) ==> i1 != i2,
{
    let pairs = entry_pairs(cfg, root);
    let fp1 = crc16_usb_of(c1);
    let fp2 = crc16_usb_of(c2);
    let db = scan_index(cfg, root);
    let empty = Seq::<(u16, Seq<Seq<char>>)>::empty();
    lemma_entry_pairs_complete(cfg, root, p1, c1);
    lemma_entry_pairs_complete(cfg, root, p2, c2);
    lemma_wf_insert_all(empty, pairs);
    lemma_entry_path_count(cfg, root, p1);
    lemma_entry_path_count(cfg, root, p2);
    assert forall|i1: int, i2: int|
        0 <= i1 < db.len() && 0 <= i2 < db.len() && (#[trigger] db[i1]).1.contains(p1) && (
        #[trigger] db[i2]).1.contains(p2) implies i1 != i2 by {
        lemma_group_of_position(db, i1);
        lemma_group_of_position(db, i2);
        lemma_group_of_insert_all(empty, pairs, db[i1].0);
        lemma_group_of_insert_all(empty, pairs, db[i2].0);
        assert(group_of(empty, db[i1].0) + paths_for(pairs, db[i1].0) =~= paths_for(
            pairs,
            db[i1].0,
        ));
        assert(group_of(empty, db[i2].0) + paths_for(pairs, db[i2].0) =~= paths_for(
            pairs,
            db[i2].0,
        ));
        if db[i1].0 != fp1 {
            lemma_occurrences_contains(paths_for(pairs, db[i1].0), p1);
            lemma_paths_for_member(pairs, fp1, p1);
            lemma_occurrences_contains(paths_for(pairs, fp1), p1);
            lemma_two_fingerprints_bound(pairs, db[i1].0, fp1, p1);
            assert(false);
        }
        if db[i2].0 != fp2 {
            lemma_occurrences_contains(paths_for(pairs, db[i2].0), p2);
            lemma_paths_for_member(pairs, fp2, p2);
            lemma_occurrences_contains(paths_for(pairs, fp2), p2);
            lemma_two_fingerprints_bound(pairs, db[i2].0, fp2, p2);
            assert(false);
        }
        assert(db[i1].0 != db[i2].0);
    }
}

/// No pair carries the fingerprint: its paths are empty.
proof fn lemma_paths_for_absent(pairs: Seq<(u16, Seq<char>)>, fp: u16)
    requires
        forall|k: int| 0 <= k < pairs.len() ==> (#[trigger] pairs[k]).0 != fp,
    ensures
        paths_for(pairs, fp).len() == 0,
    decreases pairs.len(),
{
    if pairs.len() == 0 {
    } else {
        assert(forall|k: int|
            0 <= k < pairs.drop_first().len() ==> (#[trigger] pairs.drop_first()[k]).0 != fp
                && pairs.drop_first()[k] == pairs[k + 1]);
        lemma_paths_for_absent(pairs.drop_first(), fp);
    }
}

/// With pairwise distinct fingerprints, no fingerprint gathers more
/// than one path.
proof fn lemma_paths_for_short(pairs: Seq<(u16, Seq<char>)>, fp: u16)
    requires
        forall|k: int, l: int| 0 <= k < l < pairs.len() ==> pairs[k].0 != pairs[l].0,
    ensures
        paths_for(pairs, fp).len() <= 1,
    decreases pairs.len(),
{
    if pairs.len() == 0 {
    } else {
        assert(forall|k: int, l: int|
            0 <= k < l < pairs.drop_first().len() ==> pairs.drop_first()[k] == pairs[k + 1]
                && pairs.drop_first()[l] == pairs[l + 1]);
        if pairs[0].0 == fp {
            assert(forall|k: int|
                0 <= k < pairs.drop_first().len() ==> (#[trigger] pairs.drop_first()[k]) == pairs[k
                    + 1]);
            lemma_paths_for_absent(pairs.drop_first(), fp);
            assert(paths_for(pairs, fp) == seq![pairs[0].1] + paths_for(pairs.drop_first(), fp));
        } else {
            lemma_paths_for_short(pairs.drop_first(), fp);
        }
    }
}

/// Groups that all hold at most one path yield no duplicates.
proof fn lemma_duplicates_from_empty(s: Seq<(u16, Seq<Seq<char>>)>, i: int)
    requires
        0 <= i,
        forall|j: int| 0 <= j < s.len() ==> (#[trigger] s[j]).1.len() <= 1,
    ensures
        duplicates_from(s, i).len() == 0,
    decreases s.len() - i,
{
    if i >= s.len() {
    } else {
        lemma_duplicates_from_empty(s, i + 1);
    }
}

/// No-duplicates path: when the walk's fingerprints are pairwise
/// distinct — distinct contents and no collision in the 16-bit space —
/// the scan reports no duplicate group at all. Two distinct contents
/// that do collide are reported as duplicates by design, so the law is
/// stated over the fingerprints.
pub proof fn lemma_no_duplicates(cfg: ScanConfig, root: FsEntry)
    requires
        forall|k: int, l: int|
            0 <= k < l < entry_pairs(cfg, root).len() ==> entry_pairs(cfg, root)[k].0 != entry_pairs(
                cfg,
                root,
            )[l].0,
    ensures
        duplicates_of(scan_index(cfg, root)).len() == 0,
{
    let pairs = entry_pairs(cfg, root);
    let db = scan_index(cfg, root);
    let empty = Seq::<(u16, Seq<Seq<char>>)>::empty();
    lemma_wf_insert_all(empty, pairs);
    assert forall|j: int| 0 <= j < db.len() implies (#[trigger] db[j]).1.len() <= 1 by {
        lemma_group_of_position(db, j);
        lemma_group_of_insert_all(empty, pairs, db[j].0);
        assert(group_of(empty, db[j].0) + paths_for(pairs, db[j].0) =~= paths_for(
            pairs,
            db[j].0,
        ));
        lemma_paths_for_short(pairs, db[j].0);
    }
    lemma_duplicates_from_empty(db, 0);
}

} // verus!
