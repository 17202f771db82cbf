//! The fingerprint index: a mapping from content fingerprint to the
//! ordered sequence of file paths that produced it.
//!
//! The index is kept as a vector of groups in first-insertion order,
//! with pairwise distinct fingerprints. `insert` appends a path to the
//! group of its fingerprint, creating the group if absent, and never
//! fails; `duplicate_groups` surfaces every group holding more than one
//! path.

use vstd::prelude::*;

verus! {

/// The mathematical value of one group: its fingerprint and its paths.
pub open spec fn group_view(g: (u16, Vec<String>)) -> (u16, Seq<Seq<char>>) {
    (g.0, g.1@.map(|j: int, p: String| p@))
}

/// The mathematical value of a whole group vector.
pub open spec fn groups_view(gs: Vec<(u16, Vec<String>)>) -> Seq<(u16, Seq<Seq<char>>)> {
    gs@.map(|i: int, g: (u16, Vec<String>)| group_view(g))
}

/// Some group of `s` carries the fingerprint `fp`.
pub open spec fn idx_contains(s: Seq<(u16, Seq<Seq<char>>)>, fp: u16) -> bool {
    exists|i: int| 0 <= i < s.len() && s[i].0 == fp
}

/// The fingerprints of the groups are pairwise distinct.
pub open spec fn idx_wf(s: Seq<(u16, Seq<Seq<char>>)>) -> bool {
    forall|i: int, j: int| 0 <= i < j < s.len() ==> s[i].0 != s[j].0
}

/// Inserting one path under its fingerprint: the path is appended to
/// the first group carrying the fingerprint, or a fresh singleton
/// group is appended at the end.
pub open spec fn idx_insert(
    s: Seq<(u16, Seq<Seq<char>>)>,
    fp: u16,
    path: Seq<char>,
) -> Seq<(u16, Seq<Seq<char>>)>
    decreases s.len(),
{
    if s.len() == 0 {
        seq![(fp, seq![path])]
    } else if s[0].0 == fp {
        seq![(fp, s[0].1.push(path))] + s.drop_first()
    } else {
        seq![s[0]] + idx_insert(s.drop_first(), fp, path)
    }
}

/// Inserting a sequence of (fingerprint, path) pairs in order.
pub open spec fn insert_all(
    s: Seq<(u16, Seq<Seq<char>>)>,
    pairs: Seq<(u16, Seq<char>)>,
) -> Seq<(u16, Seq<Seq<char>>)>
    decreases pairs.len(),
{
    if pairs.len() == 0 {
        s
    } else {
        insert_all(idx_insert(s, pairs[0].0, pairs[0].1), pairs.drop_first())
    }
}

/// The paths of the first group carrying `fp`, or the empty sequence.
pub open spec fn group_of(s: Seq<(u16, Seq<Seq<char>>)>, fp: u16) -> Seq<Seq<char>>
    decreases s.len(),
{
    if s.len() == 0 {
        Seq::empty()
    } else if s[0].0 == fp {
        s[0].1
    } else {
        group_of(s.drop_first(), fp)
    }
}

/// The paths of those pairs that carry the fingerprint `fp`, in order.
pub open spec fn paths_for(pairs: Seq<(u16, Seq<char>)>, fp: u16) -> Seq<Seq<char>>
    decreases pairs.len(),
{
    if pairs.len() == 0 {
        Seq::empty()
    } else if pairs[0].0 == fp {
        seq![pairs[0].1] + paths_for(pairs.drop_first(), fp)
    } else {
        paths_for(pairs.drop_first(), fp)
    }
}

/// How many pairs carry the path `p`, under any fingerprint.
pub open spec fn path_count(pairs: Seq<(u16, Seq<char>)>, p: Seq<char>) -> nat
    decreases pairs.len(),
{
    if pairs.len() == 0 {
        0
    } else {
        (if pairs[0].1 == p {
            1nat
        } else {
            0nat
        }) + path_count(pairs.drop_first(), p)
    }
}

/// The groups holding more than one path, from position `i` onwards,
/// in index order.
pub open spec fn duplicates_from(s: Seq<(u16, Seq<Seq<char>>)>, i: int) -> Seq<
    (u16, Seq<Seq<char>>),
>
    decreases s.len() - i,
{
    if i < 0 || i >= s.len() {
        Seq::empty()
    } else if s[i].1.len() > 1 {
        seq![s[i]] + duplicates_from(s, i + 1)
    } else {
        duplicates_from(s, i + 1)
    }
}

/// The groups holding more than one path, in index order.
pub open spec fn duplicates_of(s: Seq<(u16, Seq<Seq<char>>)>) -> Seq<(u16, Seq<Seq<char>>)> {
    duplicates_from(s, 0)
}

/// Groups discovered paths by content fingerprint.
pub struct FingerprintIndex {
    groups: Vec<(u16, Vec<String>)>,
}

impl FingerprintIndex {
    /// The index as a sequence of (fingerprint, paths) groups in
    /// first-insertion order.
    pub closed spec fn view(&self) -> Seq<(u16, Seq<Seq<char>>)> {
        groups_view(self.groups)
    }

    /// A fresh, empty index.
    pub fn new() -> (idx: Self)
        ensures
            idx@ == Seq::<(u16, Seq<Seq<char>>)>::empty(),
    {
        let idx = FingerprintIndex { groups: Vec::new() };
        proof {
            assert(idx@ =~= Seq::<(u16, Seq<Seq<char>>)>::empty());
        }
        idx
    }

    /// Append `path` to the group of `fp`, creating the group if it is
    /// absent. Always succeeds.
    pub fn insert(&mut self, fp: u16, path: String)
        ensures
            final(self)@ == idx_insert(old(self)@, fp, path@),
    {
        let ghost s0 = self@;
        let n = self.groups.len();
        let mut i: usize = 0;
        while i < n
            invariant
                n == self.groups.len(),
                self == old(self),
                s0 == self@,
                forall|j: int| 0 <= j < i ==> s0[j].0 != fp,
            decreases n - i,
        {
            if self.groups[i].0 == fp {
                proof {
                    assert(s0[i as int].0 == fp);
                    lemma_idx_insert_found(s0, fp, path@, i as int);
                }
                let mut g = self.groups.remove(i);
                g.1.push(path);
                self.groups.insert(i, g);
                proof {
                    let s1 = groups_view(self.groups);
                    assert(g.1@ == old(self).groups@[i as int].1@.push(path));
                    assert(group_view(g).1 =~= s0[i as int].1.push(path@));
                    assert(s1 =~= s0.update(i as int, (fp, s0[i as int].1.push(path@))));
                }
                return ;
            }
            i = i + 1;
        }
        proof {
            lemma_idx_insert_absent(s0, fp, path@);
        }
        let mut v: Vec<String> = Vec::new();
        v.push(path);
        self.groups.push((fp, v));
        proof {
            let g = ((fp, v));
            assert(group_view(g).1 =~= seq![path@]);
            assert(groups_view(self.groups) =~= s0.push((fp, seq![path@])));
        }
    }

    /// Every group holding more than one path, in index order. An empty
    /// result means no fingerprint was produced by two or more paths.
    pub fn duplicate_groups(&self) -> (r: Vec<(u16, Vec<String>)>)
        ensures
            groups_view(r) == duplicates_of(self@),
    {
        let mut out: Vec<(u16, Vec<String>)> = Vec::new();
        let n = self.groups.len();
        let mut i: usize = 0;
        proof {
            assert(groups_view(out) =~= Seq::<(u16, Seq<Seq<char>>)>::empty());
        }
        while i < n
            invariant
                n == self.groups.len(),
                0 <= i <= n,
                groups_view(out) + duplicates_from(self@, i as int) == duplicates_of(self@),
            decreases n - i,
        {
            let ghost out0 = groups_view(out);
            if self.groups[i].1.len() > 1 {
                let fp = self.groups[i].0;
                let mut paths: Vec<String> = Vec::new();
                let m = self.groups[i].1.len();
                let mut j: usize = 0;
                while j < m
                    invariant
                        0 <= j <= m,
                        i < self.groups@.len(),
                        m == self.groups@[i as int].1.len(),
                        paths@.len() == j,
                        forall|k: int|
                            0 <= k < j ==> paths@[k] == self.groups@[i as int].1@[k],
                    decreases m - j,
                {
                    paths.push(self.groups[i].1[j].clone());
                    j = j + 1;
                }
                proof {
                    assert(paths@ =~= self.groups@[i as int].1@);
                    assert(group_view((fp, paths)) == self@[i as int]);
                }
                out.push((fp, paths));
                proof {
                    assert(groups_view(out) =~= out0.push(self@[i as int]));
                    assert(groups_view(out) + duplicates_from(self@, i + 1) =~= out0 + (seq![
                        self@[i as int],
                    ] + duplicates_from(self@, i + 1)));
                    assert(self@[i as int].1.len() > 1);
                }
            }
            i = i + 1;
        }
        proof {
            assert(groups_view(out) + duplicates_from(self@, n as int) =~= groups_view(out));
        }
        out
    }
}

/// Inserting a concatenation of pair sequences inserts the first part,
/// then the second.
pub proof fn lemma_insert_all_app(
    s: Seq<(u16, Seq<Seq<char>>)>,
    a: Seq<(u16, Seq<char>)>,
    b: Seq<(u16, Seq<char>)>,
)
    ensures
        insert_all(s, a + b) == insert_all(insert_all(s, a), b),
    decreases a.len(),
{
    if a.len() == 0 {
        assert(a + b =~= b);
    } else {
        assert((a + b)[0] == a[0]);
        assert((a + b).drop_first() =~= a.drop_first() + b);
        lemma_insert_all_app(idx_insert(s, a[0].0, a[0].1), a.drop_first(), b);
    }
}

/// Inserting under a fingerprint that first occurs at position `i`
/// appends the path to that group and touches nothing else.
pub proof fn lemma_idx_insert_found(
    s: Seq<(u16, Seq<Seq<char>>)>,
    fp: u16,
    path: Seq<char>,
    i: int,
)
    requires
        0 <= i < s.len(),
        s[i].0 == fp,
        forall|j: int| 0 <= j < i ==> s[j].0 != fp,
    ensures
        idx_insert(s, fp, path) == s.update(i, (fp, s[i].1.push(path))),
    decreases i,
{
    if i == 0 {
        assert(idx_insert(s, fp, path) =~= s.update(0, (fp, s[0].1.push(path))));
    } else {
        assert(s[0].0 != fp);
        assert(forall|j: int| 0 <= j < i - 1 ==> s.drop_first()[j].0 != fp);
        lemma_idx_insert_found(s.drop_first(), fp, path, i - 1);
        assert(idx_insert(s, fp, path) =~= s.update(i, (fp, s[i].1.push(path))));
    }
}

/// Inserting under a fingerprint that no group carries appends a fresh
/// singleton group at the end.
pub proof fn lemma_idx_insert_absent(s: Seq<(u16, Seq<Seq<char>>)>, fp: u16, path: Seq<char>)
    requires
        forall|j: int| 0 <= j < s.len() ==> s[j].0 != fp,
    ensures
        idx_insert(s, fp, path) == s.push((fp, seq![path])),
    decreases s.len(),
{
    if s.len() == 0 {
        assert(idx_insert(s, fp, path) =~= s.push((fp, seq![path])));
    } else {
        lemma_idx_insert_absent(s.drop_first(), fp, path);
        assert(idx_insert(s, fp, path) =~= s.push((fp, seq![path])));
    }
}

} // verus!
