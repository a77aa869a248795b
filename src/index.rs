use vstd::prelude::*;
use rand::Rng;
use crate::selection::{holds_text, matches_any, FolderSelection};
use crate::text::{lines_of, normalize_path, normalized, split_lines, views};
use crate::watcher::{is_image_path, looks_like_image};

verus! {

/// The members of `idx` that lie under a prefix of `sel`, in index order.
pub open spec fn matching(idx: Seq<Seq<char>>, sel: Seq<Seq<char>>) -> Seq<Seq<char>> {
    idx.filter(|p: Seq<char>| matches_any(p, sel))
}

/// Relies on rand's thread_rng and Rng::gen_range: a value of `0..n`, which
/// panics only on an empty range.
#[verifier::external_body]
fn random_below(n: usize) -> (r: usize)
    requires
        n > 0,
    ensures
        r < n,
{
    rand::thread_rng().gen_range(0..n)
}

/// The set of known image paths; each path is held once.
pub struct ImageIndex {
    paths: Vec<String>,
}

impl View for ImageIndex {
    type V = Seq<Seq<char>>;

    closed spec fn view(&self) -> Seq<Seq<char>> {
        views(self.paths@)
    }
}

/// Inserting a new path that the selection covers adds exactly one candidate.
pub proof fn lemma_insert_adds_one_candidate(
    idx: Seq<Seq<char>>,
    sel: Seq<Seq<char>>,
    p: Seq<char>,
)
    requires
        !idx.contains(p),
        matches_any(p, sel),
    ensures
        matching(idx.push(p), sel).len() == matching(idx, sel).len() + 1,
{
    reveal(Seq::filter);
    assert(idx.push(p).drop_last() =~= idx);
}

proof fn lemma_matching_empty(idx: Seq<Seq<char>>, sel: Seq<Seq<char>>)
    ensures
        matching(idx, sel).len() == 0 <==> forall|i: int|
            0 <= i < idx.len() ==> !matches_any(#[trigger] idx[i], sel),
{
    let pred = |p: Seq<char>| matches_any(p, sel);
    if matching(idx, sel).len() == 0 {
        assert forall|i: int| 0 <= i < idx.len() implies !matches_any(#[trigger] idx[i], sel) by {
            if matches_any(idx[i], sel) {
                idx.lemma_filter_contains(pred, i);
            }
        }
    } else {
        idx.lemma_filter_pred(pred, 0);
        idx.lemma_filter_contains_rev(pred, matching(idx, sel)[0]);
        let j = choose|j: int| 0 <= j < idx.len() && idx[j] == matching(idx, sel)[0];
        assert(matches_any(idx[j], sel));
    }
}

/// `q` is the normalized form of a line of `listing` that names an image.
pub open spec fn listed(listing: Seq<char>, q: Seq<char>) -> bool {
    exists|i: int|
        0 <= i < lines_of(listing).len() && is_image_path(normalized(#[trigger] lines_of(listing)[i])) && normalized(
            lines_of(listing)[i],
        ) == q
}

impl ImageIndex {
    /// No path is held twice.
    pub open spec fn wf(&self) -> bool {
        self@.no_duplicates()
    }

    /// The empty index.
    pub fn new() -> (r: Self)
        ensures
            r.wf(),
            r@ == Seq::<Seq<char>>::empty(),
    {
        let r = ImageIndex { paths: Vec::new() };
        assert(r@ =~= Seq::<Seq<char>>::empty());
        r
    }

    /// How many paths are known.
    pub fn len(&self) -> (r: usize)
        ensures
            r == self@.len(),
    {
        self.paths.len()
    }

    /// Whether `path` is known.
    pub fn contains(&self, path: &str) -> (r: bool)
        ensures
            r == self@.contains(path@),
    {
        holds_text(&self.paths, &path.to_owned())
    }

    /// Adds `path` unless it is known; tells whether it was added.
    pub fn insert(&mut self, path: String) -> (r: bool)
        requires
            old(self).wf(),
        ensures
            final(self).wf(),
            r == !old(self)@.contains(path@),
            r ==> final(self)@ == old(self)@.push(path@),
            !r ==> final(self)@ == old(self)@,
    {
        if holds_text(&self.paths, &path) {
            false
        } else {
            let ghost before = self@;
            let ghost p = path@;
            self.paths.push(path);
            assert(self@ =~= before.push(p));
            true
        }
    }

    /// Evicts `path`; does nothing when it is not known.
    pub fn remove(&mut self, path: &str)
        requires
            old(self).wf(),
        ensures
            final(self).wf(),
            !final(self)@.contains(path@),
            forall|q: Seq<char>| q != path@ ==> (final(self)@.contains(q) <==> old(self)@.contains(q)),
            final(self)@.len() == if old(self)@.contains(path@) {
                old(self)@.len() - 1
            } else {
                old(self)@.len() as int
            },
    {
        let ghost before = self@;
        let target = path.to_owned();
        let mut i: usize = 0;
        while i < self.paths.len()
            invariant
                self@ == before,
                target@ == path@,
                i <= self.paths.len(),
                forall|j: int| 0 <= j < i ==> self@[j] != path@,
            ensures
                self@ == before,
                i <= self.paths.len(),
                forall|j: int| 0 <= j < i ==> self@[j] != path@,
                i < self.paths.len() ==> self@[i as int] == path@,
            decreases self.paths.len() - i,
        {
            if self.paths[i] == target {
                break;
            }
            i = i + 1;
        }
        if i < self.paths.len() {
            assert(self@[i as int] == path@);
            self.paths.remove(i);
            assert(self@ =~= before.remove(i as int));
            proof {
                assert forall|q: Seq<char>| q != path@ implies (self@.contains(q)
                    <==> before.contains(q)) by {
                    if before.contains(q) {
                        let j = choose|j: int| 0 <= j < before.len() && before[j] == q;
                        if j < i {
                            assert(self@[j] == q);
                        } else {
                            assert(self@[j - 1] == q);
                        }
                    }
                    if self@.contains(q) {
                        let j = choose|j: int| 0 <= j < self@.len() && self@[j] == q;
                        if j < i {
                            assert(before[j] == q);
                        } else {
                            assert(before[j + 1] == q);
                        }
                    }
                }
                if self@.contains(path@) {
                    let j = choose|j: int| 0 <= j < self@.len() && self@[j] == path@;
                    if j < i {
                        assert(before[j] == path@);
                    } else {
                        assert(before[j + 1] == path@);
                    }
                }
            }
        }
    }

    /// The index of the image files that a listing names, one path per line,
    /// separators normalized; lines that name no image are skipped.
    pub fn from_listing(listing: &str) -> (r: Self)
        ensures
            r.wf(),
            forall|q: Seq<char>| r@.contains(q) <==> listed(listing@, q),
    {
        let lines = split_lines(listing);
        let mut idx = ImageIndex::new();
        let mut i: usize = 0;
        while i < lines.len()
            invariant
                i <= lines.len(),
                views(lines@) == lines_of(listing@),
                idx.wf(),
                forall|q: Seq<char>|
                    idx@.contains(q) <==> exists|j: int|
                        0 <= j < i && is_image_path(normalized(#[trigger] lines@[j]@)) && normalized(lines@[j]@) == q,
            decreases lines.len() - i,
        {
            let ghost before = idx@;
            assert(views(lines@)[i as int] == lines@[i as int]@);
            let p = normalize_path(lines[i].as_str());
            let ghost pv = p@;
            if looks_like_image(p.as_str()) {
                idx.insert(p);
                assert forall|q: Seq<char>|
                    idx@.contains(q) <==> exists|j: int|
                        0 <= j < i + 1 && is_image_path(normalized(#[trigger] lines@[j]@)) && normalized(lines@[j]@)
                            == q by {
                    if q == pv {
                        assert(idx@.contains(q)) by {
                            if !before.contains(q) {
                                assert(idx@[before.len() as int] == q);
                            }
                        }
                    } else {
                        if idx@.contains(q) {
                            let k = choose|k: int| 0 <= k < idx@.len() && idx@[k] == q;
                            if k < before.len() {
                                assert(before[k] == q);
                            }
                        }
                        if before.contains(q) {
                            let k = choose|k: int| 0 <= k < before.len() && before[k] == q;
                            if !before.contains(pv) {
                                assert(idx@[k] == q);
                            }
                        }
                    }
                }
            } else {
                assert forall|q: Seq<char>|
                    idx@.contains(q) <==> exists|j: int|
                        0 <= j < i + 1 && is_image_path(normalized(#[trigger] lines@[j]@)) && normalized(lines@[j]@)
                            == q by {
                    if exists|j: int|
                        0 <= j < i + 1 && is_image_path(normalized(#[trigger] lines@[j]@)) && normalized(lines@[j]@)
                            == q {
                        let j = choose|j: int|
                            0 <= j < i + 1 && is_image_path(normalized(#[trigger] lines@[j]@)) && normalized(
                                lines@[j]@,
                            ) == q;
                        assert(j < i);
                    }
                }
            }
            i = i + 1;
        }
        assert forall|q: Seq<char>| idx@.contains(q) <==> listed(listing@, q) by {
            if listed(listing@, q) {
                let j = choose|j: int|
                    0 <= j < lines_of(listing@).len() && is_image_path(normalized(#[trigger] lines_of(listing@)[j])) && normalized(lines_of(listing@)[j]) == q;
                assert(views(lines@)[j] == lines@[j]@);
            }
            if idx@.contains(q) {
                let j = choose|j: int|
                    0 <= j < lines.len() && is_image_path(normalized(#[trigger] lines@[j]@)) && normalized(lines@[j]@)
                        == q;
                assert(views(lines@)[j] == lines@[j]@);
            }
        }
        idx
    }

    /// The known paths that lie under a prefix of `sel`, in index order.
    pub fn candidates(&self, sel: &FolderSelection) -> (r: Vec<String>)
        ensures
            views(r@) == matching(self@, sel@),
    {
        let mut r: Vec<String> = Vec::new();
        let mut i: usize = 0;
        assert(self@.subrange(0, 0).filter(|p: Seq<char>| matches_any(p, sel@)) =~= views(r@))
            by {
            reveal(Seq::filter);
        }
        while i < self.paths.len()
            invariant
                i <= self.paths.len(),
                views(r@) == self@.subrange(0, i as int).filter(
                    |p: Seq<char>| matches_any(p, sel@),
                ),
            decreases self.paths.len() - i,
        {
            let ghost before = views(r@);
            let ghost s = self@.subrange(0, i as int + 1);
            proof {
                reveal(Seq::filter);
                assert(s.drop_last() =~= self@.subrange(0, i as int));
                assert(s.last() == self.paths@[i as int]@);
            }
            if sel.covers(self.paths[i].as_str()) {
                r.push(self.paths[i].clone());
                assert(views(r@) =~= before.push(s.last()));
            }
            i = i + 1;
        }
        assert(self@.subrange(0, self@.len() as int) =~= self@);
        r
    }

    /// The candidate at position `k` (taken modulo their number), or `None`
    /// when no known path lies under the selection.
    pub fn pick_matching(&self, sel: &FolderSelection, k: usize) -> (r: Option<String>)
        ensures
            matching(self@, sel@).len() == 0 ==> r is None,
            matching(self@, sel@).len() > 0 ==> r is Some && r->0@ == matching(self@, sel@)[k
                as int % matching(self@, sel@).len() as int],
    {
        let c = self.candidates(sel);
        if c.len() == 0 {
            None
        } else {
            let j = k % c.len();
            assert(views(c@)[j as int] == c@[j as int]@);
            Some(c[j].clone())
        }
    }

    /// One known path under the selection, drawn uniformly at random, or
    /// `None` when no known path lies under it.
    pub fn sample_matching(&self, sel: &FolderSelection) -> (r: Option<String>)
        ensures
            r is None <==> forall|i: int|
                0 <= i < self@.len() ==> !matches_any(#[trigger] self@[i], sel@),
            r is Some ==> self@.contains(r->0@) && matches_any(r->0@, sel@),
    {
        proof {
            lemma_matching_empty(self@, sel@);
        }
        let n = self.candidates(sel).len();
        if n == 0 {
            None
        } else {
            let k = random_below(n);
            let r = self.pick_matching(sel, k);
            proof {
                let m = matching(self@, sel@);
                let pred = |p: Seq<char>| matches_any(p, sel@);
                let j = k as int % m.len() as int;
                self@.lemma_filter_pred(pred, j);
                self@.lemma_filter_contains_rev(pred, m[j]);
            }
            r
        }
    }
}

} // verus!
