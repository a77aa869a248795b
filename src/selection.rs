use vstd::prelude::*;
use crate::order::{insert_ordered, lemma_ordered_unique, ordered};
use crate::text::{blank, has_prefix, is_blank, starts_with, views};

verus! {

/// Every submitted folder is blank (true of an empty submission).
pub open spec fn all_blank(f: Seq<Seq<char>>) -> bool {
    forall|i: int| 0 <= i < f.len() ==> blank(#[trigger] f[i])
}

/// What a submission stands for: a blank one means the root alone.
pub open spec fn submitted(root: Seq<char>, f: Seq<Seq<char>>) -> Seq<Seq<char>> {
    if all_blank(f) {
        seq![root]
    } else {
        f
    }
}

/// `path` lies under at least one prefix of `sel`.
pub open spec fn matches_any(path: Seq<char>, sel: Seq<Seq<char>>) -> bool {
    exists|i: int| 0 <= i < sel.len() && has_prefix(path, #[trigger] sel[i])
}

/// `m` is the selection after appending the submission `f` to `cur`: both
/// together, each text once, in order.
pub open spec fn is_merge(
    root: Seq<char>,
    cur: Seq<Seq<char>>,
    f: Seq<Seq<char>>,
    m: Seq<Seq<char>>,
) -> bool {
    &&& ordered(m)
    &&& m.no_duplicates()
    &&& forall|q: Seq<char>| m.contains(q) <==> (cur.contains(q) || submitted(root, f).contains(q))
}

/// Appending the same submission a second time changes nothing.
pub proof fn lemma_append_idempotent(
    root: Seq<char>,
    cur: Seq<Seq<char>>,
    f: Seq<Seq<char>>,
    once: Seq<Seq<char>>,
    twice: Seq<Seq<char>>,
)
    requires
        is_merge(root, cur, f, once),
        is_merge(root, once, f, twice),
    ensures
        twice == once,
{
    assert forall|q: Seq<char>| twice.contains(q) <==> once.contains(q) by {
        assert(twice.contains(q) <==> (once.contains(q) || submitted(root, f).contains(q)));
        assert(once.contains(q) <==> (cur.contains(q) || submitted(root, f).contains(q)));
    }
    lemma_ordered_unique(twice, once);
}

/// There is one merge at most: the contents fix it.
pub proof fn lemma_merge_unique(
    root: Seq<char>,
    cur: Seq<Seq<char>>,
    f: Seq<Seq<char>>,
    m1: Seq<Seq<char>>,
    m2: Seq<Seq<char>>,
)
    requires
        is_merge(root, cur, f, m1),
        is_merge(root, cur, f, m2),
    ensures
        m1 == m2,
{
    lemma_ordered_unique(m1, m2);
}

/// Whether `v` holds a string equal to `s`.
pub(crate) fn holds_text(v: &Vec<String>, s: &String) -> (r: bool)
    ensures
        r == views(v@).contains(s@),
{
    let mut i: usize = 0;
    while i < v.len()
        invariant
            i <= v.len(),
            forall|j: int| 0 <= j < i ==> v@[j]@ != s@,
        decreases v.len() - i,
    {
        if v[i] == *s {
            assert(views(v@)[i as int] == s@);
            return true;
        }
        i = i + 1;
    }
    proof {
        if views(v@).contains(s@) {
            let j = choose|j: int| 0 <= j < views(v@).len() && views(v@)[j] == s@;
            assert(v@[j]@ == s@);
        }
    }
    false
}

/// A copy of every string of `v`.
pub(crate) fn copy_texts(v: &Vec<String>) -> (r: Vec<String>)
    ensures
        views(r@) == views(v@),
{
    let mut r: Vec<String> = Vec::new();
    let mut i: usize = 0;
    while i < v.len()
        invariant
            i <= v.len(),
            views(r@) == views(v@.subrange(0, i as int)),
        decreases v.len() - i,
    {
        let c = v[i].clone();
        assert(c@ == v@[i as int]@);
        let ghost before = views(r@);
        r.push(c);
        assert(views(r@) =~= before.push(c@));
        i = i + 1;
        assert(views(r@) =~= views(v@.subrange(0, i as int)));
    }
    assert(v@.subrange(0, v.len() as int) =~= v@);
    r
}

/// Whether every string of `v` is blank.
fn all_blank_texts(v: &Vec<String>) -> (r: bool)
    ensures
        r == all_blank(views(v@)),
{
    let mut i: usize = 0;
    while i < v.len()
        invariant
            i <= v.len(),
            forall|j: int| 0 <= j < i ==> blank(#[trigger] views(v@)[j]),
        decreases v.len() - i,
    {
        if !is_blank(v[i].as_str()) {
            assert(!blank(views(v@)[i as int]));
            return false;
        }
        i = i + 1;
    }
    true
}

/// The active folder prefixes, never empty, with the root they default to.
pub struct FolderSelection {
    root: String,
    folders: Vec<String>,
}

impl View for FolderSelection {
    type V = Seq<Seq<char>>;

    closed spec fn view(&self) -> Seq<Seq<char>> {
        views(self.folders@)
    }
}

impl FolderSelection {
    /// The root every blank submission falls back to.
    pub closed spec fn root_view(&self) -> Seq<char> {
        self.root@
    }

    /// A selection is never empty.
    pub open spec fn wf(&self) -> bool {
        self@.len() > 0
    }

    /// The selection that holds the root alone.
    pub fn new(root: String) -> (r: Self)
        ensures
            r.wf(),
            r.root_view() == root@,
            r@ == seq![root@],
    {
        let folders = vec![root.clone()];
        let r = FolderSelection { root, folders };
        assert(r@ =~= seq![r.root@]);
        r
    }

    /// The selection a stored or submitted list stands for.
    pub fn from_folders(root: String, folders: Vec<String>) -> (r: Self)
        ensures
            r.wf(),
            r.root_view() == root@,
            r@ == submitted(root@, views(folders@)),
    {
        let sel = FolderSelection::new(root);
        let folders = sel.plan_replace(folders);
        FolderSelection { root: sel.root, folders }
    }

    /// The root every blank submission falls back to.
    pub fn root(&self) -> (r: &str)
        ensures
            r@ == self.root_view(),
    {
        self.root.as_str()
    }

    /// Whether `path` lies under one of the active prefixes.
    pub fn covers(&self, path: &str) -> (r: bool)
        ensures
            r == matches_any(path@, self@),
    {
        let mut i: usize = 0;
        while i < self.folders.len()
            invariant
                i <= self.folders.len(),
                forall|j: int| 0 <= j < i ==> !has_prefix(path@, #[trigger] self@[j]),
            decreases self.folders.len() - i,
        {
            if starts_with(path, self.folders[i].as_str()) {
                assert(has_prefix(path@, self@[i as int]));
                return true;
            }
            i = i + 1;
        }
        false
    }

    /// A snapshot of the active prefixes, in order.
    pub fn query_selection(&self) -> (r: Vec<String>)
        ensures
            views(r@) == self@,
    {
        copy_texts(&self.folders)
    }

    /// The selection that replacing with `folders` would give.
    pub fn plan_replace(&self, folders: Vec<String>) -> (r: Vec<String>)
        ensures
            views(r@) == submitted(self.root_view(), views(folders@)),
            views(r@).len() > 0,
    {
        if all_blank_texts(&folders) {
            let r = vec![self.root.clone()];
            assert(views(r@) =~= seq![self.root@]);
            r
        } else {
            assert(views(folders@).len() > 0);
            folders
        }
    }

    /// The selection that appending `folders` would give: the current and
    /// the submitted folders, each once, in order.
    pub fn plan_append(&self, folders: Vec<String>) -> (r: Vec<String>)
        ensures
            is_merge(self.root_view(), self@, views(folders@), views(r@)),
            self.wf() ==> views(r@).len() > 0,
    {
        let extra = self.plan_replace(folders);
        let mut combined = copy_texts(&self.folders);
        let mut tail = extra;
        let ghost cur = views(combined@);
        let ghost g = views(tail@);
        combined.append(&mut tail);
        assert(views(combined@) =~= cur + g);
        let mut r: Vec<String> = Vec::new();
        let mut i: usize = 0;
        assert(views(r@) =~= Seq::<Seq<char>>::empty());
        while i < combined.len()
            invariant
                i <= combined.len(),
                views(combined@) == cur + g,
                ordered(views(r@)),
                views(r@).no_duplicates(),
                forall|q: Seq<char>|
                    views(r@).contains(q) <==> exists|k: int|
                        0 <= k < i && #[trigger] combined@[k]@ == q,
            decreases combined.len() - i,
        {
            let ghost before = views(r@);
            if !holds_text(&r, &combined[i]) {
                insert_ordered(&mut r, combined[i].clone());
            }
            assert forall|q: Seq<char>|
                views(r@).contains(q) <==> exists|k: int|
                    0 <= k < i + 1 && #[trigger] combined@[k]@ == q by {
                if exists|k: int| 0 <= k < i + 1 && #[trigger] combined@[k]@ == q {
                    let k = choose|k: int| 0 <= k < i + 1 && #[trigger] combined@[k]@ == q;
                    if k < i {
                        assert(before.contains(q));
                    }
                }
            }
            i = i + 1;
        }
        proof {
            assert forall|q: Seq<char>|
                views(r@).contains(q) <==> (cur.contains(q) || g.contains(q)) by {
                if views(r@).contains(q) {
                    let k = choose|k: int| 0 <= k < combined.len() && #[trigger] combined@[k]@ == q;
                    assert((cur + g)[k] == q);
                    if k < cur.len() {
                        assert(cur[k] == q);
                    } else {
                        assert(g[k - cur.len()] == q);
                    }
                }
                if cur.contains(q) {
                    let k = choose|k: int| 0 <= k < cur.len() && cur[k] == q;
                    assert((cur + g)[k] == q);
                    assert(combined@[k]@ == q);
                }
                if g.contains(q) {
                    let k = choose|k: int| 0 <= k < g.len() && g[k] == q;
                    assert((cur + g)[cur.len() + k] == q);
                    assert(combined@[cur.len() + k]@ == q);
                }
            }
            if self.wf() {
                assert(cur.contains(cur[0]));
                assert(views(r@).contains(cur[0]));
            }
        }
        r
    }

    /// Installs `folders` as the active selection.
    pub fn commit(&mut self, folders: Vec<String>)
        requires
            views(folders@).len() > 0,
        ensures
            final(self)@ == views(folders@),
            final(self).root_view() == old(self).root_view(),
            final(self).wf(),
    {
        self.folders = folders;
    }

    /// Replaces the selection wholesale; a blank submission selects the root.
    pub fn replace_selection(&mut self, folders: Vec<String>)
        ensures
            final(self)@ == submitted(old(self).root_view(), views(folders@)),
            all_blank(views(folders@)) ==> final(self)@ == seq![old(self).root_view()],
            final(self).root_view() == old(self).root_view(),
            final(self).wf(),
    {
        let next = self.plan_replace(folders);
        self.commit(next);
    }

    /// Adds `folders` to the selection, dropping duplicates and keeping the
    /// order of first occurrence.
    pub fn append_selection(&mut self, folders: Vec<String>)
        requires
            old(self).wf(),
        ensures
            is_merge(old(self).root_view(), old(self)@, views(folders@), final(self)@),
            final(self).root_view() == old(self).root_view(),
            final(self).wf(),
    {
        let next = self.plan_append(folders);
        self.commit(next);
    }
}

} // verus!
