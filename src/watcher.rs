use vstd::prelude::*;
use crate::index::ImageIndex;
use crate::text::{normalize_path, normalized, views};

verus! {

/// `c` is `lower` or `upper`.
pub open spec fn either(c: char, lower: char, upper: char) -> bool {
    c == lower || c == upper
}

/// The path ends in `.jpg` or `.png`, letters in either case.
pub open spec fn is_image_path(p: Seq<char>) -> bool {
    let n = p.len() as int;
    n >= 4 && p[n - 4] == '.' && ((either(p[n - 3], 'j', 'J') && either(p[n - 2], 'p', 'P')
        && either(p[n - 1], 'g', 'G')) || (either(p[n - 3], 'p', 'P') && either(
        p[n - 2],
        'n',
        'N',
    ) && either(p[n - 1], 'g', 'G')))
}

/// Whether `p` names an accepted image file.
pub fn looks_like_image(p: &str) -> (r: bool)
    ensures
        r == is_image_path(p@),
{
    let n = p.unicode_len();
    if n < 4 {
        return false;
    }
    let dot = p.get_char(n - 4);
    let a = p.get_char(n - 3);
    let b = p.get_char(n - 2);
    let c = p.get_char(n - 1);
    dot == '.' && ((
    (a == 'j' || a == 'J') && (b == 'p' || b == 'P') && (c == 'g' || c == 'G')) || ((a == 'p' || a
        == 'P') && (b == 'n' || b == 'N') && (c == 'g' || c == 'G')))
}

/// What the file-system notifier delivered.
pub enum WatchEvent {
    /// Files or directories were created at these paths.
    Created(Vec<String>),
    /// Any other change.
    Other,
    /// The notifier reported an error for this event.
    Failed,
}

/// `q` is the normalized form of one of `raw` that names an image.
pub open spec fn created_image(raw: Seq<Seq<char>>, q: Seq<char>) -> bool {
    exists|i: int| 0 <= i < raw.len() && normalized(#[trigger] raw[i]) == q && is_image_path(q)
}

proof fn lemma_push_contains(s: Seq<Seq<char>>, x: Seq<char>, q: Seq<char>)
    ensures
        s.push(x).contains(q) <==> (s.contains(q) || q == x),
{
    assert(s.push(x)[s.len() as int] == x);
    if s.contains(q) {
        let k = choose|k: int| 0 <= k < s.len() && s[k] == q;
        assert(s.push(x)[k] == q);
    }
    if s.push(x).contains(q) && q != x {
        let k = choose|k: int| 0 <= k < s.len() + 1 && s.push(x)[k] == q;
        assert(s[k] == q);
    }
}

/// Applies one notification to the index: each created image path is
/// normalized and inserted once; every other event leaves the index as it
/// was. Returns the paths that were new.
pub fn handle_event(index: &mut ImageIndex, event: WatchEvent) -> (r: Vec<String>)
    requires
        old(index).wf(),
    ensures
        final(index).wf(),
        forall|q: Seq<char>| views(r@).contains(q) <==> (!old(index)@.contains(q) && final(index)@.contains(q)),
        event is Created ==> forall|q: Seq<char>|
            final(index)@.contains(q) <==> (old(index)@.contains(q) || created_image(
                views(event->Created_0@),
                q,
            )),
        !(event is Created) ==> final(index)@ == old(index)@,
{
    let ghost start = index@;
    let mut added: Vec<String> = Vec::new();
    match event {
        WatchEvent::Created(raw) => {
            let mut i: usize = 0;
            while i < raw.len()
                invariant
                    i <= raw.len(),
                    index.wf(),
                    forall|q: Seq<char>|
                        index@.contains(q) <==> (start.contains(q) || created_image(
                            views(raw@.subrange(0, i as int)),
                            q,
                        )),
                    forall|q: Seq<char>|
                        views(added@).contains(q) <==> (!start.contains(q) && index@.contains(q)),
                decreases raw.len() - i,
            {
                let ghost before = index@;
                let ghost before_added = views(added@);
                let ghost prev = views(raw@.subrange(0, i as int));
                let ghost next = views(raw@.subrange(0, i as int + 1));
                assert(next =~= prev.push(raw@[i as int]@));
                let p = normalize_path(raw[i].as_str());
                let ghost pv = p@;
                let ghost fresh = is_image_path(pv) && !before.contains(pv);
                if looks_like_image(p.as_str()) {
                    let copy = p.clone();
                    if index.insert(p) {
                        added.push(copy);
                        assert(views(added@) =~= before_added.push(pv));
                    }
                }
                assert(fresh ==> index@ == before.push(pv) && views(added@) == before_added.push(pv));
                assert(!fresh ==> index@ == before && views(added@) == before_added);
                assert forall|q: Seq<char>|
                    created_image(next, q) <==> (created_image(prev, q) || (q == pv && is_image_path(q))) by {
                    if created_image(next, q) {
                        let j = choose|j: int|
                            0 <= j < next.len() && normalized(#[trigger] next[j]) == q
                                && is_image_path(q);
                        if j < i {
                            assert(prev[j] == next[j]);
                        }
                    }
                    if created_image(prev, q) {
                        let j = choose|j: int|
                            0 <= j < prev.len() && normalized(#[trigger] prev[j]) == q
                                && is_image_path(q);
                        assert(next[j] == prev[j]);
                    }
                    if q == pv && is_image_path(q) {
                        assert(next[i as int] == raw@[i as int]@);
                    }
                }
                assert forall|q: Seq<char>|
                    index@.contains(q) <==> (before.contains(q) || (q == pv && is_image_path(q))) by {
                    if fresh {
                        lemma_push_contains(before, pv, q);
                    }
                }
                assert forall|q: Seq<char>|
                    views(added@).contains(q) <==> (before_added.contains(q) || (fresh && q == pv)) by {
                    if fresh {
                        lemma_push_contains(before_added, pv, q);
                    }
                }
                assert forall|q: Seq<char>|
                    index@.contains(q) <==> (start.contains(q) || created_image(next, q)) by {
                    assert(before.contains(q) <==> (start.contains(q) || created_image(prev, q)));
                    if fresh {
                        lemma_push_contains(before, pv, q);
                    }
                    assert(created_image(next, q) <==> (created_image(prev, q) || (q == pv && is_image_path(q))));
                }
                assert forall|q: Seq<char>|
                    views(added@).contains(q) <==> (!start.contains(q) && index@.contains(q)) by {
                    assert(before_added.contains(q) <==> (!start.contains(q) && before.contains(q)));
                    assert(before.contains(q) <==> (start.contains(q) || created_image(prev, q)));
                }
                i = i + 1;
                assert(views(raw@.subrange(0, i as int)) == next);
            }
            assert(raw@.subrange(0, raw.len() as int) =~= raw@);
            assert(views(raw@.subrange(0, raw.len() as int)) == views(raw@));
            assert forall|q: Seq<char>|
                index@.contains(q) <==> (start.contains(q) || created_image(views(raw@), q)) by {
                assert(index@.contains(q) <==> (start.contains(q) || created_image(
                    views(raw@.subrange(0, raw.len() as int)),
                    q,
                )));
            }
            assert(forall|q: Seq<char>|
                index@.contains(q) <==> (old(index)@.contains(q) || created_image(
                    views(event->Created_0@),
                    q,
                )));
        },
        _ => {},
    }
    added
}

} // verus!
