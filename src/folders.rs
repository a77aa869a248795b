use vstd::prelude::*;
use crate::order::{insert_ordered, ordered};
use crate::text::{blank, is_blank, lines_of, normalize_path, normalized, split_lines, trim, trimmed_of, views};

verus! {

/// The root, then the normalized form of each non-blank line, in the order
/// of `lines`.
pub open spec fn folder_entries(root: Seq<char>, lines: Seq<Seq<char>>) -> Seq<Seq<char>> {
    seq![root] + lines.filter(|l: Seq<char>| !blank(l)).map_values(|l: Seq<char>| normalized(l))
}

proof fn lemma_folder_entries_push(root: Seq<char>, lines: Seq<Seq<char>>, l: Seq<char>)
    ensures
        folder_entries(root, lines.push(l)) == if blank(l) {
            folder_entries(root, lines)
        } else {
            folder_entries(root, lines).push(normalized(l))
        },
{
    reveal(Seq::filter);
    let pred = |x: Seq<char>| !blank(x);
    assert(lines.push(l).drop_last() =~= lines);
    let f = lines.filter(pred);
    if !blank(l) {
        assert(lines.push(l).filter(pred) == f.push(l));
        assert(f.push(l).map_values(|x: Seq<char>| normalized(x)) =~= f.map_values(
            |x: Seq<char>| normalized(x),
        ).push(normalized(l)));
        assert(folder_entries(root, lines.push(l)) =~= folder_entries(root, lines).push(
            normalized(l),
        ));
    } else {
        assert(lines.push(l).filter(pred) == f);
    }
}

/// The folders of a directory listing (one per line, blank lines skipped,
/// separators normalized) together with the root, in order.
pub fn folders_from_listing(listing: &str, root: &str) -> (r: Vec<String>)
    ensures
        ordered(views(r@)),
        views(r@).to_multiset() == folder_entries(root@, lines_of(listing@)).to_multiset(),
{
    let lines = split_lines(listing);
    let mut r: Vec<String> = Vec::new();
    assert(views(r@) =~= Seq::<Seq<char>>::empty());
    insert_ordered(&mut r, root.to_owned());
    proof {
        broadcast use vstd::seq_lib::group_to_multiset_ensures;
        reveal(Seq::filter);
        assert(views(lines@).subrange(0, 0).filter(|l: Seq<char>| !blank(l)) =~= Seq::<
            Seq<char>,
        >::empty());
        assert(folder_entries(root@, views(lines@).subrange(0, 0)) =~= Seq::<
            Seq<char>,
        >::empty().push(root@));
    }
    let mut i: usize = 0;
    while i < lines.len()
        invariant
            i <= lines.len(),
            views(lines@) == lines_of(listing@),
            ordered(views(r@)),
            views(r@).to_multiset() == folder_entries(
                root@,
                views(lines@).subrange(0, i as int),
            ).to_multiset(),
        decreases lines.len() - i,
    {
        let ghost l = lines@[i as int]@;
        proof {
            assert(views(lines@).subrange(0, i as int + 1) =~= views(lines@).subrange(
                0,
                i as int,
            ).push(l));
            lemma_folder_entries_push(root@, views(lines@).subrange(0, i as int), l);
        }
        if !is_blank(lines[i].as_str()) {
            let p = normalize_path(lines[i].as_str());
            insert_ordered(&mut r, p);
            proof {
                broadcast use vstd::seq_lib::group_to_multiset_ensures;
            }
        }
        i = i + 1;
    }
    assert(views(lines@).subrange(0, lines.len() as int) =~= views(lines@));
    r
}

/// The folders a fuzzy search printed: its output without surrounding white
/// space, one folder per line, separators normalized.
pub fn folders_from_search(output: &str) -> (r: Vec<String>)
    ensures
        exists|t: Seq<char>|
            trimmed_of(output@, t) && views(r@) == lines_of(t).map_values(
                |l: Seq<char>| normalized(l),
            ),
{
    let t = trim(output);
    let lines = split_lines(t);
    let mut r: Vec<String> = Vec::new();
    let mut i: usize = 0;
    while i < lines.len()
        invariant
            i <= lines.len(),
            views(r@) == views(lines@).subrange(0, i as int).map_values(
                |l: Seq<char>| normalized(l),
            ),
        decreases lines.len() - i,
    {
        let ghost before = views(r@);
        let p = normalize_path(lines[i].as_str());
        assert(views(lines@)[i as int] == lines@[i as int]@);
        r.push(p);
        assert(views(r@) =~= before.push(normalized(lines@[i as int]@)));
        assert(views(r@) =~= views(lines@).subrange(0, i as int + 1).map_values(
            |l: Seq<char>| normalized(l),
        ));
        i = i + 1;
    }
    assert(views(lines@).subrange(0, lines.len() as int) =~= views(lines@));
    r
}

} // verus!
