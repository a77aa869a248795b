use vstd::prelude::*;

verus! {

/// A path with every backslash turned into a forward slash.
pub open spec fn normalized(s: Seq<char>) -> Seq<char> {
    s.map_values(|c: char| if c == '\\' { '/' } else { c })
}

/// `prefix` is a prefix of `path`, character by character.
pub open spec fn has_prefix(path: Seq<char>, prefix: Seq<char>) -> bool {
    prefix.len() <= path.len() && path.subrange(0, prefix.len() as int) == prefix
}

/// The characters that carry Unicode's White_Space property.
pub open spec fn is_white_space(c: char) -> bool {
    ('\u{9}' <= c && c <= '\u{d}') || c == ' ' || c == '\u{85}' || c == '\u{a0}'
        || c == '\u{1680}' || ('\u{2000}' <= c && c <= '\u{200a}') || c == '\u{2028}'
        || c == '\u{2029}' || c == '\u{202f}' || c == '\u{205f}' || c == '\u{3000}'
}

/// Every character of `s` is white space (true of the empty text).
pub open spec fn blank(s: Seq<char>) -> bool {
    forall|i: int| 0 <= i < s.len() ==> is_white_space(#[trigger] s[i])
}

/// Relies on str::replace: every match of the pattern `'\\'` is replaced by `"/"`.
#[verifier::external_body]
fn replace_backslashes(s: &str) -> (r: String)
    ensures
        r@ == normalized(s@),
{
    s.replace('\\', "/")
}

/// Relies on char::is_whitespace: true exactly for White_Space characters.
#[verifier::external_body]
fn char_is_whitespace(c: char) -> (r: bool)
    ensures
        r == is_white_space(c),
{
    c.is_whitespace()
}

/// Turns every `\` separator of `raw` into `/`.
pub fn normalize_path(raw: &str) -> (r: String)
    ensures
        r@ == normalized(raw@),
{
    replace_backslashes(raw)
}

/// Whether `path` begins with `prefix`.
pub fn starts_with(path: &str, prefix: &str) -> (r: bool)
    ensures
        r == has_prefix(path@, prefix@),
{
    let n = path.unicode_len();
    let m = prefix.unicode_len();
    if m > n {
        return false;
    }
    let mut i: usize = 0;
    while i < m
        invariant
            m == prefix@.len(),
            n == path@.len(),
            m <= n,
            i <= m,
            forall|j: int| 0 <= j < i ==> path@[j] == prefix@[j],
        decreases m - i,
    {
        if path.get_char(i) != prefix.get_char(i) {
            return false;
        }
        i = i + 1;
    }
    assert(path@.subrange(0, m as int) =~= prefix@);
    true
}

/// Whether `s` holds nothing but white space.
pub fn is_blank(s: &str) -> (r: bool)
    ensures
        r == blank(s@),
{
    let n = s.unicode_len();
    let mut i: usize = 0;
    while i < n
        invariant
            n == s@.len(),
            i <= n,
            forall|j: int| 0 <= j < i ==> is_white_space(#[trigger] s@[j]),
        decreases n - i,
    {
        if !char_is_whitespace(s.get_char(i)) {
            return false;
        }
        i = i + 1;
    }
    true
}

/// `t` is `s` without its leading and trailing white space.
pub open spec fn trimmed_of(s: Seq<char>, t: Seq<char>) -> bool {
    exists|a: int, b: int|
        0 <= a <= b <= s.len() && t == s.subrange(a, b) && blank(s.subrange(0, a)) && blank(
            s.subrange(b, s.len() as int),
        ) && (a < b ==> !is_white_space(s[a]) && !is_white_space(s[b - 1]))
}

/// `s` without leading and trailing white space.
pub fn trim(s: &str) -> (r: &str)
    ensures
        trimmed_of(s@, r@),
{
    let n = s.unicode_len();
    let mut a: usize = 0;
    while a < n && char_is_whitespace(s.get_char(a))
        invariant
            n == s@.len(),
            a <= n,
            forall|j: int| 0 <= j < a ==> is_white_space(#[trigger] s@[j]),
        decreases n - a,
    {
        a = a + 1;
    }
    let mut b: usize = n;
    while b > a && char_is_whitespace(s.get_char(b - 1))
        invariant
            n == s@.len(),
            a <= b <= n,
            forall|j: int| b <= j < n ==> is_white_space(#[trigger] s@[j]),
        decreases b,
    {
        b = b - 1;
    }
    let r = s.substring_char(a, b);
    assert(blank(s@.subrange(0, a as int)));
    assert(blank(s@.subrange(b as int, n as int)));
    r
}

/// The pieces of `s` between `'\n'` separators, in order; the empty text has
/// one empty piece.
pub open spec fn lines_of(s: Seq<char>) -> Seq<Seq<char>>
    decreases s.len(),
{
    if s.len() == 0 {
        seq![Seq::<char>::empty()]
    } else {
        let prev = lines_of(s.drop_last());
        if s.last() == '\n' {
            prev.push(Seq::<char>::empty())
        } else {
            prev.update(prev.len() - 1, prev.last().push(s.last()))
        }
    }
}

/// The views of a vector of strings.
pub open spec fn views(v: Seq<String>) -> Seq<Seq<char>> {
    v.map_values(|x: String| x@)
}

/// Splits `s` at each `'\n'`.
pub fn split_lines(s: &str) -> (r: Vec<String>)
    ensures
        views(r@) == lines_of(s@),
{
    let n = s.unicode_len();
    let mut pieces: Vec<String> = Vec::new();
    let mut start: usize = 0;
    let mut i: usize = 0;
    assert(s@.subrange(0, 0) =~= Seq::<char>::empty());
    assert(views(pieces@) =~= Seq::<Seq<char>>::empty());
    assert(views(pieces@).push(s@.subrange(0, 0)) =~= lines_of(s@.subrange(0, 0)));
    while i < n
        invariant
            n == s@.len(),
            start <= i <= n,
            views(pieces@).push(s@.subrange(start as int, i as int)) == lines_of(
                s@.subrange(0, i as int),
            ),
        decreases n - i,
    {
        let c = s.get_char(i);
        let ghost before = views(pieces@);
        let ghost t = s@.subrange(0, i as int + 1);
        let ghost cur = s@.subrange(start as int, i as int);
        proof {
            assert(t.drop_last() =~= s@.subrange(0, i as int));
            assert(t.last() == c);
            assert(lines_of(t.drop_last()) == before.push(cur));
        }
        if c == '\n' {
            let piece = s.substring_char(start, i).to_owned();
            pieces.push(piece);
            start = i + 1;
            assert(views(pieces@) =~= before.push(cur));
            assert(s@.subrange(start as int, i as int + 1) =~= Seq::<char>::empty());
            assert(views(pieces@).push(s@.subrange(start as int, i as int + 1)) =~= lines_of(t));
        } else {
            assert(cur.push(c) =~= s@.subrange(start as int, i as int + 1));
            assert(lines_of(t) == before.push(cur).update(before.len() as int, cur.push(c)));
            assert(before.push(cur).update(before.len() as int, cur.push(c)) =~= before.push(
                cur.push(c),
            ));
            assert(views(pieces@).push(s@.subrange(start as int, i as int + 1)) =~= lines_of(t));
        }
        i = i + 1;
    }
    let last = s.substring_char(start, n).to_owned();
    let ghost before = views(pieces@);
    pieces.push(last);
    assert(s@.subrange(0, n as int) =~= s@);
    assert(views(pieces@) =~= before.push(s@.subrange(start as int, n as int)));
    pieces
}

/// Splitting a text into its lines.
pub trait LineSplitter {
    fn split_lines(&self) -> Vec<String>;
}

impl<'a> LineSplitter for &'a str {
    fn split_lines(&self) -> (r: Vec<String>)
        ensures
            views(r@) == lines_of(self@),
    {
        split_lines(*self)
    }
}

} // verus!
