//! Characters of a string, and which of them are whitespace.
use vstd::prelude::*;

verus! {

/// Whether `c` has the Unicode `White_Space` property, the property that
/// `char::is_whitespace` tests: tab, line feed, vertical tab, form feed,
/// carriage return, space, next line, no-break space, ogham space mark, the
/// spaces U+2000 to U+200A, line and paragraph separator, narrow no-break
/// space, medium mathematical space and ideographic space.
pub open spec fn is_white_space(c: char) -> bool {
    let u = c as u32;
    ||| 0x09 <= u <= 0x0D
    ||| u == 0x20
    ||| u == 0x85
    ||| u == 0xA0
    ||| u == 0x1680
    ||| 0x2000 <= u <= 0x200A
    ||| u == 0x2028
    ||| u == 0x2029
    ||| u == 0x202F
    ||| u == 0x205F
    ||| u == 0x3000
}

/// Whether `c` is whitespace (`char::is_whitespace`).
pub fn char_is_whitespace(c: char) -> (r: bool)
    ensures
        r == is_white_space(c),
{
    let u = c as u32;
    (0x09 <= u && u <= 0x0D) || u == 0x20 || u == 0x85 || u == 0xA0 || u == 0x1680 || (0x2000 <= u
        && u <= 0x200A) || u == 0x2028 || u == 0x2029 || u == 0x202F || u == 0x205F || u == 0x3000
}

/// The characters of `s`, in order.
pub fn chars_of(s: &str) -> (v: Vec<char>)
    ensures
        v@ == s@,
{
    broadcast use vstd::string::group_string_axioms;
    let mut v: Vec<char> = Vec::new();
    for c in it: s.chars()
        invariant
            it.seq() == s@,
            v@ == it.seq().take(it.index() as int),
    {
        v.push(c);
        assert(v@ =~= it.seq().take(it.index() + 1));
    }
    assert(v@ =~= s@);
    v
}

/// Whether `c` occurs in `v`.
pub fn contains_char(v: &Vec<char>, c: char) -> (r: bool)
    ensures
        r == v@.contains(c),
{
    let n = v.len();
    let mut i: usize = 0;
    while i < n
        invariant
            n == v@.len(),
            i <= n,
            forall|j: int| 0 <= j < i ==> v@[j] != c,
        decreases n - i,
    {
        if v[i] == c {
            return true;
        }
        i = i + 1;
    }
    false
}

/// The characters of `s` that are not whitespace, in order.
pub open spec fn glyph_chars(s: Seq<char>) -> Seq<char>
    decreases s.len(),
{
    if s.len() == 0 {
        Seq::empty()
    } else if is_white_space(s.last()) {
        glyph_chars(s.drop_last())
    } else {
        glyph_chars(s.drop_last()).push(s.last())
    }
}

/// The glyph characters of `s` are `s` with its whitespace removed, every
/// other character kept, as often as it occurs and in order.
pub proof fn lemma_glyph_chars_is_whitespace_removed(s: Seq<char>)
    ensures
        glyph_chars(s) == s.filter(|c: char| !is_white_space(c)),
    decreases s.len(),
{
    reveal(Seq::filter);
    if s.len() > 0 {
        lemma_glyph_chars_is_whitespace_removed(s.drop_last());
    }
}

/// Every glyph character is a non-whitespace character of `s`, and every
/// non-whitespace character of `s` is a glyph character.
pub proof fn lemma_glyph_chars_members(s: Seq<char>, c: char)
    ensures
        glyph_chars(s).contains(c) <==> (s.contains(c) && !is_white_space(c)),
        glyph_chars(s).len() <= s.len(),
    decreases s.len(),
{
    if s.len() > 0 {
        let p = s.drop_last();
        let x = s.last();
        lemma_glyph_chars_members(p, c);
        lemma_push_contains(p, x, c);
        assert(s =~= p.push(x));
        if !is_white_space(x) {
            lemma_push_contains(glyph_chars(p), x, c);
        }
    }
}

/// `s.push(x)` contains exactly the elements of `s` and `x`.
pub proof fn lemma_push_contains<A>(s: Seq<A>, x: A, c: A)
    ensures
        s.push(x).contains(c) <==> (s.contains(c) || x == c),
{
    if s.contains(c) {
        let j = choose|j: int| 0 <= j < s.len() && s[j] == c;
        assert(s.push(x)[j] == c);
    }
    if x == c {
        assert(s.push(x)[s.len() as int] == c);
    }
    if s.push(x).contains(c) && x != c {
        let j = choose|j: int| 0 <= j < s.push(x).len() && s.push(x)[j] == c;
        assert(s[j] == c);
    }
}

/// The characters of `s` that are not whitespace, in order.
pub fn glyphs_of(s: &Vec<char>) -> (g: Vec<char>)
    ensures
        g@ == glyph_chars(s@),
{
    let n = s.len();
    let mut g: Vec<char> = Vec::new();
    let mut i: usize = 0;
    while i < n
        invariant
            n == s@.len(),
            i <= n,
            g@ == glyph_chars(s@.take(i as int)),
        decreases n - i,
    {
        let c = s[i];
        assert(s@.take(i + 1).drop_last() =~= s@.take(i as int));
        if !char_is_whitespace(c) {
            g.push(c);
        }
        i = i + 1;
    }
    assert(s@.take(n as int) =~= s@);
    g
}

} // verus!
