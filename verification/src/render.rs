//! Rendering text into a balloon-shaped crop whose label is known by
//! construction: which characters are drawn, whether the font can draw them,
//! and where each glyph cell sits on the canvas.
//!
//! Layout is em-square: every glyph is centred in a square cell, advancing
//! down a column (vertical) or across a line (horizontal), so a crop's bounds
//! are exactly what the label describes.
use ab_glyph::Font;
use vstd::arithmetic::div_mod::{lemma_div_decreases, lemma_fundamental_div_mod, lemma_mod_pos_bound};
use vstd::arithmetic::mul::lemma_mul_inequality;
use vstd::prelude::*;
use crate::text::{
    char_is_whitespace, chars_of, contains_char, glyph_chars, glyphs_of, is_white_space,
    lemma_glyph_chars_members, lemma_push_contains,
};

verus! {

#[verifier::external_type_specification]
#[verifier::external_body]
pub struct ExFontVec(ab_glyph::FontVec);

#[verifier::external_type_specification]
#[verifier::external_body]
pub struct ExInvalidFont(ab_glyph::InvalidFont);

/// Which way the text runs. Manga balloons are overwhelmingly `VerticalRl`;
/// sound effects, signage and Western comics are `HorizontalTb`.
#[derive(Debug, Clone, Copy, PartialEq, Eq, Structural)]
pub enum Direction {
    /// Columns run top-to-bottom, successive columns right-to-left.
    VerticalRl,
    /// Lines run left-to-right, successive lines top-to-bottom.
    HorizontalTb,
}

/// Whether `ab_glyph` accepts these bytes as a font (the face at `index` of a
/// collection; a plain font uses 0).
pub uninterp spec fn font_loads(data: Seq<u8>, index: u32) -> bool;

/// The glyph id that `ab_glyph` maps `c` to in the font loaded from `data`
/// at `index`; 0 is the notdef glyph.
pub uninterp spec fn font_glyph_id(data: Seq<u8>, index: u32, c: char) -> u16;

/// `ab_glyph::FontVec::try_from_vec_and_index`. It parses the bytes and
/// nothing else, so whether it succeeds is named as a function of them.
#[verifier::external_body]
fn load_font_vec(data: Vec<u8>, index: u32) -> (r: Result<ab_glyph::FontVec, ab_glyph::InvalidFont>)
    ensures
        r is Ok <==> font_loads(data@, index),
{
    ab_glyph::FontVec::try_from_vec_and_index(data, index)
}

/// The font data could not be parsed.
#[derive(Debug, Clone, Copy, PartialEq, Eq, Structural)]
pub struct InvalidFontData;

/// A font loaded once and reused.
pub struct SynthFont {
    inner: ab_glyph::FontVec,
    data: Ghost<Seq<u8>>,
    index: u32,
}

/// `ab_glyph::Font::glyph_id` on the font that `font` holds. That font is
/// the one `try_from_vec_and_index` parsed from `font.data()` at
/// `font.face_index()` (the only constructor, `SynthFont::from_bytes`, keeps
/// them together), so the id is named as a function of those and `c`.
#[verifier::external_body]
fn glyph_id_of(font: &SynthFont, c: char) -> (g: u16)
    ensures
        g == font_glyph_id(font.data(), font.face_index(), c),
{
    font.inner.glyph_id(c).0
}

impl SynthFont {
    /// The bytes the font was parsed from.
    pub closed spec fn data(&self) -> Seq<u8> {
        self.data@
    }

    /// The face index within those bytes.
    pub closed spec fn face_index(&self) -> u32 {
        self.index
    }

    /// The font `ab_glyph` parsed from `data()` at `face_index()`, which this
    /// value holds.
    pub closed spec fn parsed_font(&self) -> ab_glyph::FontVec {
        self.inner
    }

    /// The font has a real glyph (not notdef) for `c`.
    pub open spec fn draws(&self, c: char) -> bool {
        font_glyph_id(self.data(), self.face_index(), c) != 0
    }

    /// Parse font bytes. `.ttc` collections need an index; a plain
    /// `.ttf`/`.otf` uses 0.
    pub fn from_bytes(data: Vec<u8>, index: u32) -> (r: Result<SynthFont, InvalidFontData>)
        ensures
            r is Ok <==> font_loads(data@, index),
            r matches Ok(f) ==> f.data() == data@ && f.face_index() == index,
    {
        let ghost bytes = data@;
        match load_font_vec(data, index) {
            Ok(inner) => Ok(SynthFont { inner, data: Ghost(bytes), index }),
            Err(_) => Err(InvalidFontData),
        }
    }

    /// The parsed font, for drawing: the one this value holds.
    pub fn font_vec(&self) -> (r: &ab_glyph::FontVec)
        ensures
            *r == self.parsed_font(),
    {
        &self.inner
    }

    /// True when the font can actually draw this character. A font missing
    /// the glyph renders the notdef box, which would train the model on a
    /// label the image does not contain.
    pub fn covers(&self, c: char) -> (r: bool)
        ensures
            r == self.draws(c),
    {
        glyph_id_of(self, c) != 0
    }

    /// The characters of `s` the font cannot draw, whitespace aside, each
    /// once, in order of first appearance.
    pub open spec fn uncovered_in(&self, s: Seq<char>) -> Seq<char>
        decreases s.len(),
    {
        if s.len() == 0 {
            Seq::empty()
        } else {
            let prev = self.uncovered_in(s.drop_last());
            let c = s.last();
            if !is_white_space(c) && !self.draws(c) && !prev.contains(c) {
                prev.push(c)
            } else {
                prev
            }
        }
    }

    /// Every character the font cannot draw, in order of first appearance.
    pub fn uncovered(&self, text: &str) -> (seen: Vec<char>)
        ensures
            seen@ == self.uncovered_in(text@),
    {
        let chars = chars_of(text);
        let n = chars.len();
        let mut seen: Vec<char> = Vec::new();
        let mut i: usize = 0;
        while i < n
            invariant
                n == chars@.len(),
                chars@ == text@,
                i <= n,
                seen@ == self.uncovered_in(chars@.take(i as int)),
            decreases n - i,
        {
            let c = chars[i];
            assert(chars@.take(i + 1).drop_last() =~= chars@.take(i as int));
            if !char_is_whitespace(c) && !self.covers(c) && !contains_char(&seen, c) {
                seen.push(c);
            }
            i = i + 1;
        }
        assert(chars@.take(n as int) =~= chars@);
        seen
    }
}

/// The characters reported as undrawable are exactly the non-whitespace
/// characters of `s` that the font has no glyph for, each reported once.
pub proof fn lemma_uncovered_exact(font: &SynthFont, s: Seq<char>, c: char)
    ensures
        font.uncovered_in(s).contains(c) <==> (s.contains(c) && !is_white_space(c) && !font.draws(c)),
        font.uncovered_in(s).no_duplicates(),
    decreases s.len(),
{
    if s.len() > 0 {
        let p = s.drop_last();
        let x = s.last();
        lemma_uncovered_exact(font, p, c);
        lemma_push_contains(p, x, c);
        assert(s =~= p.push(x));
        let prev = font.uncovered_in(p);
        if !is_white_space(x) && !font.draws(x) && !prev.contains(x) {
            lemma_push_contains(prev, x, c);
            assert forall|a: int, b: int| 0 <= a < b < prev.push(x).len() implies prev.push(x)[a] != prev.push(x)[b] by {
                if b == prev.len() {
                    assert(prev.contains(prev[a]));
                }
            }
        } else if x == c && !is_white_space(c) && !font.draws(c) {
            assert(prev.contains(c));
        }
    }
}

/// Processing `s` from an already-reported list `prev`: each non-whitespace
/// character the font cannot draw and not yet listed is added, in order.
pub open spec fn extend_uncovered(font: &SynthFont, prev: Seq<char>, s: Seq<char>) -> Seq<char>
    decreases s.len(),
{
    if s.len() == 0 {
        prev
    } else {
        let p = extend_uncovered(font, prev, s.drop_last());
        let c = s.last();
        if !is_white_space(c) && !font.draws(c) && !p.contains(c) {
            p.push(c)
        } else {
            p
        }
    }
}

/// The elements of `s` that are not in `p`, in order.
pub open spec fn not_in(s: Seq<char>, p: Seq<char>) -> Seq<char>
    decreases s.len(),
{
    if s.len() == 0 {
        Seq::empty()
    } else if p.contains(s.last()) {
        not_in(s.drop_last(), p)
    } else {
        not_in(s.drop_last(), p).push(s.last())
    }
}

proof fn lemma_uncovered_is_extend(font: &SynthFont, s: Seq<char>)
    ensures
        font.uncovered_in(s) == extend_uncovered(font, Seq::empty(), s),
    decreases s.len(),
{
    if s.len() > 0 {
        lemma_uncovered_is_extend(font, s.drop_last());
    }
}

proof fn lemma_extend_concat(font: &SynthFont, prev: Seq<char>, a: Seq<char>, b: Seq<char>)
    ensures
        extend_uncovered(font, prev, a + b) == extend_uncovered(font, extend_uncovered(font, prev, a), b),
    decreases b.len(),
{
    if b.len() == 0 {
        assert(a + b =~= a);
    } else {
        assert((a + b).drop_last() =~= a + b.drop_last());
        assert((a + b).last() == b.last());
        lemma_extend_concat(font, prev, a, b.drop_last());
    }
}

proof fn lemma_concat_contains(p: Seq<char>, q: Seq<char>, c: char)
    ensures
        (p + q).contains(c) <==> (p.contains(c) || q.contains(c)),
{
    if p.contains(c) {
        let j = choose|j: int| 0 <= j < p.len() && p[j] == c;
        assert((p + q)[j] == c);
    }
    if q.contains(c) {
        let j = choose|j: int| 0 <= j < q.len() && q[j] == c;
        assert((p + q)[p.len() + j] == c);
    }
    if (p + q).contains(c) {
        let j = choose|j: int| 0 <= j < (p + q).len() && (p + q)[j] == c;
        if j < p.len() {
            assert(p[j] == c);
        } else {
            assert(q[j - p.len()] == c);
        }
    }
}

proof fn lemma_not_in_contains(s: Seq<char>, p: Seq<char>, c: char)
    ensures
        not_in(s, p).contains(c) <==> (s.contains(c) && !p.contains(c)),
    decreases s.len(),
{
    if s.len() > 0 {
        let t = s.drop_last();
        let x = s.last();
        lemma_not_in_contains(t, p, c);
        lemma_push_contains(t, x, c);
        assert(s =~= t.push(x));
        if !p.contains(x) {
            lemma_push_contains(not_in(t, p), x, c);
        }
    }
}

proof fn lemma_extend_from(font: &SynthFont, prev: Seq<char>, s: Seq<char>)
    ensures
        extend_uncovered(font, prev, s) == prev + not_in(font.uncovered_in(s), prev),
    decreases s.len(),
{
    if s.len() == 0 {
        assert(prev + Seq::<char>::empty() =~= prev);
    } else {
        let t = s.drop_last();
        let x = s.last();
        lemma_extend_from(font, prev, t);
        let u = font.uncovered_in(t);
        let p = extend_uncovered(font, prev, t);
        lemma_concat_contains(prev, not_in(u, prev), x);
        lemma_not_in_contains(u, prev, x);
        assert(u.push(x).drop_last() =~= u);
        if !is_white_space(x) && !font.draws(x) {
            if !p.contains(x) {
                assert(!prev.contains(x));
                assert(not_in(u.push(x), prev) == not_in(u, prev).push(x));
                assert(!u.contains(x));
                assert(prev + not_in(u.push(x), prev) =~= (prev + not_in(u, prev)).push(x));
            } else if u.contains(x) {
                assert(not_in(u, prev).contains(x) || prev.contains(x));
            } else {
                assert(prev.contains(x));
                assert(not_in(u.push(x), prev) =~= not_in(u, prev));
            }
        }
    }
}

/// What the font cannot draw in two texts run together: what it cannot draw
/// in the first, followed by what it cannot draw in the second and did not
/// already report, in order.
pub proof fn lemma_uncovered_concat(font: &SynthFont, a: Seq<char>, b: Seq<char>)
    ensures
        font.uncovered_in(a + b) == font.uncovered_in(a) + not_in(font.uncovered_in(b), font.uncovered_in(a)),
{
    lemma_uncovered_is_extend(font, a + b);
    lemma_uncovered_is_extend(font, a);
    lemma_extend_concat(font, Seq::empty(), a, b);
    lemma_extend_from(font, font.uncovered_in(a), b);
}

/// Whitespace takes no cell and is never reported: what the font cannot draw
/// in `s` is what it cannot draw in the non-whitespace characters of `s`.
proof fn lemma_uncovered_ignores_whitespace(font: &SynthFont, s: Seq<char>)
    ensures
        font.uncovered_in(s) == font.uncovered_in(glyph_chars(s)),
    decreases s.len(),
{
    if s.len() > 0 {
        let t = s.drop_last();
        lemma_uncovered_ignores_whitespace(font, t);
        if !is_white_space(s.last()) {
            assert(glyph_chars(s).drop_last() =~= glyph_chars(t));
        }
    }
}

/// Two texts with the same non-whitespace characters in the same order are
/// drawn alike: they have the same glyphs and the same undrawable
/// characters, so `glyphs_to_draw` gives the same result for both, and so
/// the same layout follows.
pub proof fn lemma_whitespace_never_changes_the_render(font: &SynthFont, t1: Seq<char>, t2: Seq<char>)
    requires
        glyph_chars(t1) == glyph_chars(t2),
    ensures
        font.uncovered_in(t1) == font.uncovered_in(t2),
{
    lemma_uncovered_ignores_whitespace(font, t1);
    lemma_uncovered_ignores_whitespace(font, t2);
}

/// Why a render was refused.
#[derive(Debug)]
pub enum RenderError {
    /// Nothing but whitespace to draw.
    EmptyText,
    /// The font cannot draw these characters; drawing them would produce
    /// notdef boxes that disagree with the label.
    Uncovered(Vec<char>),
    /// `cells_per_run` was 0.
    NoCellsPerRun,
}

/// Choose what to draw for `text`: its non-whitespace characters, in order.
/// Refuses, in this order, text with nothing to draw, text holding a
/// character the font cannot draw, and a layout with no cells per run.
pub fn glyphs_to_draw(text: &str, font: &SynthFont, cells_per_run: usize) -> (r: Result<
    Vec<char>,
    RenderError,
>)
    ensures
        glyph_chars(text@).len() == 0 ==> r matches Err(RenderError::EmptyText),
        glyph_chars(text@).len() > 0 && font.uncovered_in(text@).len() > 0 ==> (r matches Err(
            RenderError::Uncovered(missing),
        ) && missing@ == font.uncovered_in(text@)),
        glyph_chars(text@).len() > 0 && font.uncovered_in(text@).len() == 0 && cells_per_run == 0
            ==> r matches Err(RenderError::NoCellsPerRun),
        glyph_chars(text@).len() > 0 && font.uncovered_in(text@).len() == 0 && cells_per_run > 0
            ==> (r matches Ok(glyphs) && glyphs@ == glyph_chars(text@)),
        r matches Ok(glyphs) ==> forall|j: int|
            0 <= j < glyphs@.len() ==> !is_white_space(#[trigger] glyphs@[j]) && font.draws(glyphs@[j]),
{
    let chars = chars_of(text);
    let glyphs = glyphs_of(&chars);
    if glyphs.len() == 0 {
        return Err(RenderError::EmptyText);
    }
    let missing = font.uncovered(text);
    if missing.len() > 0 {
        return Err(RenderError::Uncovered(missing));
    }
    if cells_per_run == 0 {
        return Err(RenderError::NoCellsPerRun);
    }
    proof {
        assert forall|j: int| 0 <= j < glyphs@.len() implies !is_white_space(#[trigger] glyphs@[j]) && font.draws(glyphs@[j]) by {
            let c = glyphs@[j];
            assert(glyph_chars(text@).contains(c));
            lemma_glyph_chars_members(text@, c);
            lemma_uncovered_exact(font, text@, c);
            if !font.draws(c) {
                assert(font.uncovered_in(text@).contains(c));
            }
        }
    }
    Ok(glyphs)
}

/// How many runs (columns or lines) `n` glyphs need at `k` per run: `n / k`
/// rounded up.
pub open spec fn run_count(n: nat, k: nat) -> nat {
    if k == 0 {
        0
    } else {
        n / k + if n % k == 0 {
            0nat
        } else {
            1nat
        }
    }
}

/// How many cells the longest run holds: `min(n, k)`.
pub open spec fn run_length(n: nat, k: nat) -> nat {
    if n < k {
        n
    } else {
        k
    }
}

/// Width and height of the canvas for `n` glyphs, `k` per run, in cells of
/// `cell` pixels with `pad` pixels of ground on every side. Vertical text
/// lays its runs side by side; horizontal text stacks them.
#[verifier::opaque]
pub open spec fn canvas_dims(direction: Direction, n: nat, k: nat, cell: nat, pad: nat) -> (nat, nat) {
    let across = run_count(n, k) * cell + 2 * pad;
    let along = run_length(n, k) * cell + 2 * pad;
    match direction {
        Direction::VerticalRl => (across, along),
        Direction::HorizontalTb => (along, across),
    }
}

/// Both canvas dimensions fit in `u32`.
pub open spec fn canvas_fits(direction: Direction, n: nat, k: nat, cell: nat, pad: nat) -> bool {
    &&& canvas_dims(direction, n, k, cell, pad).0 <= u32::MAX
    &&& canvas_dims(direction, n, k, cell, pad).1 <= u32::MAX
}

/// The top-left corner of glyph `i`'s cell on a canvas `width` wide: run
/// `i / k`, slot `i % k`. Vertical columns advance right to left, so the
/// first column sits at the right edge.
#[verifier::opaque]
pub open spec fn cell_origin(direction: Direction, i: nat, k: nat, cell: nat, pad: nat, width: nat) -> (int, int) {
    let run = i / k;
    let slot = i % k;
    match direction {
        Direction::VerticalRl => (width - pad - (run + 1) * cell, (pad + slot * cell) as int),
        Direction::HorizontalTb => ((pad + slot * cell) as int, (pad + run * cell) as int),
    }
}

/// How many runs `n` glyphs need at `k` per run.
fn runs_needed(n: usize, k: usize) -> (r: usize)
    requires
        k > 0,
    ensures
        r as nat == run_count(n as nat, k as nat),
{
    if n % k == 0 {
        n / k
    } else {
        proof {
            if k == 1 {
                assert(n % 1 == 0);
            }
            if n == 0 {
                assert(0usize % k == 0);
            }
            lemma_div_decreases(n as int, k as int);
        }
        n / k + 1
    }
}

/// Whether the canvas for this layout fits in `u32` dimensions.
pub fn fits_in_u32(direction: Direction, n: usize, cells_per_run: usize, cell: u32, pad: u32) -> (r: bool)
    requires
        cells_per_run > 0,
    ensures
        r == canvas_fits(direction, n as nat, cells_per_run as nat, cell as nat, pad as nat),
{
    reveal(canvas_dims);
    let runs = runs_needed(n, cells_per_run);
    let in_run: usize = if n < cells_per_run { n } else { cells_per_run };
    assert(runs as u128 * cell as u128 <= 0xffff_ffff_ffff_ffff * 0xffff_ffffu128) by (nonlinear_arith)
        requires runs <= 0xffff_ffff_ffff_ffffu128, cell <= 0xffff_ffffu128;
    assert(in_run as u128 * cell as u128 <= 0xffff_ffff_ffff_ffff * 0xffff_ffffu128) by (nonlinear_arith)
        requires in_run <= 0xffff_ffff_ffff_ffffu128, cell <= 0xffff_ffffu128;
    let across: u128 = runs as u128 * cell as u128 + 2 * pad as u128;
    let along: u128 = in_run as u128 * cell as u128 + 2 * pad as u128;
    across <= 0xffff_ffff && along <= 0xffff_ffff
}

/// Where glyph `i` falls: its run and its slot within the run, each inside
/// the canvas.
proof fn lemma_run_and_slot(i: nat, n: nat, k: nat)
    requires
        k > 0,
        i < n,
    ensures
        i / k + 1 <= run_count(n, k),
        i % k + 1 <= run_length(n, k),
        i / k <= i,
{
    lemma_fundamental_div_mod(i as int, k as int);
    lemma_fundamental_div_mod(n as int, k as int);
    lemma_mod_pos_bound(i as int, k as int);
    lemma_mod_pos_bound(n as int, k as int);
    let q = i / k;
    let r = i % k;
    let qq = n / k;
    let rr = n % k;
    assert(q <= qq) by (nonlinear_arith)
        requires i == k * q + r, n == k * qq + rr, 0 <= r < k, 0 <= rr < k, i < n, q >= 0, qq >= 0;
    if rr == 0 {
        assert(q < qq) by (nonlinear_arith)
            requires i == k * q + r, n == k * qq, 0 <= r < k, i < n, q <= qq;
    }
    assert(r <= i && q <= i) by (nonlinear_arith)
        requires i == k * q + r, q >= 0, k > 0, r >= 0;
}

proof fn lemma_succ_mul(a: nat, c: nat)
    ensures
        (a + 1) * c == a * c + c,
{
    assert((a + 1) * c == a * c + c) by (nonlinear_arith);
}

/// Glyph `i`'s cell lies inside the canvas, within the padding.
proof fn lemma_cell_inside(direction: Direction, i: nat, n: nat, k: nat, cell: nat, pad: nat)
    requires
        k > 0,
        i < n,
    ensures
        (i / k + 1) * cell <= run_count(n, k) * cell,
        (i % k + 1) * cell <= run_length(n, k) * cell,
        (i / k + 1) * cell == (i / k) * cell + cell,
        (i % k + 1) * cell == (i % k) * cell + cell,
        i / k <= i,
{
    lemma_run_and_slot(i, n, k);
    lemma_mul_inequality((i / k + 1) as int, run_count(n, k) as int, cell as int);
    lemma_mul_inequality((i % k + 1) as int, run_length(n, k) as int, cell as int);
    lemma_succ_mul(i / k, cell);
    lemma_succ_mul(i % k, cell);
}

/// `count` cells of `cell` pixels, in pixels.
fn cells_px(count: usize, cell: u32) -> (r: u32)
    requires
        count * cell <= u32::MAX,
    ensures
        r == count * cell,
{
    if cell == 0 {
        0
    } else {
        assert(count <= count * cell) by (nonlinear_arith)
            requires cell >= 1;
        (count as u32) * cell
    }
}

/// The top-left corner of glyph `i`'s cell on a canvas `width` wide.
fn glyph_origin(direction: Direction, i: usize, n: usize, k: usize, cell: u32, pad: u32, width: u32) -> (r: (u32, u32))
    requires
        k > 0,
        i < n,
        canvas_fits(direction, n as nat, k as nat, cell as nat, pad as nat),
        width as nat == canvas_dims(direction, n as nat, k as nat, cell as nat, pad as nat).0,
    ensures
        r.0 as int == cell_origin(direction, i as nat, k as nat, cell as nat, pad as nat, width as nat).0,
        r.1 as int == cell_origin(direction, i as nat, k as nat, cell as nat, pad as nat, width as nat).1,
{
    reveal(canvas_dims);
    reveal(cell_origin);
    let run = i / k;
    let slot = i % k;
    proof {
        lemma_cell_inside(direction, i as nat, n as nat, k as nat, cell as nat, pad as nat);
    }
    match direction {
        Direction::VerticalRl => (width - pad - cells_px(run + 1, cell), pad + cells_px(slot, cell)),
        Direction::HorizontalTb => (pad + cells_px(slot, cell), pad + cells_px(run, cell)),
    }
}

/// `o` is the corner of cell `i`.
pub open spec fn placed_at(o: (u32, u32), direction: Direction, i: nat, k: nat, cell: nat, pad: nat, width: nat) -> bool {
    &&& o.0 == cell_origin(direction, i, k, cell, pad, width).0
    &&& o.1 == cell_origin(direction, i, k, cell, pad, width).1
}

/// The canvas and where every glyph goes on it: `origins[i]` is the
/// top-left corner of the cell of the `i`-th glyph.
#[derive(Debug)]
pub struct Layout {
    pub width: u32,
    pub height: u32,
    pub origins: Vec<(u32, u32)>,
}

/// Lay `glyphs` out `cells_per_run` to a run, in square cells of `cell`
/// pixels, with `pad` pixels of ground around the block.
pub fn layout_glyphs(
    direction: Direction,
    glyphs: &Vec<char>,
    cells_per_run: usize,
    cell: u32,
    pad: u32,
) -> (l: Layout)
    requires
        cells_per_run > 0,
        canvas_fits(direction, glyphs@.len(), cells_per_run as nat, cell as nat, pad as nat),
    ensures
        (l.width as nat, l.height as nat) == canvas_dims(
            direction,
            glyphs@.len(),
            cells_per_run as nat,
            cell as nat,
            pad as nat,
        ),
        l.origins@.len() == glyphs@.len(),
        forall|i: int|
            0 <= i < glyphs@.len() ==> placed_at(
                #[trigger] l.origins@[i],
                direction,
                i as nat,
                cells_per_run as nat,
                cell as nat,
                pad as nat,
                l.width as nat,
            ),
{
    let n = glyphs.len();
    let k = cells_per_run;
    proof {
        reveal(canvas_dims);
    }
    let runs = runs_needed(n, k);
    let in_run: usize = if n < k { n } else { k };
    assert(runs as nat == run_count(n as nat, k as nat));
    assert(in_run as nat == run_length(n as nat, k as nat));
    let across: u32 = cells_px(runs, cell) + 2 * pad;
    let along: u32 = cells_px(in_run, cell) + 2 * pad;
    let width: u32 = match direction {
        Direction::VerticalRl => across,
        Direction::HorizontalTb => along,
    };
    let height: u32 = match direction {
        Direction::VerticalRl => along,
        Direction::HorizontalTb => across,
    };
    assert((width as nat, height as nat) == canvas_dims(direction, n as nat, k as nat, cell as nat, pad as nat));
    let mut placed: Vec<(u32, u32)> = Vec::new();
    let mut i: usize = 0;
    while i < n
        invariant
            n == glyphs@.len(),
            k == cells_per_run,
            k > 0,
            i <= n,
            canvas_fits(direction, n as nat, k as nat, cell as nat, pad as nat),
            width as nat == canvas_dims(direction, n as nat, k as nat, cell as nat, pad as nat).0,
            placed@.len() == i,
            forall|j: int|
                0 <= j < i ==> placed_at(
                    #[trigger] placed@[j],
                    direction,
                    j as nat,
                    k as nat,
                    cell as nat,
                    pad as nat,
                    width as nat,
                ),
        decreases n - i,
    {
        let origin = glyph_origin(direction, i, n, k, cell, pad, width);
        placed.push(origin);
        i = i + 1;
    }
    Layout { width, height, origins: placed }
}

/// How many of `px` are darker than the midpoint between `ink` and
/// `ground`: twice the pixel's value is below their sum.
pub open spec fn count_darker(px: Seq<u8>, ink: u8, ground: u8) -> nat
    decreases px.len(),
{
    if px.len() == 0 {
        0
    } else {
        count_darker(px.drop_last(), ink, ground) + if 2 * px.last() < ink + ground {
            1nat
        } else {
            0nat
        }
    }
}

proof fn lemma_count_darker_bound(px: Seq<u8>, ink: u8, ground: u8)
    ensures
        count_darker(px, ink, ground) <= px.len(),
    decreases px.len(),
{
    if px.len() > 0 {
        lemma_count_darker_bound(px.drop_last(), ink, ground);
    }
}

/// How many pixels are darker than the midpoint between ink and ground:
/// the pixels that count as drawn ink.
pub fn count_dark(pixels: &[u8], ink: u8, ground: u8) -> (r: usize)
    ensures
        r == count_darker(pixels@, ink, ground),
{
    let sum: u16 = ink as u16 + ground as u16;
    let n = pixels.len();
    let mut dark: usize = 0;
    let mut i: usize = 0;
    while i < n
        invariant
            n == pixels@.len(),
            i <= n,
            sum == ink + ground,
            dark == count_darker(pixels@.take(i as int), ink, ground),
        decreases n - i,
    {
        assert(pixels@.take(i + 1).drop_last() =~= pixels@.take(i as int));
        proof {
            lemma_count_darker_bound(pixels@.take(i as int), ink, ground);
        }
        if 2 * (pixels[i] as u16) < sum {
            dark = dark + 1;
        }
        i = i + 1;
    }
    assert(pixels@.take(n as int) =~= pixels@);
    dark
}

/// The run count is `n / k` rounded up: enough runs for every glyph, and one
/// fewer would not be.
proof fn lemma_run_count_bounds(n: nat, k: nat)
    requires
        k > 0,
    ensures
        run_count(n, k) * k >= n,
        n > 0 ==> (run_count(n, k) - 1) * k < n,
        n == 0 ==> run_count(n, k) == 0,
{
    lemma_fundamental_div_mod(n as int, k as int);
    lemma_mod_pos_bound(n as int, k as int);
    let q = n / k;
    let r = n % k;
    if r == 0 {
        assert(run_count(n, k) == q);
        assert(q * k >= n && (n > 0 ==> (q - 1) * k < n)) by (nonlinear_arith)
            requires n == k * q + r, r == 0, k > 0;
        if n == 0 {
            assert(q == 0) by (nonlinear_arith)
                requires 0 == k * q, k > 0;
        }
    } else {
        assert(run_count(n, k) == q + 1);
        assert((q + 1) * k >= n && q * k < n) by (nonlinear_arith)
            requires n == k * q + r, 0 < r < k;
    }
}

/// Horizontal text is vertical text transposed: the same runs and cells,
/// with width and height exchanged.
pub proof fn lemma_canvas_transpose(n: nat, k: nat, cell: nat, pad: nat)
    ensures
        canvas_dims(Direction::HorizontalTb, n, k, cell, pad).0 == canvas_dims(Direction::VerticalRl, n, k, cell, pad).1,
        canvas_dims(Direction::HorizontalTb, n, k, cell, pad).1 == canvas_dims(Direction::VerticalRl, n, k, cell, pad).0,
{
    reveal(canvas_dims);
}

/// Text that fits in one run, of at least two glyphs, makes a vertical
/// canvas taller than wide and a horizontal one wider than tall.
pub proof fn lemma_single_run_shape(n: nat, k: nat, cell: nat, pad: nat)
    requires
        2 <= n <= k,
        cell >= 1,
    ensures
        canvas_dims(Direction::VerticalRl, n, k, cell, pad).1 > canvas_dims(Direction::VerticalRl, n, k, cell, pad).0,
        canvas_dims(Direction::HorizontalTb, n, k, cell, pad).0 > canvas_dims(Direction::HorizontalTb, n, k, cell, pad).1,
{
    reveal(canvas_dims);
    lemma_run_count_bounds(n, k);
    assert(run_count(n, k) == 1) by (nonlinear_arith)
        requires
            run_count(n, k) * k >= n,
            (run_count(n, k) - 1) * k < n,
            2 <= n <= k;
    assert(n * cell > 1 * cell) by (nonlinear_arith)
        requires n >= 2, cell >= 1;
}

/// Fewer glyphs per run never make a vertical canvas narrower nor taller
/// (nor a horizontal one shorter or wider): text wraps into more runs
/// rather than overflowing one.
pub proof fn lemma_wrapping_monotone(n: nat, k1: nat, k2: nat, cell: nat, pad: nat)
    requires
        1 <= k1 <= k2,
    ensures
        run_count(n, k1) >= run_count(n, k2),
        run_length(n, k1) <= run_length(n, k2),
        canvas_dims(Direction::VerticalRl, n, k1, cell, pad).0 >= canvas_dims(Direction::VerticalRl, n, k2, cell, pad).0,
        canvas_dims(Direction::VerticalRl, n, k1, cell, pad).1 <= canvas_dims(Direction::VerticalRl, n, k2, cell, pad).1,
        canvas_dims(Direction::HorizontalTb, n, k1, cell, pad).1 >= canvas_dims(Direction::HorizontalTb, n, k2, cell, pad).1,
        canvas_dims(Direction::HorizontalTb, n, k1, cell, pad).0 <= canvas_dims(Direction::HorizontalTb, n, k2, cell, pad).0,
{
    reveal(canvas_dims);
    lemma_run_count_bounds(n, k1);
    lemma_run_count_bounds(n, k2);
    let r1 = run_count(n, k1);
    let r2 = run_count(n, k2);
    if n > 0 {
        assert(r2 >= 1) by (nonlinear_arith)
            requires r2 * k2 >= n, n >= 1, r2 >= 0;
        assert(r1 >= r2) by (nonlinear_arith)
            requires r1 * k1 >= n, (r2 - 1) * k2 < n, k1 <= k2, r1 >= 0, r2 >= 1, k1 >= 1;
    }
    lemma_mul_inequality(r2 as int, r1 as int, cell as int);
    lemma_mul_inequality(run_length(n, k1) as int, run_length(n, k2) as int, cell as int);
}

/// Text that fits in one run at `k2` glyphs per run but not at `k1` wraps at
/// `k1` into more runs: the vertical canvas gets strictly wider and strictly
/// shorter (the horizontal one strictly taller and narrower).
pub proof fn lemma_wrapping_adds_a_run(n: nat, k1: nat, k2: nat, cell: nat, pad: nat)
    requires
        1 <= k1 < n <= k2,
        cell >= 1,
    ensures
        canvas_dims(Direction::VerticalRl, n, k1, cell, pad).0 > canvas_dims(Direction::VerticalRl, n, k2, cell, pad).0,
        canvas_dims(Direction::VerticalRl, n, k1, cell, pad).1 < canvas_dims(Direction::VerticalRl, n, k2, cell, pad).1,
        canvas_dims(Direction::HorizontalTb, n, k1, cell, pad).1 > canvas_dims(Direction::HorizontalTb, n, k2, cell, pad).1,
        canvas_dims(Direction::HorizontalTb, n, k1, cell, pad).0 < canvas_dims(Direction::HorizontalTb, n, k2, cell, pad).0,
{
    reveal(canvas_dims);
    lemma_run_count_bounds(n, k1);
    lemma_run_count_bounds(n, k2);
    let r1 = run_count(n, k1);
    let r2 = run_count(n, k2);
    assert(r2 == 1) by (nonlinear_arith)
        requires r2 * k2 >= n, (r2 - 1) * k2 < n, n <= k2, n >= 1;
    assert(r1 >= 2) by (nonlinear_arith)
        requires r1 * k1 >= n, k1 < n, r1 >= 0;
    assert(r1 * cell > r2 * cell) by (nonlinear_arith)
        requires r1 > r2, cell >= 1;
    assert(k1 * cell < n * cell) by (nonlinear_arith)
        requires k1 < n, cell >= 1;
}

/// Every glyph cell lies inside the canvas, inside the padding; vertical
/// columns run right to left, so glyph 0's column sits at the right edge;
/// and two glyphs never share a cell: their cells are at least a cell apart
/// across or along the runs.
pub proof fn lemma_cells_inside_and_apart(
    direction: Direction,
    n: nat,
    k: nat,
    cell: nat,
    pad: nat,
    i: nat,
    j: nat,
)
    requires
        k > 0,
        i < n,
        j < n,
    ensures
        ({
            let (w, h) = canvas_dims(direction, n, k, cell, pad);
            let o = cell_origin(direction, i, k, cell, pad, w);
            &&& pad <= o.0
            &&& o.0 + cell + pad <= w
            &&& pad <= o.1
            &&& o.1 + cell + pad <= h
        }),
        direction == Direction::VerticalRl ==> cell_origin(direction, 0, k, cell, pad, canvas_dims(direction, n, k, cell, pad).0).0
            == canvas_dims(direction, n, k, cell, pad).0 - pad - cell,
        direction == Direction::VerticalRl && i / k < j / k ==> cell_origin(direction, i, k, cell, pad, canvas_dims(direction, n, k, cell, pad).0).0
            >= cell_origin(direction, j, k, cell, pad, canvas_dims(direction, n, k, cell, pad).0).0 + cell,
        i != j ==> ({
            let w = canvas_dims(direction, n, k, cell, pad).0;
            let oi = cell_origin(direction, i, k, cell, pad, w);
            let oj = cell_origin(direction, j, k, cell, pad, w);
            ||| oi.0 + cell <= oj.0
            ||| oj.0 + cell <= oi.0
            ||| oi.1 + cell <= oj.1
            ||| oj.1 + cell <= oi.1
        }),
{
    reveal(canvas_dims);
    reveal(cell_origin);
    lemma_cell_inside(direction, i, n, k, cell, pad);
    lemma_cell_inside(direction, j, n, k, cell, pad);
    assert(0nat / k == 0 && 0nat % k == 0) by (nonlinear_arith)
        requires k > 0;
    lemma_succ_mul(0nat / k, cell);
    lemma_fundamental_div_mod(i as int, k as int);
    lemma_fundamental_div_mod(j as int, k as int);
    let ri = i / k;
    let rj = j / k;
    let si = i % k;
    let sj = j % k;
    if ri < rj {
        assert(ri * cell + cell <= rj * cell) by (nonlinear_arith)
            requires ri < rj;
    } else if rj < ri {
        assert(rj * cell + cell <= ri * cell) by (nonlinear_arith)
            requires rj < ri;
    } else if i != j {
        assert(si != sj) by (nonlinear_arith)
            requires i == k * ri + si, j == k * rj + sj, ri == rj, i != j;
        if si < sj {
            assert(si * cell + cell <= sj * cell) by (nonlinear_arith)
                requires si < sj;
        } else {
            assert(sj * cell + cell <= si * cell) by (nonlinear_arith)
                requires sj < si;
        }
    }
}

} // verus!
